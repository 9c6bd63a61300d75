//! Behaviour of the query compiler: every grammar construct, the escaping
//! rules, and the syntax errors.

use keyvault::lucene_parser::query_to_sql;

fn sql(raw: &str) -> String {
    match query_to_sql(raw) {
        Ok(s) => s,
        Err(e) => panic!("query_to_sql failed for query '{}': {}", raw, e.message()),
    }
}

#[test]
fn test_empty_query() {
    assert_eq!(sql(""), "TRUE");
    assert_eq!(sql("   "), "TRUE");
}

#[test]
fn test_simple_key_value_includes() {
    let raw = "something:wild";
    assert_eq!(
        sql(raw),
        "(secret_key ILIKE '%something%' AND secret_value::text ILIKE '%wild%' OR \
         secret_value @> '{\"something\": \"wild\"}')"
    );
}

#[test]
fn test_simple_key_value_excludes() {
    let raw = "-something:wild";
    assert_eq!(
        sql(raw),
        "NOT (secret_key ILIKE '%something%' AND secret_value::text ILIKE \
         '%wild%' OR secret_value @> '{\"something\": \"wild\"}')"
    );
}

#[test]
fn test_schema_field_key_includes() {
    let raw = "secret_key:test_value";
    assert_eq!(sql(raw), "secret_key ILIKE '%test\\_value%'");
}

#[test]
fn test_schema_field_value_includes() {
    let raw = "secret_value:some data";
    assert_eq!(
        sql(raw),
        "secret_value::text ILIKE '%some%' AND (secret_key ILIKE '%data%' OR \
         secret_value::text ILIKE '%data%')"
    );
}

#[test]
fn test_schema_field_key_excludes() {
    let raw = "-secret_key:test_initial_value";
    assert_eq!(sql(raw), "NOT secret_key ILIKE '%test\\_initial\\_value%'");
}

#[test]
fn test_implicit_and() {
    let raw = "foo:bar baz:qux";
    assert_eq!(
        sql(raw),
        "(secret_key ILIKE '%foo%' AND secret_value::text ILIKE '%bar%' OR \
         secret_value @> '{\"foo\": \"bar\"}') AND (secret_key ILIKE '%baz%' AND \
         secret_value::text ILIKE '%qux%' OR secret_value @> '{\"baz\": \"qux\"}')"
    );
}

#[test]
fn test_explicit_and() {
    let raw = "foo:bar AND baz:qux";
    assert_eq!(
        sql(raw),
        "(secret_key ILIKE '%foo%' AND secret_value::text ILIKE '%bar%' OR \
         secret_value @> '{\"foo\": \"bar\"}') AND (secret_key ILIKE '%baz%' AND \
         secret_value::text ILIKE '%qux%' OR secret_value @> '{\"baz\": \"qux\"}')"
    );
}

#[test]
fn test_multiple_and() {
    let raw = "foo AND bar baz:qux";
    assert_eq!(
        sql(raw),
        "(secret_key ILIKE '%foo%' OR secret_value::text ILIKE '%foo%') AND \
         (secret_key ILIKE '%bar%' OR secret_value::text ILIKE '%bar%') AND \
         (secret_key ILIKE '%baz%' AND secret_value::text ILIKE '%qux%' OR \
         secret_value @> '{\"baz\": \"qux\"}')"
    );
}

#[test]
fn test_multiple_or() {
    let raw = "foo:bar OR baz:qux";
    assert_eq!(
        sql(raw),
        "(secret_key ILIKE '%foo%' AND secret_value::text ILIKE '%bar%' OR \
         secret_value @> '{\"foo\": \"bar\"}') OR (secret_key ILIKE '%baz%' AND \
         secret_value::text ILIKE '%qux%' OR secret_value @> '{\"baz\": \"qux\"}')"
    );
}

#[test]
fn test_single_term_includes() {
    let raw = "term";
    assert_eq!(
        sql(raw),
        "(secret_key ILIKE '%term%' OR secret_value::text ILIKE '%term%')"
    );
}

#[test]
fn test_single_term_excludes() {
    let raw = "-term";
    assert_eq!(
        sql(raw),
        "NOT (secret_key ILIKE '%term%' OR secret_value::text ILIKE '%term%')"
    );
}

#[test]
fn test_grouped_and_or() {
    let raw = "(foo:bar OR baz:qux) AND something:wild";
    assert_eq!(
        sql(raw),
        "((secret_key ILIKE '%foo%' AND secret_value::text ILIKE '%bar%' OR \
         secret_value @> '{\"foo\": \"bar\"}') OR (secret_key ILIKE '%baz%' AND \
         secret_value::text ILIKE '%qux%' OR secret_value @> '{\"baz\": \
         \"qux\"}')) AND (secret_key ILIKE '%something%' AND secret_value::text \
         ILIKE '%wild%' OR secret_value @> '{\"something\": \"wild\"}')"
    );
}

#[test]
fn test_quoted_phrase() {
    let raw = "\"hello world\"";
    assert_eq!(
        sql(raw),
        "(secret_key ILIKE '%hello world%' OR secret_value::text ILIKE '%hello \
         world%')"
    );
}

#[test]
fn test_key_value_with_quoted_spaces() {
    let raw = "\"first name\":\"last name\"";
    assert_eq!(
        sql(raw),
        "(secret_key ILIKE '%first name%' AND secret_value::text ILIKE '%last \
         name%' OR secret_value @> '{\"first name\": \"last name\"}')"
    );
}

#[test]
fn test_key_value_with_escaped_quotes_in_value() {
    let raw = r#"message:"{\"ok\": true}""#;
    assert_eq!(
        sql(raw),
        r#"(secret_key ILIKE '%message%' AND secret_value::text ILIKE '%{"ok": true}%' OR secret_value @> '{"message": "{\"ok\": true}"}')"#
    );
}

#[test]
fn test_nested_grouping() {
    let raw = "(a:b OR (c:d AND e:f))";
    assert_eq!(
        sql(raw),
        "((secret_key ILIKE '%a%' AND secret_value::text ILIKE '%b%' OR \
         secret_value @> '{\"a\": \"b\"}') OR ((secret_key ILIKE '%c%' AND \
         secret_value::text ILIKE '%d%' OR secret_value @> '{\"c\": \"d\"}') AND \
         (secret_key ILIKE '%e%' AND secret_value::text ILIKE '%f%' OR \
         secret_value @> '{\"e\": \"f\"}')))"
    );
}

#[test]
fn test_double_nested_grouping_with_or() {
    let raw = "(foo:bar OR baz:qux) AND (alpha:beta OR gamma:delta) OR (i:j AND k:l)";
    let expected_sql = "((secret_key ILIKE '%foo%' AND secret_value::text ILIKE '%bar%' OR \
         secret_value @> '{\"foo\": \"bar\"}') OR (secret_key ILIKE '%baz%' AND \
         secret_value::text ILIKE '%qux%' OR secret_value @> '{\"baz\": \"qux\"}')) AND \
         ((secret_key ILIKE '%alpha%' AND secret_value::text ILIKE '%beta%' OR \
         secret_value @> '{\"alpha\": \"beta\"}') OR (secret_key ILIKE '%gamma%' AND \
         secret_value::text ILIKE '%delta%' OR secret_value @> '{\"gamma\": \"delta\"}')) OR \
         ((secret_key ILIKE '%i%' AND secret_value::text ILIKE '%j%' OR \
         secret_value @> '{\"i\": \"j\"}') AND (secret_key ILIKE '%k%' AND \
         secret_value::text ILIKE '%l%' OR secret_value @> '{\"k\": \"l\"}'))";
    assert_eq!(sql(raw), expected_sql);
}

#[test]
fn test_not_with_or() {
    let raw = "-(a:b OR c:d)";
    assert_eq!(
        sql(raw),
        "NOT ((secret_key ILIKE '%a%' AND secret_value::text ILIKE '%b%' OR \
         secret_value @> '{\"a\": \"b\"}') OR (secret_key ILIKE '%c%' AND \
         secret_value::text ILIKE '%d%' OR secret_value @> '{\"c\": \"d\"}'))"
    );
}

#[test]
fn test_not_with_and() {
    let raw = "-(a:b AND c:d)";
    assert_eq!(
        sql(raw),
        "NOT ((secret_key ILIKE '%a%' AND secret_value::text ILIKE '%b%' OR \
         secret_value @> '{\"a\": \"b\"}') AND (secret_key ILIKE '%c%' AND \
         secret_value::text ILIKE '%d%' OR secret_value @> '{\"c\": \"d\"}'))"
    );
}

#[test]
fn test_mixed_not_and_or() {
    let raw = "-a:b AND (c:d OR -e:f)";
    assert_eq!(
        sql(raw),
        "NOT (secret_key ILIKE '%a%' AND secret_value::text ILIKE '%b%' OR \
         secret_value @> '{\"a\": \"b\"}') AND ((secret_key ILIKE '%c%' AND \
         secret_value::text ILIKE '%d%' OR secret_value @> '{\"c\": \"d\"}') OR \
         NOT (secret_key ILIKE '%e%' AND secret_value::text ILIKE '%f%' OR \
         secret_value @> '{\"e\": \"f\"}'))"
    );
}

#[test]
fn test_invalid_syntax() {
    assert!(query_to_sql("a:").is_err());
    assert!(query_to_sql(":b").is_err());
    assert!(query_to_sql("(").is_err());
    assert!(query_to_sql("a AND").is_err());
    assert!(query_to_sql("\"unterminated").is_err());
    assert!(query_to_sql("a:b OR AND c:d").is_err());
}
