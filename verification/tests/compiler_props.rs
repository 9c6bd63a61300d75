//! Properties of the compiler: purity, precedence, the whitespace rule, the
//! escaping transforms, and the error taxonomy.

use keyvault::lucene_parser::escape_sql_like;
use keyvault::lucene_parser::query_to_sql;
use keyvault::lucene_parser::Expr;
use keyvault::lucene_parser::QueryParseError;
use keyvault::lucene_parser::QueryParser;

#[test]
fn test_compile_twice_is_byte_identical() {
    let inputs = [
        "",
        "   ",
        "term",
        "a AND b OR c",
        "(foo:bar OR baz:qux) AND something:wild",
        r#"message:"{\"ok\": true}""#,
    ];
    for raw in inputs {
        let first = query_to_sql(raw).unwrap();
        let second = query_to_sql(raw).unwrap();
        assert_eq!(first, second, "Query: '{}'", raw);
    }
}

#[test]
fn test_and_binds_tighter_than_or() {
    match QueryParser::parse("a AND b OR c") {
        Ok(Expr::Or(cs)) => {
            assert_eq!(cs.len(), 2);
            assert!(matches!(cs[0], Expr::And(_)));
            assert!(matches!(cs[1], Expr::Term(_)));
        },
        _ => panic!("expected OR at the root of 'a AND b OR c'"),
    }
    match QueryParser::parse("a OR b AND c") {
        Ok(Expr::Or(cs)) => {
            assert_eq!(cs.len(), 2);
            assert!(matches!(cs[0], Expr::Term(_)));
            assert!(matches!(cs[1], Expr::And(_)));
        },
        _ => panic!("expected OR at the root of 'a OR b AND c'"),
    }
}

#[test]
fn test_whitespace_variants_compile_to_true() {
    assert_eq!(query_to_sql("\t").unwrap(), "TRUE");
    assert_eq!(query_to_sql(" \t\r\n ").unwrap(), "TRUE");
    assert_eq!(query_to_sql("\n\n").unwrap(), "TRUE");
}

#[test]
fn test_unicode_whitespace_only_compiles_to_true() {
    // Vertical tab, form feed, next line, no-break space, en/em spaces,
    // line and paragraph separators, ideographic space.
    assert_eq!(query_to_sql("\u{000B}").unwrap(), "TRUE");
    assert_eq!(query_to_sql("\u{000C}\u{0085}").unwrap(), "TRUE");
    assert_eq!(query_to_sql("\u{00A0}\u{2000}\u{2003}\u{200A}").unwrap(), "TRUE");
    assert_eq!(query_to_sql("\u{2028}\u{2029}\u{202F}\u{205F}\u{3000}\u{1680}").unwrap(), "TRUE");
}

#[test]
fn test_unicode_whitespace_trimmed_at_edges() {
    let expected = "(secret_key ILIKE '%term%' OR secret_value::text ILIKE '%term%')";
    assert_eq!(query_to_sql("\u{00A0}term\u{3000}").unwrap(), expected);
    assert_eq!(query_to_sql("a \u{00A0}").unwrap(), query_to_sql("a").unwrap());
}

#[test]
fn test_interior_unicode_whitespace_stays_in_term() {
    // Only the edges are trimmed; inside a query, a non-ASCII whitespace
    // character is an ordinary word character.
    assert_eq!(
        query_to_sql("a\u{00A0}b").unwrap(),
        "(secret_key ILIKE '%a\u{00A0}b%' OR secret_value::text ILIKE '%a\u{00A0}b%')"
    );
}

#[test]
fn test_valid_inputs_never_raise_internal_errors() {
    let inputs = [
        "",
        "term",
        "-term",
        "a:b",
        "secret_key:v",
        "secret_value:v",
        "\"a phrase\"",
        "a AND b",
        "a OR b",
        "a b c",
        "-(a:b OR c:d)",
        "((x))",
        "NOT x",
        "NOT NOT x",
    ];
    for raw in inputs {
        assert!(query_to_sql(raw).is_ok(), "Query: '{}'", raw);
    }
    let invalid = ["a:", ":b", "(", ")", "()", "a)", "a AND", "OR a", "\"open", "a:b OR AND c:d"];
    for raw in invalid {
        match query_to_sql(raw) {
            Ok(s) => panic!("expected a syntax error for '{}', got '{}'", raw, s),
            Err(QueryParseError::SyntaxError { .. }) => {},
            Err(QueryParseError::InternalError { .. }) => {
                panic!("internal error raised for '{}'", raw)
            },
        }
    }
}

#[test]
fn test_stacked_not_collapses_to_one_negation() {
    let expected = "NOT (secret_key ILIKE '%a%' OR secret_value::text ILIKE '%a%')";
    assert_eq!(query_to_sql("NOT a").unwrap(), expected);
    assert_eq!(query_to_sql("NOT NOT a").unwrap(), expected);
    assert_eq!(query_to_sql("--a").unwrap(), expected);
}

#[test]
fn test_escape_sql_like_exact() {
    assert_eq!(escape_sql_like("plain"), "plain");
    assert_eq!(escape_sql_like("100%_a\\b"), "100\\%\\_a\\\\b");
    assert_eq!(escape_sql_like(""), "");
}

#[test]
fn test_single_quotes_doubled_in_term() {
    assert_eq!(
        query_to_sql("o'brien").unwrap(),
        "(secret_key ILIKE '%o''brien%' OR secret_value::text ILIKE '%o''brien%')"
    );
}

#[test]
fn test_single_quotes_doubled_in_key_value() {
    assert_eq!(
        query_to_sql("name:o'hara").unwrap(),
        "(secret_key ILIKE '%name%' AND secret_value::text ILIKE '%o''hara%' OR \
         secret_value @> '{\"name\": \"o''hara\"}')"
    );
}

#[test]
fn test_json_escaping_distinct_from_like_escaping() {
    // An underscore is a LIKE metacharacter but nothing special in JSON; a
    // quote is special in JSON but nothing special in LIKE.
    assert_eq!(
        query_to_sql(r#"my_key:"say \"hi\"""#).unwrap(),
        "(secret_key ILIKE '%my\\_key%' AND secret_value::text ILIKE '%say \"hi\"%' OR \
         secret_value @> '{\"my_key\": \"say \\\"hi\\\"\"}')"
    );
}

#[test]
fn test_syntax_error_positions() {
    match query_to_sql(":b") {
        Err(QueryParseError::SyntaxError { position, .. }) => assert_eq!(position, 0),
        _ => panic!("expected a syntax error for ':b'"),
    }
    match query_to_sql("ok \"oops") {
        Err(QueryParseError::SyntaxError { position, .. }) => assert_eq!(position, 3),
        _ => panic!("expected a syntax error for 'ok \"oops'"),
    }
    // Positions point into the untrimmed input: leading whitespace counts.
    match query_to_sql("\u{00A0}\u{00A0}:b") {
        Err(QueryParseError::SyntaxError { position, .. }) => assert_eq!(position, 2),
        _ => panic!("expected a syntax error for a ':b' after whitespace"),
    }
}

#[test]
fn test_error_message_carries_position_and_context() {
    match query_to_sql("a:") {
        Err(e) => {
            assert_eq!(e.message(), "Invalid query syntax at position 0: expected a value after ':'");
        },
        Ok(_) => panic!("expected a syntax error for 'a:'"),
    }
    match query_to_sql("ab \"oops") {
        Err(e) => {
            assert_eq!(e.message(), "Invalid query syntax at position 3: expected a closing '\"'");
        },
        Ok(_) => panic!("expected a syntax error for 'ab \"oops'"),
    }
}

#[test]
fn test_unquoted_value_captures_single_token() {
    // The value of a key:value pair ends at whitespace; the rest is a
    // separate implicitly ANDed term.
    match QueryParser::parse("k:one two") {
        Ok(Expr::And(cs)) => {
            assert_eq!(cs.len(), 2);
            match &cs[0] {
                Expr::KeyValue(k, v) => {
                    assert_eq!(k, "k");
                    assert_eq!(v, "one");
                },
                _ => panic!("expected a key:value pair first"),
            }
            match &cs[1] {
                Expr::Term(t) => assert_eq!(t, "two"),
                _ => panic!("expected a term second"),
            }
        },
        _ => panic!("expected AND at the root of 'k:one two'"),
    }
}

#[test]
fn test_group_forces_parentheses() {
    // A redundant group around a single term still renders parentheses.
    assert_eq!(
        query_to_sql("(term)").unwrap(),
        "((secret_key ILIKE '%term%' OR secret_value::text ILIKE '%term%'))"
    );
}
