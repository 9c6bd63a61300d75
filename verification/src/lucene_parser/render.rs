//! Pure tree walk turning an expression tree into a single SQL boolean
//! expression, and the escaping it relies on.
//!
//! Three escaping transforms are kept apart. `like_escape` neutralises the
//! LIKE pattern metacharacters, `json_escape` the characters special inside a
//! JSON string literal. Independently of both, any literal single quote is
//! doubled when already-escaped text is embedded inside a single-quoted SQL
//! string segment; that transform is applied last.

use vstd::prelude::*;

use crate::lucene_parser::ast::Expr;
use crate::lucene_parser::ast::ExprView;
use crate::lucene_parser::ast::lemma_views_of;
use crate::lucene_parser::ast::views_of;
use crate::lucene_parser::text::push_char;
use crate::lucene_parser::text::str_eq;

verus! {

broadcast use vstd::std_specs::vec::group_vec_axioms;

// ---------- escaping ----------
/// `\`, `%` and `_` are metacharacters inside a LIKE/ILIKE pattern; each is
/// preceded by a backslash.
pub open spec fn like_escape_char(c: char) -> Seq<char> {
    if c == '\\' {
        seq!['\\', '\\']
    } else if c == '%' {
        seq!['\\', '%']
    } else if c == '_' {
        seq!['\\', '_']
    } else {
        seq![c]
    }
}

/// Escaping of a whole string for embedding inside a LIKE/ILIKE pattern.
pub open spec fn like_escape(s: Seq<char>) -> Seq<char>
    decreases s.len(),
{
    if s.len() == 0 {
        Seq::empty()
    } else {
        like_escape(s.drop_last()) + like_escape_char(s.last())
    }
}

/// `\` and `"` are special inside a JSON string literal; each is preceded by
/// a backslash.
pub open spec fn json_escape_char(c: char) -> Seq<char> {
    if c == '\\' {
        seq!['\\', '\\']
    } else if c == '"' {
        seq!['\\', '"']
    } else {
        seq![c]
    }
}

/// Escaping of a whole string for embedding inside a JSON string literal.
pub open spec fn json_escape(s: Seq<char>) -> Seq<char>
    decreases s.len(),
{
    if s.len() == 0 {
        Seq::empty()
    } else {
        json_escape(s.drop_last()) + json_escape_char(s.last())
    }
}

/// A literal single quote is doubled inside a single-quoted SQL string
/// segment.
pub open spec fn quote_double_char(c: char) -> Seq<char> {
    if c == '\'' {
        seq!['\'', '\'']
    } else {
        seq![c]
    }
}

/// Quote doubling of a whole string, applied after the other escaping.
pub open spec fn quote_double(s: Seq<char>) -> Seq<char>
    decreases s.len(),
{
    if s.len() == 0 {
        Seq::empty()
    } else {
        quote_double(s.drop_last()) + quote_double_char(s.last())
    }
}

/// A value as it is embedded inside a single-quoted ILIKE pattern.
pub open spec fn like_lit(s: Seq<char>) -> Seq<char> {
    quote_double(like_escape(s))
}

/// A value as it is embedded inside the single-quoted JSON object literal.
pub open spec fn json_lit(s: Seq<char>) -> Seq<char> {
    quote_double(json_escape(s))
}

/// Escapes `\`, `%` and `_` for SQL LIKE patterns.
pub fn escape_sql_like(s: &str) -> (r: String)
    ensures
        r@ == like_escape(s@),
{
    let n = s.unicode_len();
    let mut out = String::new();
    let mut i: usize = 0;
    while i < n
        invariant
            n == s@.len(),
            0 <= i <= n,
            out@ == like_escape(s@.take(i as int)),
        decreases n - i,
    {
        let ghost prev = out@;
        let c = s.get_char(i);
        if c == '\\' {
            push_char(&mut out, '\\');
            push_char(&mut out, '\\');
        } else if c == '%' {
            push_char(&mut out, '\\');
            push_char(&mut out, '%');
        } else if c == '_' {
            push_char(&mut out, '\\');
            push_char(&mut out, '_');
        } else {
            push_char(&mut out, c);
        }
        proof {
            assert(out@ =~= prev + like_escape_char(c));
            assert(s@.take(i + 1).drop_last() =~= s@.take(i as int));
            assert(s@.take(i + 1).last() == s@[i as int]);
        }
        i = i + 1;
    }
    proof {
        assert(s@.take(n as int) =~= s@);
    }
    out
}

/// Escapes `\` and `"` for a JSON string literal.
pub fn escape_json(s: &str) -> (r: String)
    ensures
        r@ == json_escape(s@),
{
    let n = s.unicode_len();
    let mut out = String::new();
    let mut i: usize = 0;
    while i < n
        invariant
            n == s@.len(),
            0 <= i <= n,
            out@ == json_escape(s@.take(i as int)),
        decreases n - i,
    {
        let ghost prev = out@;
        let c = s.get_char(i);
        if c == '\\' {
            push_char(&mut out, '\\');
            push_char(&mut out, '\\');
        } else if c == '"' {
            push_char(&mut out, '\\');
            push_char(&mut out, '"');
        } else {
            push_char(&mut out, c);
        }
        proof {
            assert(out@ =~= prev + json_escape_char(c));
            assert(s@.take(i + 1).drop_last() =~= s@.take(i as int));
            assert(s@.take(i + 1).last() == s@[i as int]);
        }
        i = i + 1;
    }
    proof {
        assert(s@.take(n as int) =~= s@);
    }
    out
}

/// Doubles every literal single quote.
pub fn escape_single_quotes(s: &str) -> (r: String)
    ensures
        r@ == quote_double(s@),
{
    let n = s.unicode_len();
    let mut out = String::new();
    let mut i: usize = 0;
    while i < n
        invariant
            n == s@.len(),
            0 <= i <= n,
            out@ == quote_double(s@.take(i as int)),
        decreases n - i,
    {
        let ghost prev = out@;
        let c = s.get_char(i);
        if c == '\'' {
            push_char(&mut out, '\'');
            push_char(&mut out, '\'');
        } else {
            push_char(&mut out, c);
        }
        proof {
            assert(out@ =~= prev + quote_double_char(c));
            assert(s@.take(i + 1).drop_last() =~= s@.take(i as int));
            assert(s@.take(i + 1).last() == s@[i as int]);
        }
        i = i + 1;
    }
    proof {
        assert(s@.take(n as int) =~= s@);
    }
    out
}

/// A value ready for embedding inside a single-quoted ILIKE pattern.
fn like_literal(s: &str) -> (r: String)
    ensures
        r@ == like_lit(s@),
{
    let e = escape_sql_like(s);
    escape_single_quotes(e.as_str())
}

/// A value ready for embedding inside the single-quoted JSON object literal.
fn json_literal(s: &str) -> (r: String)
    ensures
        r@ == json_lit(s@),
{
    let e = escape_json(s);
    escape_single_quotes(e.as_str())
}

// ---------- rendering ----------
/// Rendering of a term or phrase: a textual match against either column,
/// parenthesized as one unit.
pub open spec fn render_term(t: Seq<char>) -> Seq<char> {
    "(secret_key ILIKE '%"@ + like_lit(t) + "%' OR secret_value::text ILIKE '%"@ + like_lit(t)
        + "%')"@
}

/// Rendering of a key:value pair: the two schema fields get a single-clause
/// match of their own column; any other key gets the three-part combo clause
/// (textual AND-pair, OR a JSON containment alternative).
pub open spec fn render_key_value(k: Seq<char>, v: Seq<char>) -> Seq<char> {
    if k == "secret_key"@ {
        "secret_key ILIKE '%"@ + like_lit(v) + "%'"@
    } else if k == "secret_value"@ {
        "secret_value::text ILIKE '%"@ + like_lit(v) + "%'"@
    } else {
        "(secret_key ILIKE '%"@ + like_lit(k) + "%' AND secret_value::text ILIKE '%"@ + like_lit(v)
            + "%' OR secret_value @> '{\""@ + json_lit(k) + "\": \""@ + json_lit(v) + "\"}')"@
    }
}

/// Rendering of a whole expression tree.
///
/// `Or`/`And` lists never collapse information: a singleton list renders as
/// its sole child; only `Group` forces extra parentheses.
pub open spec fn render(e: ExprView) -> Seq<char>
    decreases e,
{
    match e {
        ExprView::Or(cs) => render_list(cs, " OR "@),
        ExprView::And(cs) => render_list(cs, " AND "@),
        ExprView::Not(x) => "NOT "@ + render(*x),
        ExprView::Group(x) => "("@ + render(*x) + ")"@,
        ExprView::KeyValue(k, v) => render_key_value(k, v),
        ExprView::Phrase(t) => render_term(t),
        ExprView::Term(t) => render_term(t),
    }
}

/// The children's renderings joined by `sep`; empty for an empty list.
pub open spec fn render_list(cs: Seq<ExprView>, sep: Seq<char>) -> Seq<char>
    decreases cs,
{
    if cs.len() == 0 {
        Seq::empty()
    } else if cs.len() == 1 {
        render(cs[0])
    } else {
        render_list(cs.drop_last(), sep) + sep + render(cs.last())
    }
}

/// Renders an expression tree into a SQL boolean expression, exactly as
/// [`render`] states.
pub fn render_expr(e: &Expr) -> (r: String)
    ensures
        r@ == render(e@),
    decreases *e,
{
    match e {
        Expr::Or(cs) => render_children(cs, " OR "),
        Expr::And(cs) => render_children(cs, " AND "),
        Expr::Not(x) => {
            let mut out = String::new();
            out.append("NOT ");
            let inner = render_expr(x);
            out.append(inner.as_str());
            out
        },
        Expr::Group(x) => {
            let mut out = String::new();
            out.append("(");
            let inner = render_expr(x);
            out.append(inner.as_str());
            out.append(")");
            out
        },
        Expr::KeyValue(k, v) => {
            let mut out = String::new();
            if str_eq(k.as_str(), "secret_key") {
                out.append("secret_key ILIKE '%");
                let lv = like_literal(v.as_str());
                out.append(lv.as_str());
                out.append("%'");
            } else if str_eq(k.as_str(), "secret_value") {
                out.append("secret_value::text ILIKE '%");
                let lv = like_literal(v.as_str());
                out.append(lv.as_str());
                out.append("%'");
            } else {
                out.append("(secret_key ILIKE '%");
                let lk = like_literal(k.as_str());
                out.append(lk.as_str());
                out.append("%' AND secret_value::text ILIKE '%");
                let lv = like_literal(v.as_str());
                out.append(lv.as_str());
                out.append("%' OR secret_value @> '{\"");
                let jk = json_literal(k.as_str());
                out.append(jk.as_str());
                out.append("\": \"");
                let jv = json_literal(v.as_str());
                out.append(jv.as_str());
                out.append("\"}')");
            }
            out
        },
        Expr::Phrase(t) => render_leaf(t),
        Expr::Term(t) => render_leaf(t),
    }
}

/// Rendering of the shared term/phrase shape.
fn render_leaf(t: &String) -> (r: String)
    ensures
        r@ == render_term(t@),
{
    let mut out = String::new();
    out.append("(secret_key ILIKE '%");
    let lt = like_literal(t.as_str());
    out.append(lt.as_str());
    out.append("%' OR secret_value::text ILIKE '%");
    out.append(lt.as_str());
    out.append("%')");
    out
}

/// Renders a child list joined by `sep`.
fn render_children(cs: &Vec<Expr>, sep: &str) -> (r: String)
    ensures
        r@ == render_list(views_of(cs@), sep@),
    decreases *cs,
{
    broadcast use lemma_views_of;

    if cs.len() == 0 {
        String::new()
    } else {
        let mut out = render_expr(&cs[0]);
        let ghost vs = views_of(cs@);
        proof {
            assert(vs.take(1) =~= seq![vs[0]]);
        }
        let mut i: usize = 1;
        while i < cs.len()
            invariant
                1 <= i <= cs@.len(),
                vs == views_of(cs@),
                vs.len() == cs@.len(),
                forall|j: int| 0 <= j < cs@.len() ==> vs[j] == cs@[j]@,
                out@ == render_list(vs.take(i as int), sep@),
            decreases cs@.len() - i,
        {
            let ghost prev = out@;
            out.append(sep);
            let part = render_expr(&cs[i]);
            out.append(part.as_str());
            proof {
                assert(vs.take(i + 1).drop_last() =~= vs.take(i as int));
                assert(vs.take(i + 1).last() == vs[i as int]);
                assert(out@ == render_list(vs.take(i as int), sep@) + sep@ + render(vs[i as int]));
            }
            i = i + 1;
        }
        proof {
            assert(vs.take(cs@.len() as int) =~= vs);
        }
        out
    }
}

} // verus!
