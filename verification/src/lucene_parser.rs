//! Compiler from the Lucene-inspired search query language to a SQL boolean
//! expression over the two-column secret store.
//!
//! The pipeline is: raw string -> lexer ([`lexer`]) -> token stream ->
//! parser ([`parser`]) -> expression tree ([`ast`]) -> renderer ([`render`])
//! -> SQL fragment. Compilation is a pure transformation: [`compile_spec`]
//! pins the result down for every input, and [`query_to_sql`] returns
//! exactly that.

use vstd::prelude::*;

pub mod ast;
pub mod lexer;
pub mod parser;
pub mod render;
pub mod text;

pub use ast::Expr;
pub use ast::ExprView;
pub use render::escape_sql_like;
pub use text::str_eq;

use crate::lucene_parser::ast::wf_view;
use crate::lucene_parser::lexer::lemma_token_views;
use crate::lucene_parser::lexer::lex;
use crate::lucene_parser::lexer::tokenize;
use crate::lucene_parser::parser::parse_toks;
use crate::lucene_parser::parser::parse_token_stream;
use crate::lucene_parser::render::render;
use crate::lucene_parser::render::render_expr;
use crate::lucene_parser::text::chars_of;
use crate::lucene_parser::text::decimal_digits;
use crate::lucene_parser::text::is_unicode_ws_char;
use crate::lucene_parser::text::lemma_ws_prefix_end;
use crate::lucene_parser::text::lemma_ws_suffix_start;
use crate::lucene_parser::text::subrange_chars;
use crate::lucene_parser::text::trim_bounds;
use crate::lucene_parser::text::unicode_trim;
use crate::lucene_parser::text::usize_to_string;
use crate::lucene_parser::text::ws_prefix_end;
use crate::lucene_parser::text::ws_suffix_start;

verus! {

/// The tree a raw query parses to: the input is trimmed of Unicode
/// whitespace at its edges, lexed, and the token stream parsed as one
/// expression; `None` exactly on the grammar-invalid inputs.
pub open spec fn parse_query(s: Seq<char>) -> Option<ExprView> {
    match lex(unicode_trim(s)) {
        None => None,
        Some(ts) => parse_toks(ts),
    }
}

/// What compilation yields for every input: an input that is empty after
/// Unicode-whitespace trimming compiles to `TRUE`; any other input compiles
/// to the rendering of its parse tree; `None` exactly on the
/// grammar-invalid inputs.
pub open spec fn compile_spec(s: Seq<char>) -> Option<Seq<char>> {
    match lex(unicode_trim(s)) {
        None => None,
        Some(ts) => if ts.len() == 0 {
            Some("TRUE"@)
        } else {
            match parse_toks(ts) {
                None => None,
                Some(e) => Some(render(e)),
            }
        },
    }
}

/// An error from query compilation.
///
/// A syntax error is caused by the user's query text and is always
/// recoverable by correcting the query; it carries the offending input
/// position and what was expected there, and its message is safe to show
/// directly to an end user. An internal error signals a parser/renderer
/// contract mismatch and is never produced in correct operation:
/// [`query_to_sql`] guarantees that every error it returns is a
/// `SyntaxError`.
#[derive(Debug)]
pub enum QueryParseError {
    SyntaxError { position: usize, expected: &'static str },
    InternalError { detail: &'static str },
}

impl QueryParseError {
    /// A human-readable description of the error, carrying the offending
    /// input position and the expected-token context.
    pub fn message(&self) -> (m: String)
        ensures
            match self {
                QueryParseError::SyntaxError { position, expected } => m@
                    == "Invalid query syntax at position "@ + decimal_digits(position as nat)
                    + ": expected "@ + expected@,
                QueryParseError::InternalError { detail } => m@ == "Internal parser error: "@
                    + detail@,
            },
    {
        match self {
            QueryParseError::SyntaxError { position, expected } => {
                let mut m = String::new();
                m.append("Invalid query syntax at position ");
                let digits = usize_to_string(*position);
                m.append(digits.as_str());
                m.append(": expected ");
                m.append(expected);
                m
            },
            QueryParseError::InternalError { detail } => {
                let mut m = String::new();
                m.append("Internal parser error: ");
                m.append(detail);
                m
            },
        }
    }
}

/// The query parser: splits a raw query into tokens and builds the
/// expression tree.
pub struct QueryParser;

impl QueryParser {
    /// Parses a raw query into its expression tree, exactly as
    /// [`parse_query`] states; the tree is well-formed. Errors, all of them
    /// syntax errors, come exactly on the inputs [`parse_query`] rejects.
    pub fn parse(input: &str) -> (r: Result<Expr, QueryParseError>)
        ensures
            match r {
                Ok(e) => parse_query(input@) == Some(e@) && wf_view(e@),
                Err(qe) => parse_query(input@) is None && qe is SyntaxError,
            },
    {
        let chars = chars_of(input);
        let (start, end) = trim_bounds(&chars);
        let trimmed = subrange_chars(&chars, start, end);
        match tokenize(&trimmed) {
            Err(le) => Err(
                QueryParseError::SyntaxError {
                    position: start + le.position,
                    expected: le.expected,
                },
            ),
            Ok((toks, positions)) => match parse_token_stream(&toks) {
                Ok(e) => Ok(e),
                Err(pf) => {
                    let position = if pf.at < positions.len() {
                        start + positions[pf.at]
                    } else {
                        chars.len()
                    };
                    Err(QueryParseError::SyntaxError { position, expected: pf.expected })
                },
            },
        }
    }
}

/// Converts a raw Lucene-style query into a SQL WHERE clause, exactly as
/// [`compile_spec`] states: `TRUE` for an input that is empty after
/// Unicode-whitespace trimming, otherwise the rendering of the parse tree.
///
/// Success and failure are pinned down: the call succeeds exactly on the
/// inputs [`compile_spec`] accepts, and every error is a `SyntaxError` —
/// grammar-valid input never raises an internal error.
pub fn query_to_sql(raw: &str) -> (r: Result<String, QueryParseError>)
    ensures
        match r {
            Ok(sql) => compile_spec(raw@) == Some(sql@),
            Err(qe) => compile_spec(raw@) is None && qe is SyntaxError,
        },
{
    let chars = chars_of(raw);
    let (start, end) = trim_bounds(&chars);
    let trimmed = subrange_chars(&chars, start, end);
    match tokenize(&trimmed) {
        Err(le) => Err(
            QueryParseError::SyntaxError { position: start + le.position, expected: le.expected },
        ),
        Ok((toks, positions)) => {
            proof {
                lemma_token_views(toks@);
            }
            if toks.len() == 0 {
                Ok(String::from_str("TRUE"))
            } else {
                match parse_token_stream(&toks) {
                    Ok(e) => Ok(render_expr(&e)),
                    Err(pf) => {
                        let position = if pf.at < positions.len() {
                            start + positions[pf.at]
                        } else {
                            chars.len()
                        };
                        Err(QueryParseError::SyntaxError { position, expected: pf.expected })
                    },
                }
            }
        },
    }
}

// ---------- laws ----------
/// Compilation is pure: its outcome is a function of the input text alone,
/// so compiling identical input twice yields byte-identical output.
pub proof fn lemma_compile_deterministic(
    raw: Seq<char>,
    r1: Option<Seq<char>>,
    r2: Option<Seq<char>>,
)
    requires
        r1 == compile_spec(raw),
        r2 == compile_spec(raw),
    ensures
        r1 == r2,
{
}

/// An input that is empty or holds Unicode whitespace alone — one that is
/// empty after trimming — compiles to exactly `TRUE`.
pub proof fn lemma_whitespace_input_true(raw: Seq<char>)
    requires
        forall|j: int| 0 <= j < raw.len() ==> is_unicode_ws_char(#[trigger] raw[j]),
    ensures
        compile_spec(raw) == Some("TRUE"@),
{
    lemma_ws_prefix_end(raw, 0);
    lemma_ws_suffix_start(raw, raw.len() as int);
    assert(ws_prefix_end(raw, 0) == raw.len());
    assert(ws_suffix_start(raw, raw.len() as int) == 0);
    assert(unicode_trim(raw) =~= Seq::<char>::empty());
    assert(lex(Seq::<char>::empty()) == Some(Seq::<lexer::TokView>::empty()));
}

} // verus!
