//! Recursive-descent parser from the token stream to an expression tree.
//!
//! Precedence, tightest to loosest: `NOT`/`-` binds to the immediately
//! following atom; `AND` (explicit, or implicit between adjacent atoms)
//! combines NOT-expressions; `OR` combines AND-groups. Explicit parentheses
//! override all of the above and force a `Group` wrapper that the renderer
//! reproduces as literal parentheses.
//!
//! Parse errors: a dangling trailing operator, two operators in direct
//! adjacency, an unmatched parenthesis, and an empty group. No partial tree
//! is ever returned.

use vstd::prelude::*;

use crate::lucene_parser::ast::Expr;
use crate::lucene_parser::ast::ExprView;
use crate::lucene_parser::ast::lemma_views_of;
use crate::lucene_parser::ast::lemma_views_of_push;
use crate::lucene_parser::ast::views_of;
use crate::lucene_parser::ast::wf_view;
use crate::lucene_parser::lexer::TokView;
use crate::lucene_parser::lexer::Token;
use crate::lucene_parser::lexer::lemma_token_views;
use crate::lucene_parser::lexer::token_views;

verus! {

/// Position after a sub-parse, forced into `lo..=n` so that the mutually
/// recursive grammar functions visibly terminate. Every sub-parse in fact
/// consumes at least one token and stays within the stream (the executable
/// parser proves as much), so the forcing never changes a reachable value.
pub open spec fn step_pos(j: int, lo: int, n: int) -> int {
    let k = if j < lo {
        lo
    } else {
        j
    };
    if k > n {
        n
    } else {
        k
    }
}

/// Tokens that can start an atom; adjacency to one of these means an
/// implicit AND.
pub open spec fn is_atom_start(t: TokView) -> bool {
    match t {
        TokView::OpenParen => true,
        TokView::NotOp => true,
        TokView::Word(_) => true,
        TokView::Quoted(_) => true,
        TokView::Pair(_, _) => true,
        TokView::CloseParen => false,
        TokView::AndOp => false,
        TokView::OrOp => false,
    }
}

/// End of the run of NOT operators starting at `i`.
pub open spec fn not_run_end(ts: Seq<TokView>, i: int) -> int
    decreases ts.len() - i,
    when 0 <= i <= ts.len()
{
    if i < ts.len() && ts[i] is NotOp {
        not_run_end(ts, i + 1)
    } else {
        i
    }
}

/// The NOT run stays within the stream.
pub proof fn lemma_not_run_end(ts: Seq<TokView>, i: int)
    requires
        0 <= i <= ts.len(),
    ensures
        i <= not_run_end(ts, i) <= ts.len(),
    decreases ts.len() - i,
{
    if i < ts.len() && ts[i] is NotOp {
        lemma_not_run_end(ts, i + 1);
    }
}

/// An OR-level expression: AND-groups combined by `OR`.
pub open spec fn p_or(ts: Seq<TokView>, i: int) -> Option<(ExprView, int)>
    decreases ts.len() - i, 5int,
    when 0 <= i <= ts.len()
{
    match p_and(ts, i) {
        None => None,
        Some(r) => match or_tail(ts, step_pos(r.1, i + 1, ts.len() as int), seq![r.0]) {
            None => None,
            Some(t) => Some(
                (
                    if t.0.len() == 1 {
                        t.0[0]
                    } else {
                        ExprView::Or(t.0)
                    },
                    t.1,
                ),
            ),
        },
    }
}

/// Further `OR <and-group>` continuations, collected onto `acc`.
pub open spec fn or_tail(ts: Seq<TokView>, i: int, acc: Seq<ExprView>) -> Option<
    (Seq<ExprView>, int),
>
    decreases ts.len() - i, 4int,
    when 0 <= i <= ts.len()
{
    if i < ts.len() && ts[i] is OrOp {
        match p_and(ts, i + 1) {
            None => None,
            Some(r) => or_tail(ts, step_pos(r.1, i + 2, ts.len() as int), acc.push(r.0)),
        }
    } else {
        Some((acc, i))
    }
}

/// An AND-level expression: NOT-expressions combined by explicit `AND` or by
/// adjacency.
pub open spec fn p_and(ts: Seq<TokView>, i: int) -> Option<(ExprView, int)>
    decreases ts.len() - i, 3int,
    when 0 <= i <= ts.len()
{
    match p_not(ts, i) {
        None => None,
        Some(r) => match and_tail(ts, step_pos(r.1, i + 1, ts.len() as int), seq![r.0]) {
            None => None,
            Some(t) => Some(
                (
                    if t.0.len() == 1 {
                        t.0[0]
                    } else {
                        ExprView::And(t.0)
                    },
                    t.1,
                ),
            ),
        },
    }
}

/// Further `AND <not-expr>` or adjacent-atom continuations, collected onto
/// `acc`.
pub open spec fn and_tail(ts: Seq<TokView>, i: int, acc: Seq<ExprView>) -> Option<
    (Seq<ExprView>, int),
>
    decreases ts.len() - i, 2int,
    when 0 <= i <= ts.len()
{
    if i < ts.len() && ts[i] is AndOp {
        match p_not(ts, i + 1) {
            None => None,
            Some(r) => and_tail(ts, step_pos(r.1, i + 2, ts.len() as int), acc.push(r.0)),
        }
    } else if i < ts.len() && is_atom_start(ts[i]) {
        match p_not(ts, i) {
            None => None,
            Some(r) => and_tail(ts, step_pos(r.1, i + 1, ts.len() as int), acc.push(r.0)),
        }
    } else {
        Some((acc, i))
    }
}

/// A NOT-expression: a run of NOT operators followed by a primary. Stacked
/// NOT operators collapse into a single negation.
pub open spec fn p_not(ts: Seq<TokView>, i: int) -> Option<(ExprView, int)>
    decreases ts.len() - i, 1int,
    when 0 <= i <= ts.len() via p_not_decreases
{
    let e = not_run_end(ts, i);
    match p_primary(ts, e) {
        None => None,
        Some(r) => Some(
            (
                if e > i {
                    ExprView::Not(Box::new(r.0))
                } else {
                    r.0
                },
                r.1,
            ),
        ),
    }
}

/// Termination of [`p_not`]: the NOT run stays within the stream.
#[via_fn]
proof fn p_not_decreases(ts: Seq<TokView>, i: int) {
    lemma_not_run_end(ts, i);
}

/// A primary: a parenthesized group or a single atom.
pub open spec fn p_primary(ts: Seq<TokView>, i: int) -> Option<(ExprView, int)>
    decreases ts.len() - i, 0int,
    when 0 <= i <= ts.len()
{
    if i >= ts.len() {
        None
    } else {
        match ts[i] {
            TokView::OpenParen => match p_or(ts, i + 1) {
                None => None,
                Some(r) => if r.1 < ts.len() && ts[r.1] is CloseParen {
                    Some((ExprView::Group(Box::new(r.0)), r.1 + 1))
                } else {
                    None
                },
            },
            TokView::Word(w) => Some((ExprView::Term(w), i + 1)),
            TokView::Quoted(t) => Some((ExprView::Phrase(t), i + 1)),
            TokView::Pair(k, v) => Some((ExprView::KeyValue(k, v), i + 1)),
            TokView::NotOp => None,
            TokView::CloseParen => None,
            TokView::AndOp => None,
            TokView::OrOp => None,
        }
    }
}

/// The tree of a whole token stream: one OR-level expression consuming every
/// token.
pub open spec fn parse_toks(ts: Seq<TokView>) -> Option<ExprView> {
    match p_or(ts, 0) {
        None => None,
        Some(r) => if r.1 == ts.len() {
            Some(r.0)
        } else {
            None
        },
    }
}

// ---------- executable parser ----------
/// A parse error: the index of the offending token and what was expected
/// there.
pub struct ParseFail {
    pub at: usize,
    pub expected: &'static str,
}

/// Whether the token is an `OR` operator.
fn is_or_tok(t: &Token) -> (b: bool)
    ensures
        b == (t@ is OrOp),
{
    matches!(t, Token::OrOp)
}

/// Whether the token is an `AND` operator.
fn is_and_tok(t: &Token) -> (b: bool)
    ensures
        b == (t@ is AndOp),
{
    matches!(t, Token::AndOp)
}

/// Whether the token is a `NOT` operator.
fn is_not_tok(t: &Token) -> (b: bool)
    ensures
        b == (t@ is NotOp),
{
    matches!(t, Token::NotOp)
}

/// Whether the token can start an atom.
fn is_atom_start_tok(t: &Token) -> (b: bool)
    ensures
        b == is_atom_start(t@),
{
    match t {
        Token::OpenParen => true,
        Token::NotOp => true,
        Token::Word(_) => true,
        Token::Quoted(_) => true,
        Token::Pair(_, _) => true,
        Token::CloseParen => false,
        Token::AndOp => false,
        Token::OrOp => false,
    }
}

/// Parses an OR-level expression, exactly as [`p_or`] states.
#[verifier::loop_isolation(false)]
pub fn parse_or_toks(ts: &Vec<Token>, i: usize) -> (r: Result<(Expr, usize), ParseFail>)
    requires
        i <= ts@.len(),
    ensures
        match r {
            Ok(p) => p_or(token_views(ts@), i as int) == Some((p.0@, p.1 as int)) && i < p.1
                <= ts@.len() && wf_view(p.0@),
            Err(f) => p_or(token_views(ts@), i as int) is None,
        },
    decreases ts@.len() - i, 5int,
{
    broadcast use lemma_token_views, lemma_views_of;

    let ghost tv = token_views(ts@);
    let ghost n = ts@.len() as int;
    let n_exec = ts.len();
    let (first, first_pos) = match parse_and_toks(ts, i) {
        Ok(p) => p,
        Err(f) => {
            return Err(f);
        },
    };
    proof {
        assert(tv.len() == ts@.len());
        assert(step_pos(first_pos as int, i + 1, n) == first_pos as int);
    }
    let ghost start_acc = seq![first@];
    let ghost start_pos = first_pos as int;
    let mut children: Vec<Expr> = vec![first];
    let mut pos: usize = first_pos;
    proof {
        assert(views_of(children@) =~= start_acc);
    }
    while pos < n_exec && is_or_tok(&ts[pos])
        invariant
            i < pos <= n,
            n == ts@.len(),
            n_exec == ts@.len(),
            tv == token_views(ts@),
            tv.len() == ts@.len(),
            children@.len() >= 1,
            or_tail(tv, start_pos, start_acc) == or_tail(tv, pos as int, views_of(children@)),
            forall|j: int| 0 <= j < children@.len() ==> wf_view(#[trigger] children@[j]@),
        decreases n_exec - pos,
    {
        let ghost acc = views_of(children@);
        proof {
            lemma_token_views(ts@);
            assert(tv[pos as int] == ts@[pos as int]@);
        }
        let (e, j) = match parse_and_toks(ts, pos + 1) {
            Ok(p) => p,
            Err(f) => {
                proof {
                    assert(or_tail(tv, pos as int, acc) is None);
                }
                return Err(f);
            },
        };
        proof {
            assert(step_pos(j as int, pos + 2, n) == j as int);
            lemma_views_of_push(children@, e);
            assert(acc.push(e@) =~= views_of(children@.push(e)));
            assert(or_tail(tv, pos as int, acc) == or_tail(tv, j as int, acc.push(e@)));
        }
        children.push(e);
        pos = j;
    }
    proof {
        if (pos as int) < tv.len() {
            assert(tv[pos as int] == ts@[pos as int]@);
        }
        assert(or_tail(tv, pos as int, views_of(children@)) == Some(
            (views_of(children@), pos as int),
        ));
    }
    if children.len() == 1 {
        let ghost cs = views_of(children@);
        let e = children.remove(0);
        proof {
            assert(cs[0] == e@);
        }
        Ok((e, pos))
    } else {
        let ghost cs = views_of(children@);
        let result = Expr::Or(children);
        proof {
            assert(result@ == ExprView::Or(cs));
        }
        Ok((result, pos))
    }
}

/// Parses an AND-level expression, exactly as [`p_and`] states.
#[verifier::loop_isolation(false)]
pub fn parse_and_toks(ts: &Vec<Token>, i: usize) -> (r: Result<(Expr, usize), ParseFail>)
    requires
        i <= ts@.len(),
    ensures
        match r {
            Ok(p) => p_and(token_views(ts@), i as int) == Some((p.0@, p.1 as int)) && i < p.1
                <= ts@.len() && wf_view(p.0@),
            Err(f) => p_and(token_views(ts@), i as int) is None,
        },
    decreases ts@.len() - i, 3int,
{
    broadcast use lemma_token_views, lemma_views_of;

    let ghost tv = token_views(ts@);
    let ghost n = ts@.len() as int;
    let n_exec = ts.len();
    let (first, first_pos) = match parse_not_toks(ts, i) {
        Ok(p) => p,
        Err(f) => {
            return Err(f);
        },
    };
    proof {
        assert(tv.len() == ts@.len());
        assert(step_pos(first_pos as int, i + 1, n) == first_pos as int);
    }
    let ghost start_acc = seq![first@];
    let ghost start_pos = first_pos as int;
    let mut children: Vec<Expr> = vec![first];
    let mut pos: usize = first_pos;
    proof {
        assert(views_of(children@) =~= start_acc);
    }
    while pos < n_exec && (is_and_tok(&ts[pos]) || is_atom_start_tok(&ts[pos]))
        invariant
            i < pos <= n,
            n == ts@.len(),
            n_exec == ts@.len(),
            tv == token_views(ts@),
            tv.len() == ts@.len(),
            children@.len() >= 1,
            and_tail(tv, start_pos, start_acc) == and_tail(tv, pos as int, views_of(children@)),
            forall|j: int| 0 <= j < children@.len() ==> wf_view(#[trigger] children@[j]@),
        decreases n_exec - pos,
    {
        let ghost acc = views_of(children@);
        proof {
            lemma_token_views(ts@);
            assert(tv[pos as int] == ts@[pos as int]@);
        }
        if is_and_tok(&ts[pos]) {
            let (e, j) = match parse_not_toks(ts, pos + 1) {
                Ok(p) => p,
                Err(f) => {
                    proof {
                        assert(and_tail(tv, pos as int, acc) is None);
                    }
                    return Err(f);
                },
            };
            proof {
                assert(step_pos(j as int, pos + 2, n) == j as int);
                lemma_views_of_push(children@, e);
                assert(acc.push(e@) =~= views_of(children@.push(e)));
                assert(and_tail(tv, pos as int, acc) == and_tail(tv, j as int, acc.push(e@)));
            }
            children.push(e);
            pos = j;
        } else {
            let (e, j) = match parse_not_toks(ts, pos) {
                Ok(p) => p,
                Err(f) => {
                    proof {
                        assert(and_tail(tv, pos as int, acc) is None);
                    }
                    return Err(f);
                },
            };
            proof {
                assert(step_pos(j as int, pos + 1, n) == j as int);
                lemma_views_of_push(children@, e);
                assert(acc.push(e@) =~= views_of(children@.push(e)));
                assert(and_tail(tv, pos as int, acc) == and_tail(tv, j as int, acc.push(e@)));
            }
            children.push(e);
            pos = j;
        }
    }
    proof {
        if (pos as int) < tv.len() {
            assert(tv[pos as int] == ts@[pos as int]@);
        }
        assert(and_tail(tv, pos as int, views_of(children@)) == Some(
            (views_of(children@), pos as int),
        ));
    }
    if children.len() == 1 {
        let ghost cs = views_of(children@);
        let e = children.remove(0);
        proof {
            assert(cs[0] == e@);
        }
        Ok((e, pos))
    } else {
        let ghost cs = views_of(children@);
        let result = Expr::And(children);
        proof {
            assert(result@ == ExprView::And(cs));
        }
        Ok((result, pos))
    }
}

/// Parses a NOT-expression, exactly as [`p_not`] states.
#[verifier::loop_isolation(false)]
pub fn parse_not_toks(ts: &Vec<Token>, i: usize) -> (r: Result<(Expr, usize), ParseFail>)
    requires
        i <= ts@.len(),
    ensures
        match r {
            Ok(p) => p_not(token_views(ts@), i as int) == Some((p.0@, p.1 as int)) && i < p.1
                <= ts@.len() && wf_view(p.0@),
            Err(f) => p_not(token_views(ts@), i as int) is None,
        },
    decreases ts@.len() - i, 1int,
{
    broadcast use lemma_token_views;

    let ghost tv = token_views(ts@);
    proof {
        assert(tv.len() == ts@.len());
        lemma_not_run_end(tv, i as int);
    }
    let n_exec = ts.len();
    let mut e: usize = i;
    while e < n_exec && is_not_tok(&ts[e])
        invariant
            i <= e <= n_exec,
            n_exec == ts@.len(),
            tv == token_views(ts@),
            tv.len() == ts@.len(),
            not_run_end(tv, i as int) == not_run_end(tv, e as int),
        decreases n_exec - e,
    {
        proof {
            lemma_token_views(ts@);
            assert(tv[e as int] == ts@[e as int]@);
            assert(not_run_end(tv, e as int) == not_run_end(tv, e + 1));
        }
        e = e + 1;
    }
    proof {
        if (e as int) < tv.len() {
            assert(tv[e as int] == ts@[e as int]@);
        }
        assert(not_run_end(tv, e as int) == e as int);
    }
    match parse_primary_toks(ts, e) {
        Ok((prim, j)) => {
            if e > i {
                Ok((Expr::Not(Box::new(prim)), j))
            } else {
                Ok((prim, j))
            }
        },
        Err(f) => Err(f),
    }
}

/// Parses a primary, exactly as [`p_primary`] states.
pub fn parse_primary_toks(ts: &Vec<Token>, i: usize) -> (r: Result<(Expr, usize), ParseFail>)
    requires
        i <= ts@.len(),
    ensures
        match r {
            Ok(p) => p_primary(token_views(ts@), i as int) == Some((p.0@, p.1 as int)) && i < p.1
                <= ts@.len() && wf_view(p.0@),
            Err(f) => p_primary(token_views(ts@), i as int) is None,
        },
    decreases ts@.len() - i, 0int,
{
    broadcast use lemma_token_views;

    let n_exec = ts.len();
    if i >= n_exec {
        return Err(ParseFail { at: i, expected: "an expression" });
    }
    match &ts[i] {
        Token::OpenParen => {
            match parse_or_toks(ts, i + 1) {
                Ok((e, j)) => {
                    if j < n_exec && matches!(&ts[j], Token::CloseParen) {
                        Ok((Expr::Group(Box::new(e)), j + 1))
                    } else {
                        Err(ParseFail { at: j, expected: "a closing ')'" })
                    }
                },
                Err(f) => Err(f),
            }
        },
        Token::Word(w) => Ok((Expr::Term(w.clone()), i + 1)),
        Token::Quoted(t) => Ok((Expr::Phrase(t.clone()), i + 1)),
        Token::Pair(k, v) => Ok((Expr::KeyValue(k.clone(), v.clone()), i + 1)),
        Token::CloseParen => Err(ParseFail { at: i, expected: "an expression" }),
        Token::AndOp => Err(ParseFail { at: i, expected: "an expression" }),
        Token::OrOp => Err(ParseFail { at: i, expected: "an expression" }),
        Token::NotOp => Err(ParseFail { at: i, expected: "an expression" }),
    }
}

/// Parses a whole token stream, exactly as [`parse_toks`] states.
pub fn parse_token_stream(ts: &Vec<Token>) -> (r: Result<Expr, ParseFail>)
    ensures
        match r {
            Ok(e) => parse_toks(token_views(ts@)) == Some(e@) && wf_view(e@),
            Err(f) => parse_toks(token_views(ts@)) is None,
        },
{
    broadcast use lemma_token_views;

    match parse_or_toks(ts, 0) {
        Ok((e, j)) => {
            if j == ts.len() {
                Ok(e)
            } else {
                Err(ParseFail { at: j, expected: "an operator or the end of the query" })
            }
        },
        Err(f) => Err(f),
    }
}

} // verus!
