//! The expression tree a query is parsed into, together with its mathematical
//! model.
//!
//! Tree nodes hold unescaped, logical string values: outer quotes and the
//! quote escapes of the source syntax are removed by the lexer before a value
//! is stored here, and all SQL-context escaping happens only at render time.

use vstd::prelude::*;

verus! {

broadcast use vstd::std_specs::vec::group_vec_axioms;

/// Mathematical model of an expression tree: the same shape as [`Expr`], over
/// sequences of characters.
pub enum ExprView {
    Or(Seq<ExprView>),
    And(Seq<ExprView>),
    Not(Box<ExprView>),
    Group(Box<ExprView>),
    KeyValue(Seq<char>, Seq<char>),
    Phrase(Seq<char>),
    Term(Seq<char>),
}

/// An immutable query expression.
///
/// `Or` and `And` hold their operands in source order, at least one each;
/// a singleton list renders as its sole child. `Group` marks an explicit
/// source-level parenthesization and forces output parentheses regardless of
/// the operand's shape.
pub enum Expr {
    Or(Vec<Expr>),
    And(Vec<Expr>),
    Not(Box<Expr>),
    Group(Box<Expr>),
    KeyValue(String, String),
    Phrase(String),
    Term(String),
}

/// The models of a sequence of subtrees, in order.
pub open spec fn views_of(es: Seq<Expr>) -> Seq<ExprView>
    decreases es,
{
    if es.len() == 0 {
        Seq::empty()
    } else {
        seq![es[0]@] + views_of(es.drop_first())
    }
}

impl View for Expr {
    type V = ExprView;

    open spec fn view(&self) -> ExprView
        decreases self,
    {
        match self {
            Expr::Or(cs) => ExprView::Or(views_of(cs@)),
            Expr::And(cs) => ExprView::And(views_of(cs@)),
            Expr::Not(e) => ExprView::Not(Box::new((**e)@)),
            Expr::Group(e) => ExprView::Group(Box::new((**e)@)),
            Expr::KeyValue(k, v) => ExprView::KeyValue(k@, v@),
            Expr::Phrase(t) => ExprView::Phrase(t@),
            Expr::Term(t) => ExprView::Term(t@),
        }
    }
}

/// Facts about `views_of` that proofs over child lists need: the model list
/// is as long as the child list and holds the children's models.
pub broadcast proof fn lemma_views_of(es: Seq<Expr>)
    ensures
        (#[trigger] views_of(es)).len() == es.len(),
        forall|i: int| 0 <= i < es.len() ==> #[trigger] views_of(es)[i] == es[i]@,
    decreases es,
{
    if es.len() > 0 {
        lemma_views_of(es.drop_first());
        assert(views_of(es) == seq![es[0]@] + views_of(es.drop_first()));
        assert(views_of(es).len() == 1 + views_of(es.drop_first()).len());
        assert forall|i: int| 0 <= i < es.len() implies views_of(es)[i] == es[i]@ by {
            if i > 0 {
                assert(views_of(es)[i] == views_of(es.drop_first())[i - 1]);
                assert(es.drop_first()[i - 1] == es[i]);
            }
        }
    } else {
        assert(views_of(es) == Seq::<ExprView>::empty());
    }
}

/// Appending a subtree appends its model.
pub proof fn lemma_views_of_push(es: Seq<Expr>, e: Expr)
    ensures
        views_of(es.push(e)) =~= views_of(es) + seq![e@],
{
    lemma_views_of(es);
    lemma_views_of(es.push(e));
}

/// Structural invariant of a parsed tree: `Or` and `And` lists are never
/// empty.
pub open spec fn wf_view(e: ExprView) -> bool
    decreases e,
{
    match e {
        ExprView::Or(cs) => cs.len() >= 1 && (forall|i: int|
            0 <= i < cs.len() ==> wf_view(#[trigger] cs[i])),
        ExprView::And(cs) => cs.len() >= 1 && (forall|i: int|
            0 <= i < cs.len() ==> wf_view(#[trigger] cs[i])),
        ExprView::Not(e) => wf_view(*e),
        ExprView::Group(e) => wf_view(*e),
        ExprView::KeyValue(k, v) => true,
        ExprView::Phrase(t) => true,
        ExprView::Term(t) => true,
    }
}

} // verus!
