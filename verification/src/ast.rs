//! The expression tree built by the reader and consumed, by value, by the
//! lowering pass; `ExprV` is its mathematical shape, with every `Vec`
//! replaced by a `Seq`.

use vstd::prelude::*;

verus! {

/// One node of the abstract syntax tree. A `Form` is an uninterpreted
/// parenthesized list; lowering dispatches on its head symbol.
#[derive(Debug)]
pub enum Expression {
    Int(u64),
    Bool(bool),
    Char(u8),
    Null,
    Str(Vec<u8>),
    Symbol(Vec<u8>),
    Form(Vec<Expression>),
}

/// The spec-level shape of an `Expression`.
pub enum ExprV {
    Int(u64),
    Bool(bool),
    Char(u8),
    Null,
    Str(Seq<u8>),
    Symbol(Seq<u8>),
    Form(Seq<ExprV>),
}

impl Expression {
    /// The mathematical value of this tree.
    pub open spec fn deep_view(self) -> ExprV
        decreases self,
    {
        match self {
            Expression::Int(x) => ExprV::Int(x),
            Expression::Bool(x) => ExprV::Bool(x),
            Expression::Char(x) => ExprV::Char(x),
            Expression::Null => ExprV::Null,
            Expression::Str(bytes) => ExprV::Str(bytes@),
            Expression::Symbol(name) => ExprV::Symbol(name@),
            Expression::Form(args) => ExprV::Form(deep_view_seq(args@)),
        }
    }
}

/// The mathematical value of each tree in a sequence.
pub open spec fn deep_view_seq(s: Seq<Expression>) -> Seq<ExprV>
    decreases s,
{
    if s.len() == 0 {
        Seq::empty()
    } else {
        seq![s[0].deep_view()] + deep_view_seq(s.drop_first())
    }
}

pub proof fn lemma_deep_view_seq(s: Seq<Expression>)
    ensures
        deep_view_seq(s).len() == s.len(),
        forall|i: int| 0 <= i < s.len() ==> deep_view_seq(s)[i] == s[i].deep_view(),
    decreases s,
{
    if s.len() > 0 {
        lemma_deep_view_seq(s.drop_first());
    }
}

} // verus!
