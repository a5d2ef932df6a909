//! The abstract syntax tree of a program.
//!
//! A program is a `Statement`: an ordered list of named bindings and a
//! body expression.  The expression grammar mirrors operator
//! precedence: comparisons over additive terms over multiplicative
//! terms over postfix operations over primaries.  Identifiers and
//! binding names are byte strings.

use vstd::prelude::*;
use crate::value::ForeignFunction;

verus! {

/// A whole program, or the contents of an immediate block.
pub struct Statement {
    pub definitions: Vec<(Vec<u8>, Expression)>,
    pub body: Expression,
}

/// An expression: a comparison chain, or a strict two-branch
/// conditional.
pub enum Expression {
    Comparison(Comparison),
    If { cond: Box<Expression>, cons: Box<Expression>, alt: Box<Expression> },
}

/// A left-fold of comparison operators over additive terms.
pub struct Comparison {
    pub left: Additive,
    pub rights: Vec<ComparisonRight>,
}

/// One comparison step: the operator and its right operand.
pub enum ComparisonRight {
    Equal(Additive),
    NotEqual(Additive),
    GreaterThan(Additive),
    LessThan(Additive),
    NotGreaterThan(Additive),
    NotLessThan(Additive),
}

/// A left-fold of `+` and `-` over multiplicative terms.
pub struct Additive {
    pub left: Multitive,
    pub rights: Vec<AdditiveRight>,
}

/// One additive step.
pub enum AdditiveRight {
    Add(Multitive),
    Sub(Multitive),
}

/// A left-fold of `*`, `/` and `%` over postfix operations.
pub struct Multitive {
    pub left: Operation,
    pub rights: Vec<MultitiveRight>,
}

/// One multiplicative step.
pub enum MultitiveRight {
    Mul(Operation),
    Div(Operation),
    Surplus(Operation),
}

/// A primary followed by postfix operators.
pub struct Operation {
    pub left: Primary,
    pub rights: Vec<OperationRight>,
}

/// One postfix operator: field access, call, or indexing.
pub enum OperationRight {
    Access(Vec<u8>),
    Call(Vec<Expression>),
    Index(Box<Expression>),
}

/// An atomic expression.
pub enum Primary {
    Number(i64),
    String(Vec<u8>),
    Variable(Vec<u8>),
    /// A parenthesised statement evaluated in place.
    Block(Box<Statement>),
    List(Vec<Expression>),
    /// A function literal: argument names and body.
    Function(Vec<Vec<u8>>, Box<Expression>),
    /// A record literal of named bindings.
    Struct(Vec<(Vec<u8>, Expression)>),
    Null,
    /// A built-in function; only the seeded standard library uses this.
    Foreign(ForeignFunction),
}


/// Whether an expression is a bare primary: a comparison chain with no
/// operators at any precedence level.
pub open spec fn is_plain(e: Expression) -> bool {
    &&& e matches Expression::Comparison(c)
    &&& c.rights@.len() == 0
    &&& c.left.rights@.len() == 0
    &&& c.left.left.rights@.len() == 0
    &&& c.left.left.left.rights@.len() == 0
}

/// The primary of a bare-primary expression.
pub open spec fn plain_primary(e: Expression) -> Primary
    recommends
        is_plain(e),
{
    (e->Comparison_0).left.left.left.left
}

/// Wraps a primary as a full expression, through the empty operator
/// chains of every precedence level.
pub fn primary_expression(p: Primary) -> (r: Expression)
    ensures
        is_plain(r),
        plain_primary(r) == p,
{
    Expression::Comparison(Comparison {
        left: Additive {
            left: Multitive {
                left: Operation { left: p, rights: Vec::new() },
                rights: Vec::new(),
            },
            rights: Vec::new(),
        },
        rights: Vec::new(),
    })
}

} // verus!
