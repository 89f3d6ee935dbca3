//! The abstract syntax tree produced by the arithmetic grammar.

use vstd::prelude::*;

verus! {

/// Binary operator codes.
///
/// Only `Add`, `Sub`, `Mul` and `Div` are reachable from the grammar;
/// `Mod` and `Pow` are declared for completeness but never produced.
#[derive(Copy, Clone, Debug, PartialEq, Eq, Structural)]
pub enum OpCode {
    Add,
    Sub,
    Mul,
    Div,
    Mod,
    Pow,
}

/// An arithmetic expression: an integer leaf, or a binary operation that
/// exclusively owns both subexpressions (a strict tree).
#[derive(Debug, PartialEq, Eq)]
pub enum Expr {
    Int(i64),
    BinOp(Box<Expr>, OpCode, Box<Expr>),
}

impl DeepView for OpCode {
    type V = OpCode;

    open spec fn deep_view(&self) -> OpCode {
        *self
    }
}

impl DeepView for Expr {
    type V = Expr;

    open spec fn deep_view(&self) -> Expr {
        *self
    }
}

} // verus!
