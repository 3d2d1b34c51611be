//! The expression tree built by the parser: a sum type whose variants own
//! their sub-trees outright, so the tree has no sharing and no cycles.

use vstd::prelude::*;
use crate::token::{Token, SpecToken};

verus! {

/// The mathematical model of an expression tree.
pub enum SpecExpr {
    Binary { left: Box<SpecExpr>, operator: SpecToken, right: Box<SpecExpr> },
    Unary { operator: SpecToken, right: Box<SpecExpr> },
    Literal { value: Seq<char> },
    Grouping { expression: Box<SpecExpr> },
}

/// An expression: a binary operation, a unary operation, a literal carrying
/// its text, or a parenthesized grouping kept as a distinct node.
#[derive(Debug, PartialEq)]
pub enum Expr {
    Binary { left: Box<Expr>, operator: Token, right: Box<Expr> },
    Unary { operator: Token, right: Box<Expr> },
    Literal { value: String },
    Grouping { expression: Box<Expr> },
}

/// The model of an expression: the same tree over token models and text.
pub open spec fn expr_view(e: Expr) -> SpecExpr
    decreases e,
{
    match e {
        Expr::Binary { left, operator, right } => SpecExpr::Binary {
            left: Box::new(expr_view(*left)),
            operator: operator@,
            right: Box::new(expr_view(*right)),
        },
        Expr::Unary { operator, right } => SpecExpr::Unary {
            operator: operator@,
            right: Box::new(expr_view(*right)),
        },
        Expr::Literal { value } => SpecExpr::Literal { value: value@ },
        Expr::Grouping { expression } => SpecExpr::Grouping {
            expression: Box::new(expr_view(*expression)),
        },
    }
}

impl View for Expr {
    type V = SpecExpr;

    open spec fn view(&self) -> SpecExpr {
        expr_view(*self)
    }
}

} // verus!
