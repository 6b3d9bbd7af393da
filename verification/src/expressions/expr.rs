//! The expression tree: a closed tagged union whose nodes own their children
//! exclusively. Only the parser constructs it.

use vstd::prelude::*;

use crate::token::{SpecLit, SpecToken, Token, TokenLiteral};

verus! {

/// One node of the expression tree.
#[derive(Debug)]
pub enum Expr {
    Binary(Box<Expr>, Token, Box<Expr>),
    Grouping(Box<Expr>),
    Literal(TokenLiteral),
    Unary(Token, Box<Expr>),
}

/// The mathematical form of an expression tree.
pub enum SpecExpr {
    Binary(Box<SpecExpr>, SpecToken, Box<SpecExpr>),
    Grouping(Box<SpecExpr>),
    Literal(SpecLit),
    Unary(SpecToken, Box<SpecExpr>),
}

/// The view of a tree: the same shape over mathematical tokens and literals.
pub open spec fn expr_view(e: &Expr) -> SpecExpr
    decreases e,
{
    match e {
        Expr::Binary(l, op, r) => SpecExpr::Binary(
            Box::new(expr_view(&**l)),
            op@,
            Box::new(expr_view(&**r)),
        ),
        Expr::Grouping(g) => SpecExpr::Grouping(Box::new(expr_view(&**g))),
        Expr::Literal(lit) => SpecExpr::Literal(lit@),
        Expr::Unary(op, r) => SpecExpr::Unary(op@, Box::new(expr_view(&**r))),
    }
}

impl View for Expr {
    type V = SpecExpr;

    open spec fn view(&self) -> SpecExpr {
        expr_view(self)
    }
}

} // verus!
