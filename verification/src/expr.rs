//! Expressions: the recursive tree the parser builds and the tree walks
//! consume.  Nodes own their children; a tree is never mutated after it
//! is built.
use crate::token_type::{Literal, Token};
use vstd::prelude::*;

verus! {

#[derive(Debug, PartialEq)]
pub enum Expr {
    Assign { name: Token, value: Box<Expr> },
    Binary { left: Box<Expr>, operator: Token, right: Box<Expr> },
    Grouping { expression: Box<Expr> },
    Literal { value: Literal },
    Unary { operator: Token, right: Box<Expr> },
    Variable { name: Token },
}

impl Expr {
    /// Every number literal in the tree is canonical.
    pub open spec fn wf(self) -> bool
        decreases self,
    {
        match self {
            Expr::Assign { name, value } => value.wf(),
            Expr::Binary { left, operator, right } => left.wf() && right.wf(),
            Expr::Grouping { expression } => expression.wf(),
            Expr::Literal { value } => match value {
                Literal::Num(n) => n.inv(),
                _ => true,
            },
            Expr::Unary { operator, right } => right.wf(),
            Expr::Variable { name } => true,
        }
    }
}

} // verus!
