//! Statements: the second node family of the data model.  The core
//! evaluates only their expressions; variable bindings and block scopes
//! belong to the host's environment.
use crate::expr::Expr;
use crate::token_type::Token;
use vstd::prelude::*;

verus! {

#[derive(Debug, PartialEq)]
pub enum Stmt {
    Block { statements: Vec<Stmt> },
    Expression { expression: Box<Expr> },
    Print { expression: Box<Expr> },
    Var { name: Token, initializer: Box<Expr> },
}

} // verus!
