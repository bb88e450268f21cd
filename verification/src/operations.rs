//! The two tree walks as capability traits over the closed node
//! families: rendering and evaluation, each dispatched by node kind.
use crate::expr::Expr;
use crate::interpret;
use crate::interpret::{eval_expr, eval_stmt, val_inv, RuntimeError};
use crate::print;
use crate::print::{render_expr, render_stmt, wf_stmt, wf_stmts};
use crate::stmt::Stmt;
use crate::token_type::{Literal, LiteralV};
use vstd::prelude::*;

verus! {

/// Rendering to the canonical parenthesized-prefix text.
pub trait Print {
    /// The text this node renders to.
    spec fn rendered(&self) -> Seq<char>;

    /// Number payloads must be canonical for rendering.
    spec fn render_ok(&self) -> bool;

    fn print(&self) -> (s: String)
        requires
            self.render_ok(),
        ensures
            s@ == self.rendered(),
    ;
}

/// Evaluation to a runtime value.
pub trait Interpret {
    /// The value or failure this node evaluates to.
    spec fn evaluated(&self) -> Result<LiteralV, RuntimeError>;

    /// Number payloads must be canonical for evaluation.
    spec fn eval_ok(&self) -> bool;

    fn interpret(&self) -> (r: Result<Literal, RuntimeError>)
        requires
            self.eval_ok(),
        ensures
            match r {
                Ok(v) => self.evaluated() == Ok::<LiteralV, RuntimeError>(v@) && val_inv(v@),
                Err(err) => self.evaluated() == Err::<LiteralV, RuntimeError>(err),
            },
    ;
}

impl Print for Expr {
    open spec fn rendered(&self) -> Seq<char> {
        render_expr(*self)
    }

    open spec fn render_ok(&self) -> bool {
        self.wf()
    }

    fn print(&self) -> (s: String) {
        match self {
            Expr::Assign { name, value } => print::assign(name, value),
            Expr::Binary { left, operator, right } => print::binary(left, operator, right),
            Expr::Grouping { expression } => print::grouping(expression),
            Expr::Literal { value } => print::literal(value),
            Expr::Unary { operator, right } => print::unary(operator, right),
            Expr::Variable { name } => print::variable(name),
        }
    }
}

impl Print for Stmt {
    open spec fn rendered(&self) -> Seq<char> {
        render_stmt(*self)
    }

    open spec fn render_ok(&self) -> bool {
        wf_stmt(*self)
    }

    fn print(&self) -> (s: String) {
        match self {
            Stmt::Block { statements } => print::block(statements),
            Stmt::Expression { expression } => print::expression(expression),
            Stmt::Print { expression } => print::print(expression),
            Stmt::Var { name, initializer } => print::var(name, initializer),
        }
    }
}

impl Interpret for Expr {
    open spec fn evaluated(&self) -> Result<LiteralV, RuntimeError> {
        eval_expr(*self)
    }

    open spec fn eval_ok(&self) -> bool {
        self.wf()
    }

    fn interpret(&self) -> (r: Result<Literal, RuntimeError>) {
        let r = match self {
            Expr::Assign { name, value } => interpret::assign(name, value),
            Expr::Binary { left, operator, right } => interpret::binary(left, operator, right),
            Expr::Grouping { expression } => interpret::grouping(expression),
            Expr::Literal { value } => interpret::literal(value),
            Expr::Unary { operator, right } => interpret::unary(operator, right),
            Expr::Variable { name } => interpret::variable(name),
        };
        proof {
            crate::interpret::lemma_eval_inv(*self);
        }
        r
    }
}

impl Interpret for Stmt {
    open spec fn evaluated(&self) -> Result<LiteralV, RuntimeError> {
        eval_stmt(*self)
    }

    open spec fn eval_ok(&self) -> bool {
        wf_stmt(*self)
    }

    fn interpret(&self) -> (r: Result<Literal, RuntimeError>) {
        let r = match self {
            Stmt::Block { statements } => interpret::block(statements),
            Stmt::Expression { expression } => interpret::expression(expression),
            Stmt::Print { expression } => interpret::print(expression),
            Stmt::Var { name, initializer } => interpret::var(name, initializer),
        };
        proof {
            match self {
                Stmt::Expression { expression } => {
                    crate::interpret::lemma_eval_inv(**expression);
                },
                Stmt::Print { expression } => {
                    crate::interpret::lemma_eval_inv(**expression);
                },
                _ => {
                },
            }
        }
        r
    }
}

} // verus!
