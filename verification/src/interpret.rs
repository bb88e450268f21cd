//! The evaluator: a tree walk computing the runtime value of a node
//! under the language's dynamic-typing rules.
//!
//! Number arithmetic is exact decimal arithmetic; `+` also concatenates
//! two strings; comparisons need numbers; equality is defined across
//! all value kinds.  Variable reference, assignment, declarations and
//! blocks need the host's binding environment, which stands outside
//! this core, so they stop with an environment-required failure.
use crate::expr::Expr;
use crate::stmt::Stmt;
use crate::token_type::{Literal, LiteralV, Token, TokenType};
use vstd::prelude::*;

verus! {

/// The kind of a runtime value, for failure reports.
#[derive(Debug, PartialEq, Eq, Clone, Copy, Structural)]
pub enum ValueKind {
    Text,
    Number,
    Boolean,
    Nil,
}

/// An evaluation failure: the rule broken and the source line.
#[derive(Debug, PartialEq, Eq, Clone, Copy, Structural)]
pub struct RuntimeError {
    pub kind: RuntimeErrorKind,
    pub line: i32,
}

#[derive(Debug, PartialEq, Eq, Clone, Copy, Structural)]
pub enum RuntimeErrorKind {
    /// Unary minus on a value that is not a number.
    CannotNegate(ValueKind),
    /// A binary operator applied to value kinds it does not accept.
    InvalidOperands(TokenType, ValueKind, ValueKind),
    /// Division by zero.
    DivisionByZero,
    /// An exact result outside the representable decimal range.
    NotRepresentable,
    /// An operator kind no evaluation rule covers.
    UnsupportedOperator(TokenType),
    /// The node needs the host's binding environment.
    EnvironmentRequired,
}

pub open spec fn kind_of(v: LiteralV) -> ValueKind {
    match v {
        LiteralV::Str(_) => ValueKind::Text,
        LiteralV::Num(_) => ValueKind::Number,
        LiteralV::Bool(_) => ValueKind::Boolean,
        LiteralV::Nil => ValueKind::Nil,
    }
}

/// Language-level truthiness: nil and false are falsy, all else truthy.
pub open spec fn truthy(v: LiteralV) -> bool {
    match v {
        LiteralV::Nil => false,
        LiteralV::Bool(b) => b,
        _ => true,
    }
}

/// Language-level equality: equal kinds and equal content.
pub open spec fn lit_eq(a: LiteralV, b: LiteralV) -> bool {
    match (a, b) {
        (LiteralV::Str(x), LiteralV::Str(y)) => x == y,
        (LiteralV::Num(x), LiteralV::Num(y)) => x == y,
        (LiteralV::Bool(x), LiteralV::Bool(y)) => x == y,
        (LiteralV::Nil, LiteralV::Nil) => true,
        _ => false,
    }
}

/// A runtime value with a canonical number payload.
pub open spec fn val_inv(v: LiteralV) -> bool {
    match v {
        LiteralV::Num(n) => n.inv(),
        _ => true,
    }
}

/// The unary rules: `-` negates a number, `!` complements truthiness.
pub open spec fn apply_unary(op: Token, v: LiteralV) -> Result<LiteralV, RuntimeError> {
    if op.token_type == TokenType::MINUS {
        match v {
            LiteralV::Num(n) => Ok(LiteralV::Num(n.spec_neg())),
            _ => Err(
                RuntimeError { kind: RuntimeErrorKind::CannotNegate(kind_of(v)), line: op.line },
            ),
        }
    } else if op.token_type == TokenType::BANG {
        Ok(LiteralV::Bool(!truthy(v)))
    } else {
        Err(
            RuntimeError {
                kind: RuntimeErrorKind::UnsupportedOperator(op.token_type),
                line: op.line,
            },
        )
    }
}

/// The result of an exact numeric operation, or the failure when the
/// exact result is not representable.
pub open spec fn num_result(r: Option<crate::number::Number>, line: i32) -> Result<
    LiteralV,
    RuntimeError,
> {
    match r {
        Some(n) => Ok(LiteralV::Num(n)),
        None => Err(RuntimeError { kind: RuntimeErrorKind::NotRepresentable, line }),
    }
}

/// The binary rules.
pub open spec fn apply_binary(op: Token, a: LiteralV, b: LiteralV) -> Result<
    LiteralV,
    RuntimeError,
> {
    let mismatch = Err(
        RuntimeError {
            kind: RuntimeErrorKind::InvalidOperands(op.token_type, kind_of(a), kind_of(b)),
            line: op.line,
        },
    );
    match op.token_type {
        TokenType::PLUS => match (a, b) {
            (LiteralV::Num(x), LiteralV::Num(y)) => num_result(x.spec_add(y), op.line),
            (LiteralV::Str(x), LiteralV::Str(y)) => Ok(LiteralV::Str(x + y)),
            _ => mismatch,
        },
        TokenType::MINUS => match (a, b) {
            (LiteralV::Num(x), LiteralV::Num(y)) => num_result(x.spec_sub(y), op.line),
            _ => mismatch,
        },
        TokenType::STAR => match (a, b) {
            (LiteralV::Num(x), LiteralV::Num(y)) => num_result(x.spec_mul(y), op.line),
            _ => mismatch,
        },
        TokenType::SLASH => match (a, b) {
            (LiteralV::Num(x), LiteralV::Num(y)) => if y.is_zero() {
                Err(RuntimeError { kind: RuntimeErrorKind::DivisionByZero, line: op.line })
            } else {
                num_result(x.spec_div(y), op.line)
            },
            _ => mismatch,
        },
        TokenType::GREATER => match (a, b) {
            (LiteralV::Num(x), LiteralV::Num(y)) => Ok(LiteralV::Bool(y.spec_lt(x))),
            _ => mismatch,
        },
        TokenType::GREATER_EQUAL => match (a, b) {
            (LiteralV::Num(x), LiteralV::Num(y)) => Ok(LiteralV::Bool(y.spec_le(x))),
            _ => mismatch,
        },
        TokenType::LESS => match (a, b) {
            (LiteralV::Num(x), LiteralV::Num(y)) => Ok(LiteralV::Bool(x.spec_lt(y))),
            _ => mismatch,
        },
        TokenType::LESS_EQUAL => match (a, b) {
            (LiteralV::Num(x), LiteralV::Num(y)) => Ok(LiteralV::Bool(x.spec_le(y))),
            _ => mismatch,
        },
        TokenType::EQUAL_EQUAL => Ok(LiteralV::Bool(lit_eq(a, b))),
        TokenType::BANG_EQUAL => Ok(LiteralV::Bool(!lit_eq(a, b))),
        _ => Err(
            RuntimeError {
                kind: RuntimeErrorKind::UnsupportedOperator(op.token_type),
                line: op.line,
            },
        ),
    }
}

/// The value of an expression, left subtrees evaluated first.
pub open spec fn eval_expr(e: Expr) -> Result<LiteralV, RuntimeError>
    decreases e,
{
    match e {
        Expr::Literal { value } => Ok(value@),
        Expr::Grouping { expression } => eval_expr(*expression),
        Expr::Unary { operator, right } => match eval_expr(*right) {
            Ok(v) => apply_unary(operator, v),
            Err(err) => Err(err),
        },
        Expr::Binary { left, operator, right } => match eval_expr(*left) {
            Ok(a) => match eval_expr(*right) {
                Ok(b) => apply_binary(operator, a, b),
                Err(err) => Err(err),
            },
            Err(err) => Err(err),
        },
        Expr::Variable { name } => Err(
            RuntimeError { kind: RuntimeErrorKind::EnvironmentRequired, line: name.line },
        ),
        Expr::Assign { name, value } => Err(
            RuntimeError { kind: RuntimeErrorKind::EnvironmentRequired, line: name.line },
        ),
    }
}

/// The value of a statement: the value of its expression; declarations
/// and blocks need the host environment.
pub open spec fn eval_stmt(s: Stmt) -> Result<LiteralV, RuntimeError> {
    match s {
        Stmt::Expression { expression } => eval_expr(*expression),
        Stmt::Print { expression } => eval_expr(*expression),
        Stmt::Var { name, initializer } => Err(
            RuntimeError { kind: RuntimeErrorKind::EnvironmentRequired, line: name.line },
        ),
        Stmt::Block { statements } => Err(
            RuntimeError { kind: RuntimeErrorKind::EnvironmentRequired, line: 0 },
        ),
    }
}

/// Evaluation preserves canonical numbers: every value coming out of a
/// well-formed tree carries a canonical number payload.
pub proof fn lemma_eval_inv(e: Expr)
    requires
        e.wf(),
    ensures
        eval_expr(e) matches Ok(v) ==> val_inv(v),
    decreases e,
{
    match e {
        Expr::Literal { value } => {
        },
        Expr::Grouping { expression } => {
            lemma_eval_inv(*expression);
        },
        Expr::Unary { operator, right } => {
            lemma_eval_inv(*right);
            match eval_expr(*right) {
                Ok(v) => match v {
                    LiteralV::Num(n) => {
                        crate::number::lemma_neg_inv(n);
                    },
                    _ => {
                    },
                },
                _ => {
                },
            }
        },
        Expr::Binary { left, operator, right } => {
            lemma_eval_inv(*left);
            lemma_eval_inv(*right);
            match (eval_expr(*left), eval_expr(*right)) {
                (Ok(a), Ok(b)) => {
                    lemma_apply_binary_inv(operator, a, b);
                },
                _ => {
                },
            }
        },
        _ => {
        },
    }
}

proof fn lemma_apply_binary_inv(op: Token, a: LiteralV, b: LiteralV)
    ensures
        apply_binary(op, a, b) matches Ok(v) ==> val_inv(v),
{
    if a is Num && b is Num {
        let x = a->Num_0;
        let y = b->Num_0;
        crate::number::lemma_make_inv(
            x.mantissa * crate::chars::pow10(y.scale as nat) + y.mantissa * crate::chars::pow10(
                x.scale as nat,
            ),
            x.scale as nat + y.scale as nat,
        );
        crate::number::lemma_make_inv(
            x.mantissa * crate::chars::pow10(y.scale as nat) - y.mantissa * crate::chars::pow10(
                x.scale as nat,
            ),
            x.scale as nat + y.scale as nat,
        );
        crate::number::lemma_make_inv(
            x.mantissa * y.mantissa,
            x.scale as nat + y.scale as nat,
        );
    }
}

/// Language equality on runtime values.
fn lit_eq_exec(a: &Literal, b: &Literal) -> (r: bool)
    ensures
        r == lit_eq(a@, b@),
{
    match (a, b) {
        (Literal::Str(x), Literal::Str(y)) => x.eq(y),
        (Literal::Num(x), Literal::Num(y)) => x.mantissa == y.mantissa && x.scale == y.scale,
        (Literal::Bool(x), Literal::Bool(y)) => x == y,
        (Literal::Nil, Literal::Nil) => true,
        _ => false,
    }
}

/// The evaluator for expressions.
pub fn eval_expr_exec(e: &Expr) -> (r: Result<Literal, RuntimeError>)
    requires
        e.wf(),
    ensures
        match r {
            Ok(v) => eval_expr(*e) == Ok::<LiteralV, RuntimeError>(v@) && val_inv(v@),
            Err(err) => eval_expr(*e) == Err::<LiteralV, RuntimeError>(err),
        },
    decreases *e,
{
    match e {
        Expr::Literal { value } => Ok(value.clone()),
        Expr::Grouping { expression } => eval_expr_exec(expression),
        Expr::Unary { operator, right } => {
            let v = match eval_expr_exec(right) {
                Ok(v) => v,
                Err(err) => {
                    return Err(err);
                },
            };
            apply_unary_exec(operator, v)
        },
        Expr::Binary { left, operator, right } => {
            let a = match eval_expr_exec(left) {
                Ok(v) => v,
                Err(err) => {
                    return Err(err);
                },
            };
            let b = match eval_expr_exec(right) {
                Ok(v) => v,
                Err(err) => {
                    return Err(err);
                },
            };
            binary_values(operator, a, b)
        },
        Expr::Variable { name } => Err(
            RuntimeError { kind: RuntimeErrorKind::EnvironmentRequired, line: name.line },
        ),
        Expr::Assign { name, value } => Err(
            RuntimeError { kind: RuntimeErrorKind::EnvironmentRequired, line: name.line },
        ),
    }
}

/// Apply a unary operator to an evaluated operand.
fn apply_unary_exec(operator: &Token, v: Literal) -> (r: Result<Literal, RuntimeError>)
    requires
        val_inv(v@),
    ensures
        match r {
            Ok(w) => apply_unary(*operator, v@) == Ok::<LiteralV, RuntimeError>(w@) && val_inv(
                w@,
            ),
            Err(err) => apply_unary(*operator, v@) == Err::<LiteralV, RuntimeError>(err),
        },
{
    match operator.token_type {
        TokenType::MINUS => match v {
            Literal::Num(n) => Ok(Literal::Num(n.negated())),
            _ => Err(
                RuntimeError {
                    kind: RuntimeErrorKind::CannotNegate(kind_exec(&v)),
                    line: operator.line,
                },
            ),
        },
        TokenType::BANG => Ok(Literal::Bool(!truthy_exec(&v))),
        _ => Err(
            RuntimeError {
                kind: RuntimeErrorKind::UnsupportedOperator(operator.token_type),
                line: operator.line,
            },
        ),
    }
}

fn kind_exec(v: &Literal) -> (k: ValueKind)
    ensures
        k == kind_of(v@),
{
    match v {
        Literal::Str(_) => ValueKind::Text,
        Literal::Num(_) => ValueKind::Number,
        Literal::Bool(_) => ValueKind::Boolean,
        Literal::Nil => ValueKind::Nil,
    }
}

fn truthy_exec(v: &Literal) -> (b: bool)
    ensures
        b == truthy(v@),
{
    match v {
        Literal::Nil => false,
        Literal::Bool(b) => *b,
        _ => true,
    }
}

/// Apply a binary operator to evaluated operands.
fn binary_values(operator: &Token, a: Literal, b: Literal) -> (r: Result<Literal, RuntimeError>)
    requires
        val_inv(a@),
        val_inv(b@),
    ensures
        match r {
            Ok(w) => apply_binary(*operator, a@, b@) == Ok::<LiteralV, RuntimeError>(w@)
                && val_inv(w@),
            Err(err) => apply_binary(*operator, a@, b@) == Err::<LiteralV, RuntimeError>(err),
        },
{
    let mismatch = RuntimeError {
        kind: RuntimeErrorKind::InvalidOperands(operator.token_type, kind_exec(&a), kind_exec(&b)),
        line: operator.line,
    };
    match operator.token_type {
        TokenType::PLUS => match (&a, &b) {
            (Literal::Num(x), Literal::Num(y)) => num_result_exec(x.plus(y), operator.line),
            (Literal::Str(x), Literal::Str(y)) => {
                let mut s = x.clone();
                s.append(y.as_str());
                Ok(Literal::Str(s))
            },
            _ => Err(mismatch),
        },
        TokenType::MINUS => match (&a, &b) {
            (Literal::Num(x), Literal::Num(y)) => num_result_exec(x.minus(y), operator.line),
            _ => Err(mismatch),
        },
        TokenType::STAR => match (&a, &b) {
            (Literal::Num(x), Literal::Num(y)) => num_result_exec(x.times(y), operator.line),
            _ => Err(mismatch),
        },
        TokenType::SLASH => match (&a, &b) {
            (Literal::Num(x), Literal::Num(y)) => {
                if y.mantissa == 0 {
                    Err(
                        RuntimeError {
                            kind: RuntimeErrorKind::DivisionByZero,
                            line: operator.line,
                        },
                    )
                } else {
                    num_result_exec(x.divided_by(y), operator.line)
                }
            },
            _ => Err(mismatch),
        },
        TokenType::GREATER => match (&a, &b) {
            (Literal::Num(x), Literal::Num(y)) => Ok(Literal::Bool(y.less_than(x))),
            _ => Err(mismatch),
        },
        TokenType::GREATER_EQUAL => match (&a, &b) {
            (Literal::Num(x), Literal::Num(y)) => Ok(Literal::Bool(y.at_most(x))),
            _ => Err(mismatch),
        },
        TokenType::LESS => match (&a, &b) {
            (Literal::Num(x), Literal::Num(y)) => Ok(Literal::Bool(x.less_than(y))),
            _ => Err(mismatch),
        },
        TokenType::LESS_EQUAL => match (&a, &b) {
            (Literal::Num(x), Literal::Num(y)) => Ok(Literal::Bool(x.at_most(y))),
            _ => Err(mismatch),
        },
        TokenType::EQUAL_EQUAL => Ok(Literal::Bool(lit_eq_exec(&a, &b))),
        TokenType::BANG_EQUAL => Ok(Literal::Bool(!lit_eq_exec(&a, &b))),
        _ => Err(
            RuntimeError {
                kind: RuntimeErrorKind::UnsupportedOperator(operator.token_type),
                line: operator.line,
            },
        ),
    }
}

fn num_result_exec(r: Option<crate::number::Number>, line: i32) -> (out: Result<
    Literal,
    RuntimeError,
>)
    requires
        r matches Some(n) ==> n.inv(),
    ensures
        match out {
            Ok(w) => num_result(r, line) == Ok::<LiteralV, RuntimeError>(w@) && val_inv(w@),
            Err(err) => num_result(r, line) == Err::<LiteralV, RuntimeError>(err),
        },
{
    match r {
        Some(n) => Ok(Literal::Num(n)),
        None => Err(RuntimeError { kind: RuntimeErrorKind::NotRepresentable, line }),
    }
}

/// Evaluate an assignment: the environment belongs to the host.
pub fn assign(name: &Token, value: &Expr) -> (r: Result<Literal, RuntimeError>)
    ensures
        r == Err::<Literal, RuntimeError>(
            RuntimeError { kind: RuntimeErrorKind::EnvironmentRequired, line: name.line },
        ),
        eval_expr(Expr::Assign { name: *name, value: Box::new(*value) }) == Err::<
            LiteralV,
            RuntimeError,
        >(RuntimeError { kind: RuntimeErrorKind::EnvironmentRequired, line: name.line }),
{
    Err(RuntimeError { kind: RuntimeErrorKind::EnvironmentRequired, line: name.line })
}

/// Evaluate a binary node.
pub fn binary(left: &Expr, operator: &Token, right: &Expr) -> (r: Result<Literal, RuntimeError>)
    requires
        left.wf(),
        right.wf(),
    ensures
        ({
            let spec_r = eval_expr(
                Expr::Binary {
                    left: Box::new(*left),
                    operator: *operator,
                    right: Box::new(*right),
                },
            );
            match r {
                Ok(v) => spec_r == Ok::<LiteralV, RuntimeError>(v@),
                Err(err) => spec_r == Err::<LiteralV, RuntimeError>(err),
            }
        }),
{
    let a = match eval_expr_exec(left) {
        Ok(v) => v,
        Err(err) => {
            return Err(err);
        },
    };
    let b = match eval_expr_exec(right) {
        Ok(v) => v,
        Err(err) => {
            return Err(err);
        },
    };
    binary_values(operator, a, b)
}

/// Evaluate a grouping: transparent.
pub fn grouping(inner: &Expr) -> (r: Result<Literal, RuntimeError>)
    requires
        inner.wf(),
    ensures
        ({
            let spec_r = eval_expr(Expr::Grouping { expression: Box::new(*inner) });
            match r {
                Ok(v) => spec_r == Ok::<LiteralV, RuntimeError>(v@),
                Err(err) => spec_r == Err::<LiteralV, RuntimeError>(err),
            }
        }),
{
    eval_expr_exec(inner)
}

/// Evaluate a literal: its own value.
pub fn literal(value: &Literal) -> (r: Result<Literal, RuntimeError>)
    ensures
        r matches Ok(v) && v@ == value@,
{
    Ok(value.clone())
}

/// Evaluate a unary node.
pub fn unary(operator: &Token, right: &Expr) -> (r: Result<Literal, RuntimeError>)
    requires
        right.wf(),
    ensures
        ({
            let spec_r = eval_expr(
                Expr::Unary { operator: *operator, right: Box::new(*right) },
            );
            match r {
                Ok(v) => spec_r == Ok::<LiteralV, RuntimeError>(v@),
                Err(err) => spec_r == Err::<LiteralV, RuntimeError>(err),
            }
        }),
{
    let v = match eval_expr_exec(right) {
        Ok(v) => v,
        Err(err) => {
            return Err(err);
        },
    };
    apply_unary_exec(operator, v)
}

/// Evaluate a variable reference: the environment belongs to the host.
pub fn variable(name: &Token) -> (r: Result<Literal, RuntimeError>)
    ensures
        r == Err::<Literal, RuntimeError>(
            RuntimeError { kind: RuntimeErrorKind::EnvironmentRequired, line: name.line },
        ),
{
    Err(RuntimeError { kind: RuntimeErrorKind::EnvironmentRequired, line: name.line })
}

/// Evaluate a block: scopes belong to the host.
pub fn block(statements: &Vec<Stmt>) -> (r: Result<Literal, RuntimeError>)
    ensures
        r == Err::<Literal, RuntimeError>(
            RuntimeError { kind: RuntimeErrorKind::EnvironmentRequired, line: 0 },
        ),
{
    Err(RuntimeError { kind: RuntimeErrorKind::EnvironmentRequired, line: 0 })
}

/// Evaluate an expression statement.
pub fn expression(inner: &Expr) -> (r: Result<Literal, RuntimeError>)
    requires
        inner.wf(),
    ensures
        ({
            let spec_r = eval_stmt(Stmt::Expression { expression: Box::new(*inner) });
            match r {
                Ok(v) => spec_r == Ok::<LiteralV, RuntimeError>(v@),
                Err(err) => spec_r == Err::<LiteralV, RuntimeError>(err),
            }
        }),
{
    eval_expr_exec(inner)
}

/// Evaluate a print statement's expression; the host prints the value.
pub fn print(inner: &Expr) -> (r: Result<Literal, RuntimeError>)
    requires
        inner.wf(),
    ensures
        ({
            let spec_r = eval_stmt(Stmt::Print { expression: Box::new(*inner) });
            match r {
                Ok(v) => spec_r == Ok::<LiteralV, RuntimeError>(v@),
                Err(err) => spec_r == Err::<LiteralV, RuntimeError>(err),
            }
        }),
{
    eval_expr_exec(inner)
}

/// Evaluate a declaration: the environment belongs to the host.
pub fn var(name: &Token, initializer: &Expr) -> (r: Result<Literal, RuntimeError>)
    ensures
        r == Err::<Literal, RuntimeError>(
            RuntimeError { kind: RuntimeErrorKind::EnvironmentRequired, line: name.line },
        ),
{
    Err(RuntimeError { kind: RuntimeErrorKind::EnvironmentRequired, line: name.line })
}

} // verus!
