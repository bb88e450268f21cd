//! The printer: a pure structural fold rendering a tree in a canonical
//! parenthesized-prefix form, one piece per node kind.
use crate::expr::Expr;
use crate::number::number_text;
use crate::stmt::Stmt;
use crate::token_type::{Literal, Token};
use vstd::prelude::*;

verus! {

/// The text of a literal: `nil`, `true`/`false`, the canonical decimal
/// text of a number, or the raw text of a string.
pub open spec fn render_literal(v: Literal) -> Seq<char> {
    match v {
        Literal::Str(s) => s@,
        Literal::Num(n) => number_text(n),
        Literal::Bool(b) => if b {
            "true"@
        } else {
            "false"@
        },
        Literal::Nil => "nil"@,
    }
}

/// The canonical text of an expression.
pub open spec fn render_expr(e: Expr) -> Seq<char>
    decreases e,
{
    match e {
        Expr::Assign { name, value } => "( = "@ + name.lexeme@ + " "@ + render_expr(*value)
            + " )"@,
        Expr::Binary { left, operator, right } => "( "@ + operator.lexeme@ + " "@ + render_expr(
            *left,
        ) + " "@ + render_expr(*right) + " )"@,
        Expr::Grouping { expression } => "( grouping "@ + render_expr(*expression) + " )"@,
        Expr::Literal { value } => render_literal(value),
        Expr::Unary { operator, right } => "( "@ + operator.lexeme@ + " "@ + render_expr(*right)
            + " )"@,
        Expr::Variable { name } => name.lexeme@,
    }
}

/// The canonical text of a statement.
pub open spec fn render_stmt(s: Stmt) -> Seq<char>
    decreases s, 0int,
{
    match s {
        Stmt::Block { statements } => "( block"@ + render_stmts(statements@, 0) + " )"@,
        Stmt::Expression { expression } => "( ; "@ + render_expr(*expression) + " )"@,
        Stmt::Print { expression } => "( print "@ + render_expr(*expression) + " )"@,
        Stmt::Var { name, initializer } => "( var "@ + name.lexeme@ + " "@ + render_expr(
            *initializer,
        ) + " )"@,
    }
}

/// The texts of the statements of a block from index `i` on, each with
/// a leading space.
pub open spec fn render_stmts(ss: Seq<Stmt>, i: int) -> Seq<char>
    decreases ss, (if i <= ss.len() {
        ss.len() - i
    } else {
        0int
    }),
{
    if 0 <= i < ss.len() {
        seq![' '] + render_stmt(ss[i]) + render_stmts(ss, i + 1)
    } else {
        Seq::<char>::empty()
    }
}

/// Every number literal under the statement is canonical.
pub open spec fn wf_stmt(s: Stmt) -> bool
    decreases s, 0int,
{
    match s {
        Stmt::Block { statements } => wf_stmts(statements@, 0),
        Stmt::Expression { expression } => expression.wf(),
        Stmt::Print { expression } => expression.wf(),
        Stmt::Var { name, initializer } => initializer.wf(),
    }
}

pub open spec fn wf_stmts(ss: Seq<Stmt>, i: int) -> bool
    decreases ss, (if i <= ss.len() {
        ss.len() - i
    } else {
        0int
    }),
{
    if 0 <= i < ss.len() {
        wf_stmt(ss[i]) && wf_stmts(ss, i + 1)
    } else {
        true
    }
}

/// The renderer for expressions.
pub fn render_expr_exec(e: &Expr) -> (s: String)
    requires
        e.wf(),
    ensures
        s@ == render_expr(*e),
    decreases *e,
{
    proof {
        reveal_strlit("( ");
        reveal_strlit("( = ");
        reveal_strlit("( grouping ");
        reveal_strlit(" ");
        reveal_strlit(" )");
    }
    match e {
        Expr::Assign { name, value } => {
            let mut out = String::from_str("( = ");
            out.append(name.lexeme.as_str());
            out.append(" ");
            let v = render_expr_exec(value);
            out.append(v.as_str());
            out.append(" )");
            proof {
                assert(out@ =~= render_expr(*e));
            }
            out
        },
        Expr::Binary { left, operator, right } => {
            let mut out = String::from_str("( ");
            out.append(operator.lexeme.as_str());
            out.append(" ");
            let l = render_expr_exec(left);
            out.append(l.as_str());
            out.append(" ");
            let r = render_expr_exec(right);
            out.append(r.as_str());
            out.append(" )");
            proof {
                assert(out@ =~= render_expr(*e));
            }
            out
        },
        Expr::Grouping { expression } => {
            let mut out = String::from_str("( grouping ");
            let v = render_expr_exec(expression);
            out.append(v.as_str());
            out.append(" )");
            proof {
                assert(out@ =~= render_expr(*e));
            }
            out
        },
        Expr::Literal { value } => literal(value),
        Expr::Unary { operator, right } => {
            let mut out = String::from_str("( ");
            out.append(operator.lexeme.as_str());
            out.append(" ");
            let v = render_expr_exec(right);
            out.append(v.as_str());
            out.append(" )");
            proof {
                assert(out@ =~= render_expr(*e));
            }
            out
        },
        Expr::Variable { name } => name.lexeme.clone(),
    }
}

/// The renderer for statements.
#[verifier::loop_isolation(false)]
pub fn render_stmt_exec(s: &Stmt) -> (out: String)
    requires
        wf_stmt(*s),
    ensures
        out@ == render_stmt(*s),
    decreases *s,
{
    proof {
        reveal_strlit("( block");
        reveal_strlit("( ; ");
        reveal_strlit("( print ");
        reveal_strlit("( var ");
        reveal_strlit(" ");
        reveal_strlit(" )");
    }
    match s {
        Stmt::Block { statements } => {
            let mut out = String::from_str("( block");
            let ghost ss = statements@;
            let mut i: usize = 0;
            while i < statements.len()
                invariant
                    i <= ss.len(),
                    out@ + render_stmts(ss, i as int) == "( block"@ + render_stmts(ss, 0),
                decreases ss.len() - i,
            {
                proof {
                    assert(wf_stmt(ss[i as int])) by {
                        lemma_wf_stmts_index(ss, i as int);
                    }
                }
                out.append(" ");
                let piece = render_stmt_exec(&statements[i]);
                out.append(piece.as_str());
                i = i + 1;
                proof {
                    assert(out@ + render_stmts(ss, i as int) =~= "( block"@ + render_stmts(
                        ss,
                        0,
                    ));
                }
            }
            out.append(" )");
            proof {
                assert(out@ =~= render_stmt(*s));
            }
            out
        },
        Stmt::Expression { expression } => {
            let mut out = String::from_str("( ; ");
            let v = render_expr_exec(expression);
            out.append(v.as_str());
            out.append(" )");
            proof {
                assert(out@ =~= render_stmt(*s));
            }
            out
        },
        Stmt::Print { expression } => {
            let mut out = String::from_str("( print ");
            let v = render_expr_exec(expression);
            out.append(v.as_str());
            out.append(" )");
            proof {
                assert(out@ =~= render_stmt(*s));
            }
            out
        },
        Stmt::Var { name, initializer } => {
            let mut out = String::from_str("( var ");
            out.append(name.lexeme.as_str());
            out.append(" ");
            let v = render_expr_exec(initializer);
            out.append(v.as_str());
            out.append(" )");
            proof {
                assert(out@ =~= render_stmt(*s));
            }
            out
        },
    }
}

/// A well-formed block makes each member well-formed.
proof fn lemma_wf_stmts_index(ss: Seq<Stmt>, k: int)
    requires
        wf_stmts(ss, 0),
        0 <= k < ss.len(),
    ensures
        wf_stmt(ss[k]),
{
    lemma_wf_stmts_step(ss, 0, k);
}

proof fn lemma_wf_stmts_step(ss: Seq<Stmt>, i: int, k: int)
    requires
        wf_stmts(ss, i),
        0 <= i <= k < ss.len(),
    ensures
        wf_stmt(ss[k]),
    decreases ss.len() - i,
{
    if i < k {
        lemma_wf_stmts_step(ss, i + 1, k);
    }
}

/// Render an assignment.
pub fn assign(name: &Token, value: &Expr) -> (s: String)
    requires
        value.wf(),
    ensures
        s@ == render_expr(Expr::Assign { name: *name, value: Box::new(*value) }),
{
    proof {
        reveal_strlit("( = ");
        reveal_strlit(" ");
        reveal_strlit(" )");
    }
    let mut out = String::from_str("( = ");
    out.append(name.lexeme.as_str());
    out.append(" ");
    let v = render_expr_exec(value);
    out.append(v.as_str());
    out.append(" )");
    proof {
        assert(out@ =~= render_expr(Expr::Assign { name: *name, value: Box::new(*value) }));
    }
    out
}

/// Render a binary node as `( <operator> <left> <right> )`.
pub fn binary(left: &Expr, operator: &Token, right: &Expr) -> (s: String)
    requires
        left.wf(),
        right.wf(),
    ensures
        s@ == render_expr(
            Expr::Binary {
                left: Box::new(*left),
                operator: *operator,
                right: Box::new(*right),
            },
        ),
{
    proof {
        reveal_strlit("( ");
        reveal_strlit(" ");
        reveal_strlit(" )");
    }
    let mut out = String::from_str("( ");
    out.append(operator.lexeme.as_str());
    out.append(" ");
    let l = render_expr_exec(left);
    out.append(l.as_str());
    out.append(" ");
    let r = render_expr_exec(right);
    out.append(r.as_str());
    out.append(" )");
    proof {
        assert(out@ =~= render_expr(
            Expr::Binary { left: Box::new(*left), operator: *operator, right: Box::new(*right) },
        ));
    }
    out
}

/// Render a grouping as `( grouping <inner> )`.
pub fn grouping(inner: &Expr) -> (s: String)
    requires
        inner.wf(),
    ensures
        s@ == render_expr(Expr::Grouping { expression: Box::new(*inner) }),
{
    proof {
        reveal_strlit("( grouping ");
        reveal_strlit(" )");
    }
    let mut out = String::from_str("( grouping ");
    let v = render_expr_exec(inner);
    out.append(v.as_str());
    out.append(" )");
    proof {
        assert(out@ =~= render_expr(Expr::Grouping { expression: Box::new(*inner) }));
    }
    out
}

/// Render a literal in its natural text form.
pub fn literal(value: &Literal) -> (s: String)
    requires
        value matches Literal::Num(n) ==> n.inv(),
    ensures
        s@ == render_literal(*value),
{
    match value {
        Literal::Str(s) => s.clone(),
        Literal::Num(n) => n.text(),
        Literal::Bool(b) => {
            if *b {
                let s = String::from_str("true");
                s
            } else {
                let s = String::from_str("false");
                s
            }
        },
        Literal::Nil => String::from_str("nil"),
    }
}

/// Render a unary node as `( <operator> <operand> )`.
pub fn unary(operator: &Token, right: &Expr) -> (s: String)
    requires
        right.wf(),
    ensures
        s@ == render_expr(Expr::Unary { operator: *operator, right: Box::new(*right) }),
{
    proof {
        reveal_strlit("( ");
        reveal_strlit(" ");
        reveal_strlit(" )");
    }
    let mut out = String::from_str("( ");
    out.append(operator.lexeme.as_str());
    out.append(" ");
    let v = render_expr_exec(right);
    out.append(v.as_str());
    out.append(" )");
    proof {
        assert(out@ =~= render_expr(
            Expr::Unary { operator: *operator, right: Box::new(*right) },
        ));
    }
    out
}

/// Render a variable reference as its name.
pub fn variable(name: &Token) -> (s: String)
    ensures
        s@ == render_expr(Expr::Variable { name: *name }),
{
    name.lexeme.clone()
}

/// Render a block statement.
#[verifier::loop_isolation(false)]
pub fn block(statements: &Vec<Stmt>) -> (s: String)
    requires
        wf_stmts(statements@, 0),
    ensures
        s@ == render_stmt(Stmt::Block { statements: *statements }),
{
    proof {
        reveal_strlit("( block");
        reveal_strlit(" ");
        reveal_strlit(" )");
    }
    let mut out = String::from_str("( block");
    let ghost ss = statements@;
    let mut i: usize = 0;
    while i < statements.len()
        invariant
            i <= ss.len(),
            out@ + render_stmts(ss, i as int) == "( block"@ + render_stmts(ss, 0),
        decreases ss.len() - i,
    {
        proof {
            assert(wf_stmt(ss[i as int])) by {
                lemma_wf_stmts_index(ss, i as int);
            }
        }
        out.append(" ");
        let piece = render_stmt_exec(&statements[i]);
        out.append(piece.as_str());
        i = i + 1;
        proof {
            assert(out@ + render_stmts(ss, i as int) =~= "( block"@ + render_stmts(ss, 0));
        }
    }
    out.append(" )");
    proof {
        assert(out@ =~= render_stmt(Stmt::Block { statements: *statements }));
    }
    out
}

/// Render an expression statement.
pub fn expression(inner: &Expr) -> (s: String)
    requires
        inner.wf(),
    ensures
        s@ == render_stmt(Stmt::Expression { expression: Box::new(*inner) }),
{
    proof {
        reveal_strlit("( ; ");
        reveal_strlit(" )");
    }
    let mut out = String::from_str("( ; ");
    let v = render_expr_exec(inner);
    out.append(v.as_str());
    out.append(" )");
    proof {
        assert(out@ =~= render_stmt(Stmt::Expression { expression: Box::new(*inner) }));
    }
    out
}

/// Render a print statement.
pub fn print(inner: &Expr) -> (s: String)
    requires
        inner.wf(),
    ensures
        s@ == render_stmt(Stmt::Print { expression: Box::new(*inner) }),
{
    proof {
        reveal_strlit("( print ");
        reveal_strlit(" )");
    }
    let mut out = String::from_str("( print ");
    let v = render_expr_exec(inner);
    out.append(v.as_str());
    out.append(" )");
    proof {
        assert(out@ =~= render_stmt(Stmt::Print { expression: Box::new(*inner) }));
    }
    out
}

/// Render a variable declaration.
pub fn var(name: &Token, initializer: &Expr) -> (s: String)
    requires
        initializer.wf(),
    ensures
        s@ == render_stmt(
            Stmt::Var { name: *name, initializer: Box::new(*initializer) },
        ),
{
    proof {
        reveal_strlit("( var ");
        reveal_strlit(" ");
        reveal_strlit(" )");
    }
    let mut out = String::from_str("( var ");
    out.append(name.lexeme.as_str());
    out.append(" ");
    let v = render_expr_exec(initializer);
    out.append(v.as_str());
    out.append(" )");
    proof {
        assert(out@ =~= render_stmt(
            Stmt::Var { name: *name, initializer: Box::new(*initializer) },
        ));
    }
    out
}

} // verus!
