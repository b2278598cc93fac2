//! Statement nodes: an expression statement, a `print` statement, and a
//! `var` declaration.

use crate::expr::abs_expr;
use crate::expr::Expr;
use crate::expr::ExprRef;
use crate::expr::ExprView;
use crate::token::Token;
use crate::token::TokenView;
use vstd::prelude::*;

verus! {

#[derive(Debug)]
pub struct ExpressionStmt {
    pub expression: ExprRef,
}

#[derive(Debug)]
pub struct PrintStmt {
    pub expression: ExprRef,
}

#[derive(Debug)]
pub struct VarStmt {
    pub name: Token,
    pub initializer: Option<ExprRef>,
}

/// One statement; its expressions are handles into an `ExprPool`.
#[derive(Debug)]
pub enum Stmt {
    Expression(ExpressionStmt),
    Print(PrintStmt),
    Var(VarStmt),
}

/// The abstract syntax of a statement.
pub enum StmtView {
    ExpressionV { expression: ExprView },
    PrintV { expression: ExprView },
    VarV { name: TokenView, initializer: Option<ExprView> },
}

/// Well-formedness of a statement against a pool of `n` nodes.
pub open spec fn stmt_wf(s: Stmt, n: nat) -> bool {
    match s {
        Stmt::Expression(e) => e.expression.idx < n,
        Stmt::Print(p) => p.expression.idx < n,
        Stmt::Var(v) => v.name.wf() && match v.initializer {
            Some(r) => r.idx < n,
            None => true,
        },
    }
}

/// Whether every expression handle of the statement names a node at or
/// past index `n` — freshness of a parse's nodes relative to the pool it
/// began from.
pub open spec fn stmt_refs_ge(s: Stmt, n: nat) -> bool {
    match s {
        Stmt::Expression(e) => e.expression.idx >= n,
        Stmt::Print(p) => p.expression.idx >= n,
        Stmt::Var(v) => match v.initializer {
            Some(r) => r.idx >= n,
            None => true,
        },
    }
}

/// Extending the pool leaves the abstract form of an existing statement
/// as it was.
pub proof fn lemma_abs_stmt_prefix(shorter: Seq<Expr>, longer: Seq<Expr>, s: Stmt)
    requires
        shorter.is_prefix_of(longer),
        stmt_wf(s, shorter.len() as nat),
    ensures
        abs_stmt(longer, s) == abs_stmt(shorter, s),
{
    match s {
        Stmt::Expression(e) => {
            crate::expr::lemma_abs_prefix(shorter, longer, e.expression.idx as int);
        },
        Stmt::Print(p) => {
            crate::expr::lemma_abs_prefix(shorter, longer, p.expression.idx as int);
        },
        Stmt::Var(v) => {
            match v.initializer {
                Some(r) => {
                    crate::expr::lemma_abs_prefix(shorter, longer, r.idx as int);
                },
                None => {},
            }
        },
    }
}

/// The abstract statement a node encodes, over the given pool.
pub open spec fn abs_stmt(nodes: Seq<Expr>, s: Stmt) -> StmtView {
    match s {
        Stmt::Expression(e) => StmtView::ExpressionV {
            expression: abs_expr(nodes, e.expression.idx as int),
        },
        Stmt::Print(p) => StmtView::PrintV { expression: abs_expr(nodes, p.expression.idx as int) },
        Stmt::Var(v) => StmtView::VarV {
            name: v.name@,
            initializer: match v.initializer {
                Some(r) => Some(abs_expr(nodes, r.idx as int)),
                None => None,
            },
        },
    }
}

} // verus!
