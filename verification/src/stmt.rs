//! Statement nodes of the AST. A program is an ordered sequence of
//! statements.
use crate::expr::{expr_view, wf_expr, Expr, ExprView};
use crate::token::{Token, TokenView};
use vstd::prelude::*;

verus! {

/// A statement node.
#[derive(Debug)]
pub enum Stmt {
    Block { statements: Vec<Stmt> },
    Expression { expression: Expr },
    If { condition: Expr, then_branch: Box<Stmt>, else_branch: Option<Box<Stmt>> },
    Print { expression: Expr },
    VarDecl { name: Token, initializer: Option<Expr> },
    While { condition: Expr, body: Box<Stmt> },
}

/// The mathematical model of a [`Stmt`].
pub enum StmtView {
    Block { statements: Seq<StmtView> },
    Expression { expression: ExprView },
    If { condition: ExprView, then_branch: Box<StmtView>, else_branch: Option<Box<StmtView>> },
    Print { expression: ExprView },
    VarDecl { name: TokenView, initializer: Option<ExprView> },
    While { condition: ExprView, body: Box<StmtView> },
}

/// The model of a statement node.
pub open spec fn stmt_view(s: Stmt) -> StmtView
    decreases s,
{
    match s {
        Stmt::Block { statements } => StmtView::Block { statements: stmts_view(statements@) },
        Stmt::Expression { expression } => StmtView::Expression {
            expression: expr_view(expression),
        },
        Stmt::If { condition, then_branch, else_branch } => StmtView::If {
            condition: expr_view(condition),
            then_branch: Box::new(stmt_view(*then_branch)),
            else_branch: match else_branch {
                Some(e) => Some(Box::new(stmt_view(*e))),
                None => None,
            },
        },
        Stmt::Print { expression } => StmtView::Print { expression: expr_view(expression) },
        Stmt::VarDecl { name, initializer } => StmtView::VarDecl {
            name: name@,
            initializer: match initializer {
                Some(e) => Some(expr_view(e)),
                None => None,
            },
        },
        Stmt::While { condition, body } => StmtView::While {
            condition: expr_view(condition),
            body: Box::new(stmt_view(*body)),
        },
    }
}

/// The models of a sequence of statements.
pub open spec fn stmts_view(ss: Seq<Stmt>) -> Seq<StmtView>
    decreases ss,
{
    if ss.len() == 0 {
        Seq::empty()
    } else {
        stmts_view(ss.drop_last()).push(stmt_view(ss.last()))
    }
}

/// Appending a statement appends its model.
pub broadcast proof fn lemma_stmts_view_push(ss: Seq<Stmt>, s: Stmt)
    ensures
        #[trigger] stmts_view(ss.push(s)) == stmts_view(ss).push(stmt_view(s)),
{
    assert(ss.push(s).drop_last() =~= ss);
}

/// Well-formedness of a statement: every expression in it is well-formed.
pub open spec fn wf_stmt(s: Stmt) -> bool
    decreases s,
{
    match s {
        Stmt::Block { statements } => forall|i: int|
            0 <= i < statements@.len() ==> wf_stmt(#[trigger] statements@[i]),
        Stmt::Expression { expression } => wf_expr(expression),
        Stmt::If { condition, then_branch, else_branch } => wf_expr(condition) && wf_stmt(
            *then_branch,
        ) && match else_branch {
            Some(e) => wf_stmt(*e),
            None => true,
        },
        Stmt::Print { expression } => wf_expr(expression),
        Stmt::VarDecl { name: _, initializer } => match initializer {
            Some(e) => wf_expr(e),
            None => true,
        },
        Stmt::While { condition, body } => wf_expr(condition) && wf_stmt(*body),
    }
}

} // verus!
