//! Expression nodes of the AST, with the well-formedness predicate the
//! parser establishes and the evaluator relies on: operator tokens of
//! `Unary`, `Binary` and `Logical` nodes carry an operator of the right
//! arity, so evaluation never meets an operator it has no rule for.
use crate::token::{Token, TokenType, TokenView, Value, ValueView};
use vstd::prelude::*;

verus! {

/// An expression node; each non-leaf node owns its sub-nodes.
#[derive(Debug)]
pub enum Expr {
    Assign { name: Token, value: Box<Expr> },
    Binary { left: Box<Expr>, operator: Token, right: Box<Expr> },
    Grouping { expression: Box<Expr> },
    Literal { value: Value },
    Logical { left: Box<Expr>, operator: Token, right: Box<Expr> },
    Unary { operator: Token, right: Box<Expr> },
    Variable { token: Token },
    Comma { left: Box<Expr>, right: Box<Expr> },
    Ternary { condition: Box<Expr>, left: Box<Expr>, right: Box<Expr> },
}

/// The mathematical model of an [`Expr`]: the same tree over token and
/// value models.
pub enum ExprView {
    Assign { name: TokenView, value: Box<ExprView> },
    Binary { left: Box<ExprView>, operator: TokenView, right: Box<ExprView> },
    Grouping { expression: Box<ExprView> },
    Literal { value: ValueView },
    Logical { left: Box<ExprView>, operator: TokenView, right: Box<ExprView> },
    Unary { operator: TokenView, right: Box<ExprView> },
    Variable { token: TokenView },
    Comma { left: Box<ExprView>, right: Box<ExprView> },
    Ternary { condition: Box<ExprView>, left: Box<ExprView>, right: Box<ExprView> },
}

/// The model of an expression node.
pub open spec fn expr_view(e: Expr) -> ExprView
    decreases e,
{
    match e {
        Expr::Assign { name, value } => ExprView::Assign {
            name: name@,
            value: Box::new(expr_view(*value)),
        },
        Expr::Binary { left, operator, right } => ExprView::Binary {
            left: Box::new(expr_view(*left)),
            operator: operator@,
            right: Box::new(expr_view(*right)),
        },
        Expr::Grouping { expression } => ExprView::Grouping {
            expression: Box::new(expr_view(*expression)),
        },
        Expr::Literal { value } => ExprView::Literal { value: value@ },
        Expr::Logical { left, operator, right } => ExprView::Logical {
            left: Box::new(expr_view(*left)),
            operator: operator@,
            right: Box::new(expr_view(*right)),
        },
        Expr::Unary { operator, right } => ExprView::Unary {
            operator: operator@,
            right: Box::new(expr_view(*right)),
        },
        Expr::Variable { token } => ExprView::Variable { token: token@ },
        Expr::Comma { left, right } => ExprView::Comma {
            left: Box::new(expr_view(*left)),
            right: Box::new(expr_view(*right)),
        },
        Expr::Ternary { condition, left, right } => ExprView::Ternary {
            condition: Box::new(expr_view(*condition)),
            left: Box::new(expr_view(*left)),
            right: Box::new(expr_view(*right)),
        },
    }
}

/// The operators a `Binary` node may carry.
pub open spec fn is_binary_op(t: TokenType) -> bool {
    ||| t == TokenType::BangEqual
    ||| t == TokenType::EqualEqual
    ||| t == TokenType::Greater
    ||| t == TokenType::GreaterEqual
    ||| t == TokenType::Less
    ||| t == TokenType::LessEqual
    ||| t == TokenType::Minus
    ||| t == TokenType::Plus
    ||| t == TokenType::Slash
    ||| t == TokenType::Star
}

/// Well-formedness of an expression: every operator token carries an
/// operator of its node's arity. The parser only builds such expressions.
pub open spec fn wf_expr(e: Expr) -> bool
    decreases e,
{
    match e {
        Expr::Assign { name: _, value } => wf_expr(*value),
        Expr::Binary { left, operator, right } => is_binary_op(operator.token_type) && wf_expr(
            *left,
        ) && wf_expr(*right),
        Expr::Grouping { expression } => wf_expr(*expression),
        Expr::Literal { value: _ } => true,
        Expr::Logical { left, operator, right } => (operator.token_type == TokenType::And
            || operator.token_type == TokenType::Or) && wf_expr(*left) && wf_expr(*right),
        Expr::Unary { operator, right } => (operator.token_type == TokenType::Bang
            || operator.token_type == TokenType::Minus) && wf_expr(*right),
        Expr::Variable { token: _ } => true,
        Expr::Comma { left, right } => wf_expr(*left) && wf_expr(*right),
        Expr::Ternary { condition, left, right } => wf_expr(*condition) && wf_expr(*left)
            && wf_expr(*right),
    }
}

} // verus!
