//! The evaluator: a tree walk over expressions and statements against the
//! scope chain. Its specification is a total evaluation function for
//! expressions and a fuel-indexed big-step execution function for
//! statements; the executable tree walk returns exactly what those
//! functions prescribe. `print` output and run-time diagnostics accumulate
//! in the interpreter for the caller to display.
use crate::environment::{
    env_assign, env_define, env_find, env_view, lemma_env_assign_len, lemma_env_view_len, EnvView,
    Environment,
};
use crate::error::{RuntimeError, RuntimeErrorView};
use crate::expr::{wf_expr, Expr};
use crate::stmt::{wf_stmt, Stmt};
use crate::text::{append_chars, chars_eq, clone_chars, i64_to_chars};
use crate::token::{display_of, Token, TokenType, Value, ValueView};
use vstd::prelude::*;

verus! {

/// The language's notion of truth: `nil` and `false` are falsy, every other
/// value — zero and the empty string included — is truthy.
pub open spec fn truthy(v: ValueView) -> bool {
    match v {
        ValueView::Null => false,
        ValueView::Boolean(b) => b,
        ValueView::Str(_) => true,
        ValueView::Number(_) => true,
    }
}

/// Whether a value counts as true in a condition.
pub fn is_truthy(literal: Value) -> (r: bool)
    ensures
        r == truthy(literal@),
{
    match literal {
        Value::Null => false,
        Value::Boolean(b) => b,
        Value::Str(_) => true,
        Value::Number(_) => true,
    }
}

/// The language's notion of equality: `nil` equals only `nil`, and values
/// of different kinds are never equal — no coercion.
pub open spec fn value_eq(a: ValueView, b: ValueView) -> bool {
    match (a, b) {
        (ValueView::Null, ValueView::Null) => true,
        (ValueView::Boolean(x), ValueView::Boolean(y)) => x == y,
        (ValueView::Str(x), ValueView::Str(y)) => x == y,
        (ValueView::Number(x), ValueView::Number(y)) => x == y,
        _ => false,
    }
}

/// Whether two values are equal in the language's sense.
pub fn is_equal(a: Value, b: Value) -> (r: bool)
    ensures
        r == value_eq(a@, b@),
{
    match (a, b) {
        (Value::Null, Value::Null) => true,
        (Value::Boolean(x), Value::Boolean(y)) => x == y,
        (Value::Str(x), Value::Str(y)) => chars_eq(&x, &y),
        (Value::Number(x), Value::Number(y)) => x == y,
        _ => false,
    }
}

/// Demands a number from a unary operator's operand.
pub fn check_number_operand(operator: &Token, operand: Value) -> (r: Result<i64, RuntimeError>)
    ensures
        match operand@ {
            ValueView::Number(n) => r matches Ok(m) && m == n,
            _ => r matches Err(e) && e@ == RuntimeErrorView::OperandNotNumber(operator.line),
        },
{
    match operand {
        Value::Number(v) => Ok(v),
        _ => Err(RuntimeError::OperandNotNumber(operator.line)),
    }
}

/// Demands numbers from a binary operator's operands.
pub fn check_number_operands(operator: &Token, left: Value, right: Value) -> (r: Result<
    (i64, i64),
    RuntimeError,
>)
    ensures
        match (left@, right@) {
            (ValueView::Number(x), ValueView::Number(y)) => r matches Ok(p) && p == (x, y),
            _ => r matches Err(e) && e@ == RuntimeErrorView::OperandsNotNumbers(operator.line),
        },
{
    match (left, right) {
        (Value::Number(x), Value::Number(y)) => Ok((x, y)),
        _ => Err(RuntimeError::OperandsNotNumbers(operator.line)),
    }
}

/// Wrapping negation of a 64-bit number.
pub open spec fn num_neg(x: i64) -> i64 {
    (0i64).wrapping_sub(x)
}

/// Truncating 64-bit division; the one overflowing quotient wraps to
/// the smallest value. Meaningful only for a non-zero divisor.
pub open spec fn num_div(x: i64, y: i64) -> i64 {
    match x.checked_div(y) {
        Some(q) => q,
        None => i64::MIN,
    }
}

/// What a binary operator yields on evaluated operands: comparisons and
/// arithmetic demand numbers, `/` additionally a non-zero divisor, and `+`
/// also concatenates strings, stringifying a number paired with a string.
/// Equality accepts any operands. Meaningful only for binary operators.
pub open spec fn eval_binary(op: TokenType, line: i32, l: ValueView, r: ValueView) -> Result<
    ValueView,
    RuntimeErrorView,
> {
    if op == TokenType::Greater {
        match (l, r) {
            (ValueView::Number(x), ValueView::Number(y)) => Ok(ValueView::Boolean(x > y)),
            _ => Err(RuntimeErrorView::OperandsNotNumbers(line)),
        }
    } else if op == TokenType::GreaterEqual {
        match (l, r) {
            (ValueView::Number(x), ValueView::Number(y)) => Ok(ValueView::Boolean(x >= y)),
            _ => Err(RuntimeErrorView::OperandsNotNumbers(line)),
        }
    } else if op == TokenType::Less {
        match (l, r) {
            (ValueView::Number(x), ValueView::Number(y)) => Ok(ValueView::Boolean(x < y)),
            _ => Err(RuntimeErrorView::OperandsNotNumbers(line)),
        }
    } else if op == TokenType::LessEqual {
        match (l, r) {
            (ValueView::Number(x), ValueView::Number(y)) => Ok(ValueView::Boolean(x <= y)),
            _ => Err(RuntimeErrorView::OperandsNotNumbers(line)),
        }
    } else if op == TokenType::Minus {
        match (l, r) {
            (ValueView::Number(x), ValueView::Number(y)) => Ok(ValueView::Number(x.wrapping_sub(y))),
            _ => Err(RuntimeErrorView::OperandsNotNumbers(line)),
        }
    } else if op == TokenType::Star {
        match (l, r) {
            (ValueView::Number(x), ValueView::Number(y)) => Ok(ValueView::Number(x.wrapping_mul(y))),
            _ => Err(RuntimeErrorView::OperandsNotNumbers(line)),
        }
    } else if op == TokenType::Slash {
        match (l, r) {
            (ValueView::Number(x), ValueView::Number(y)) => if y == 0 {
                Err(RuntimeErrorView::DivideByZero(line))
            } else {
                Ok(ValueView::Number(num_div(x, y)))
            },
            _ => Err(RuntimeErrorView::OperandsNotNumbers(line)),
        }
    } else if op == TokenType::Plus {
        match (l, r) {
            (ValueView::Number(x), ValueView::Number(y)) => Ok(ValueView::Number(x.wrapping_add(y))),
            (ValueView::Str(x), ValueView::Str(y)) => Ok(ValueView::Str(x + y)),
            (ValueView::Str(x), ValueView::Number(y)) => Ok(
                ValueView::Str(x + crate::text::dec_int(y as int)),
            ),
            (ValueView::Number(x), ValueView::Str(y)) => Ok(
                ValueView::Str(crate::text::dec_int(x as int) + y),
            ),
            _ => Err(RuntimeErrorView::OperandsNotNumbersOrStrings(line)),
        }
    } else if op == TokenType::BangEqual {
        Ok(ValueView::Boolean(!value_eq(l, r)))
    } else if op == TokenType::EqualEqual {
        Ok(ValueView::Boolean(value_eq(l, r)))
    } else {
        arbitrary()
    }
}

/// What a unary operator yields on its evaluated operand: `-` demands a
/// number, `!` negates truthiness of anything. Meaningful only for unary
/// operators.
pub open spec fn eval_unary(op: TokenType, line: i32, v: ValueView) -> Result<
    ValueView,
    RuntimeErrorView,
> {
    if op == TokenType::Minus {
        match v {
            ValueView::Number(x) => Ok(ValueView::Number(num_neg(x))),
            _ => Err(RuntimeErrorView::OperandNotNumber(line)),
        }
    } else if op == TokenType::Bang {
        Ok(ValueView::Boolean(!truthy(v)))
    } else {
        arbitrary()
    }
}

/// Evaluation of an expression against a scope chain: the chain after
/// evaluation — assignment is an expression and mutates it — and the value
/// or the first run-time error. Logical operators short-circuit, the comma
/// operator discards its left value, the conditional operator evaluates
/// only the taken branch, and an assignment yields the assigned value.
pub open spec fn eval_expr(env: EnvView, e: Expr) -> (EnvView, Result<
    ValueView,
    RuntimeErrorView,
>)
    decreases e,
{
    match e {
        Expr::Literal { value } => (env, Ok(value@)),
        Expr::Grouping { expression } => eval_expr(env, *expression),
        Expr::Unary { operator, right } => {
            let (env1, r) = eval_expr(env, *right);
            match r {
                Ok(v) => (env1, eval_unary(operator.token_type, operator.line, v)),
                Err(e2) => (env1, Err(e2)),
            }
        },
        Expr::Binary { left, operator, right } => {
            let (env1, rl) = eval_expr(env, *left);
            match rl {
                Ok(lv) => {
                    let (env2, rr) = eval_expr(env1, *right);
                    match rr {
                        Ok(rv) => (env2, eval_binary(operator.token_type, operator.line, lv, rv)),
                        Err(e2) => (env2, Err(e2)),
                    }
                },
                Err(e2) => (env1, Err(e2)),
            }
        },
        Expr::Logical { left, operator, right } => {
            let (env1, rl) = eval_expr(env, *left);
            match rl {
                Ok(lv) => if (operator.token_type == TokenType::Or && truthy(lv)) || (
                operator.token_type == TokenType::And && !truthy(lv)) {
                    (env1, Ok(lv))
                } else {
                    eval_expr(env1, *right)
                },
                Err(e2) => (env1, Err(e2)),
            }
        },
        Expr::Comma { left, right } => {
            let (env1, rl) = eval_expr(env, *left);
            match rl {
                Ok(_) => eval_expr(env1, *right),
                Err(e2) => (env1, Err(e2)),
            }
        },
        Expr::Ternary { condition, left, right } => {
            let (env1, rc) = eval_expr(env, *condition);
            match rc {
                Ok(cv) => if truthy(cv) {
                    eval_expr(env1, *left)
                } else {
                    eval_expr(env1, *right)
                },
                Err(e2) => (env1, Err(e2)),
            }
        },
        Expr::Variable { token } => (
            env,
            match env_find(env, token.lexeme@) {
                Some(Some(v)) => Ok(v),
                Some(None) => Err(
                    RuntimeErrorView::UninitializedVariable(token.lexeme@, token.line),
                ),
                None => Err(RuntimeErrorView::UndefinedVariable(token.lexeme@, token.line)),
            },
        ),
        Expr::Assign { name, value } => {
            let (env1, rv) = eval_expr(env, *value);
            match rv {
                Ok(v) => match env_assign(env1, name.lexeme@, Some(v)) {
                    Some(env2) => (env2, Ok(v)),
                    None => (env1, Err(RuntimeErrorView::UndefinedVariable(name.lexeme@, name.line))),
                },
                Err(e2) => (env1, Err(e2)),
            }
        },
    }
}

/// Evaluating an expression never changes how many scopes the chain has.
pub proof fn lemma_eval_expr_env_len(env: EnvView, e: Expr)
    ensures
        eval_expr(env, e).0.len() == env.len(),
    decreases e,
{
    match e {
        Expr::Literal { value } => {},
        Expr::Grouping { expression } => {
            lemma_eval_expr_env_len(env, *expression);
        },
        Expr::Unary { operator, right } => {
            lemma_eval_expr_env_len(env, *right);
        },
        Expr::Binary { left, operator, right } => {
            lemma_eval_expr_env_len(env, *left);
            let (env1, rl) = eval_expr(env, *left);
            lemma_eval_expr_env_len(env1, *right);
        },
        Expr::Logical { left, operator, right } => {
            lemma_eval_expr_env_len(env, *left);
            let (env1, rl) = eval_expr(env, *left);
            lemma_eval_expr_env_len(env1, *right);
        },
        Expr::Comma { left, right } => {
            lemma_eval_expr_env_len(env, *left);
            let (env1, rl) = eval_expr(env, *left);
            lemma_eval_expr_env_len(env1, *right);
        },
        Expr::Ternary { condition, left, right } => {
            lemma_eval_expr_env_len(env, *condition);
            let (env1, rc) = eval_expr(env, *condition);
            lemma_eval_expr_env_len(env1, *left);
            lemma_eval_expr_env_len(env1, *right);
        },
        Expr::Variable { token } => {},
        Expr::Assign { name, value } => {
            lemma_eval_expr_env_len(env, *value);
            let (env1, rv) = eval_expr(env, *value);
            match rv {
                Ok(v) => {
                    lemma_env_assign_len(env1, name.lexeme@, Some(v));
                },
                Err(_) => {},
            }
        },
    }
}

/// What executing statements under a fuel budget came to: completion, a
/// run-time error, or exhaustion of the budget.
pub enum Outcome {
    Done,
    Failed(RuntimeErrorView),
    OutOfFuel,
}

/// The observable state of a run: the scope chain and the lines printed.
#[verifier::ext_equal]
pub struct StateView {
    pub env: EnvView,
    pub output: Seq<Seq<char>>,
}

/// Execution of one statement from a state, with a fuel budget bounding how
/// many times `while` may re-test its condition; every other construct is
/// free. A block runs its statements in a fresh innermost scope that is
/// discarded afterwards — also when an error propagates. `print` appends
/// the value's display form to the output. Declaring a variable without an
/// initializer binds an explicit uninitialized marker.
pub open spec fn exec_stmt(st: StateView, s: Stmt, fuel: nat) -> (StateView, Outcome)
    decreases fuel, s,
{
    match s {
        Stmt::Expression { expression } => {
            let (env1, r) = eval_expr(st.env, expression);
            let st1 = StateView { env: env1, ..st };
            match r {
                Ok(_) => (st1, Outcome::Done),
                Err(e) => (st1, Outcome::Failed(e)),
            }
        },
        Stmt::Print { expression } => {
            let (env1, r) = eval_expr(st.env, expression);
            match r {
                Ok(v) => (
                    StateView { env: env1, output: st.output.push(display_of(v)) },
                    Outcome::Done,
                ),
                Err(e) => (StateView { env: env1, ..st }, Outcome::Failed(e)),
            }
        },
        Stmt::VarDecl { name, initializer } => match initializer {
            Some(e) => {
                let (env1, r) = eval_expr(st.env, e);
                match r {
                    Ok(v) => (
                        StateView { env: env_define(env1, name.lexeme@, Some(v)), ..st },
                        Outcome::Done,
                    ),
                    Err(er) => (StateView { env: env1, ..st }, Outcome::Failed(er)),
                }
            },
            None => (StateView { env: env_define(st.env, name.lexeme@, None), ..st }, Outcome::Done),
        },
        Stmt::Block { statements } => {
            let entered = StateView { env: st.env.push(Seq::empty()), ..st };
            let (st2, o) = exec_stmts(entered, statements@, fuel);
            (StateView { env: st2.env.drop_last(), ..st2 }, o)
        },
        Stmt::If { condition, then_branch, else_branch } => {
            let (env1, r) = eval_expr(st.env, condition);
            let st1 = StateView { env: env1, ..st };
            match r {
                Ok(v) => if truthy(v) {
                    exec_stmt(st1, *then_branch, fuel)
                } else {
                    match else_branch {
                        Some(eb) => exec_stmt(st1, *eb, fuel),
                        None => (st1, Outcome::Done),
                    }
                },
                Err(e) => (st1, Outcome::Failed(e)),
            }
        },
        Stmt::While { condition, body } => {
            if fuel == 0 {
                (st, Outcome::OutOfFuel)
            } else {
                let (env1, r) = eval_expr(st.env, condition);
                let st1 = StateView { env: env1, ..st };
                match r {
                    Ok(v) => if !truthy(v) {
                        (st1, Outcome::Done)
                    } else {
                        let (st2, o) = exec_stmt(st1, *body, fuel);
                        match o {
                            Outcome::Done => exec_stmt(st2, s, (fuel - 1) as nat),
                            _ => (st2, o),
                        }
                    },
                    Err(e) => (st1, Outcome::Failed(e)),
                }
            }
        },
    }
}

/// Execution of a sequence of statements in order, stopping at the first
/// one that does not complete.
pub open spec fn exec_stmts(st: StateView, ss: Seq<Stmt>, fuel: nat) -> (StateView, Outcome)
    decreases fuel, ss,
{
    if ss.len() == 0 {
        (st, Outcome::Done)
    } else {
        let (st1, o) = exec_stmt(st, ss[0], fuel);
        match o {
            Outcome::Done => exec_stmts(st1, ss.drop_first(), fuel),
            _ => (st1, o),
        }
    }
}

/// Executing statements never changes how many scopes the chain has: every
/// scope a block enters is discarded again, however execution ends.
pub proof fn lemma_exec_stmt_env_len(st: StateView, s: Stmt, fuel: nat)
    requires
        st.env.len() >= 1,
    ensures
        exec_stmt(st, s, fuel).0.env.len() == st.env.len(),
    decreases fuel, s,
{
    match s {
        Stmt::Expression { expression } => {
            lemma_eval_expr_env_len(st.env, expression);
        },
        Stmt::Print { expression } => {
            lemma_eval_expr_env_len(st.env, expression);
        },
        Stmt::VarDecl { name, initializer } => {
            match initializer {
                Some(e) => {
                    lemma_eval_expr_env_len(st.env, e);
                },
                None => {},
            }
        },
        Stmt::Block { statements } => {
            let entered = StateView { env: st.env.push(Seq::empty()), ..st };
            lemma_exec_stmts_env_len(entered, statements@, fuel);
        },
        Stmt::If { condition, then_branch, else_branch } => {
            lemma_eval_expr_env_len(st.env, condition);
            let (env1, r) = eval_expr(st.env, condition);
            let st1 = StateView { env: env1, ..st };
            match r {
                Ok(v) => {
                    if truthy(v) {
                        lemma_exec_stmt_env_len(st1, *then_branch, fuel);
                    } else {
                        match else_branch {
                            Some(eb) => {
                                lemma_exec_stmt_env_len(st1, *eb, fuel);
                            },
                            None => {},
                        }
                    }
                },
                Err(_) => {},
            }
        },
        Stmt::While { condition, body } => {
            if fuel > 0 {
                lemma_eval_expr_env_len(st.env, condition);
                let (env1, r) = eval_expr(st.env, condition);
                let st1 = StateView { env: env1, ..st };
                match r {
                    Ok(v) => {
                        if truthy(v) {
                            lemma_exec_stmt_env_len(st1, *body, fuel);
                            let (st2, o) = exec_stmt(st1, *body, fuel);
                            match o {
                                Outcome::Done => {
                                    lemma_exec_stmt_env_len(st2, s, (fuel - 1) as nat);
                                },
                                _ => {},
                            }
                        }
                    },
                    Err(_) => {},
                }
            }
        },
    }
}

/// See [`lemma_exec_stmt_env_len`].
pub proof fn lemma_exec_stmts_env_len(st: StateView, ss: Seq<Stmt>, fuel: nat)
    requires
        st.env.len() >= 1,
    ensures
        exec_stmts(st, ss, fuel).0.env.len() == st.env.len(),
    decreases fuel, ss,
{
    if ss.len() == 0 {
    } else {
        lemma_exec_stmt_env_len(st, ss[0], fuel);
        let (st1, o) = exec_stmt(st, ss[0], fuel);
        match o {
            Outcome::Done => {
                lemma_exec_stmts_env_len(st1, ss.drop_first(), fuel);
            },
            _ => {},
        }
    }
}

/// A top-level run: statements execute in order, each with the full fuel
/// budget; a run-time error is recorded and the run continues with the next
/// statement, while fuel exhaustion stops the run, reported in the final
/// component.
pub open spec fn run_stmts(st: StateView, ss: Seq<Stmt>, fuel: nat) -> (StateView, Seq<
    RuntimeErrorView,
>, bool)
    decreases ss.len(),
{
    if ss.len() == 0 {
        (st, Seq::empty(), true)
    } else {
        let (st1, o) = exec_stmt(st, ss[0], fuel);
        match o {
            Outcome::Done => run_stmts(st1, ss.drop_first(), fuel),
            Outcome::Failed(e) => {
                let (st2, ds, c) = run_stmts(st1, ss.drop_first(), fuel);
                (st2, seq![e] + ds, c)
            },
            Outcome::OutOfFuel => (st1, Seq::empty(), false),
        }
    }
}

/// The models of printed lines.
pub open spec fn line_views(ls: Seq<Vec<char>>) -> Seq<Seq<char>> {
    ls.map_values(|l: Vec<char>| l@)
}

/// The models of recorded run-time errors.
pub open spec fn error_views(es: Seq<RuntimeError>) -> Seq<RuntimeErrorView> {
    es.map_values(|e: RuntimeError| e@)
}

/// An execution halts either on a run-time error of the program or because
/// the caller's fuel budget ran out.
#[derive(Debug)]
pub enum Halt {
    Fault(RuntimeError),
    OutOfFuel,
}

/// The tree-walking interpreter: the current scope chain, the lines that
/// `print` has emitted, and the run-time diagnostics reported at the top
/// level.
pub struct Interpreter {
    pub environment: Environment,
    pub output: Vec<Vec<char>>,
    pub diagnostics: Vec<RuntimeError>,
}

/// The observable state an interpreter is in.
pub open spec fn state_of(i: Interpreter) -> StateView {
    StateView { env: env_view(i.environment), output: line_views(i.output@) }
}

impl Interpreter {
    /// A fresh interpreter holding only the empty global scope.
    pub fn new() -> (r: Interpreter)
        ensures
            env_view(r.environment) == seq![Seq::<(Seq<char>, Option<ValueView>)>::empty()],
            r.output@.len() == 0,
            r.diagnostics@.len() == 0,
    {
        Interpreter {
            environment: Environment::new(None),
            output: Vec::new(),
            diagnostics: Vec::new(),
        }
    }

    /// Evaluates one expression: the scope chain changes exactly as the
    /// evaluation function prescribes, and nothing is printed.
    pub fn evaluate(&mut self, expr: &Expr) -> (r: Result<Value, RuntimeError>)
        requires
            wf_expr(*expr),
        ensures
            ({
                let (env2, res) = eval_expr(env_view(old(self).environment), *expr);
                &&& env_view(final(self).environment) == env2
                &&& final(self).output@ == old(self).output@
                &&& final(self).diagnostics@ == old(self).diagnostics@
                &&& (match r {
                    Ok(v) => res == Ok::<ValueView, RuntimeErrorView>(v@),
                    Err(e) => res == Err::<ValueView, RuntimeErrorView>(e@),
                })
            }),
        decreases *expr, 1int,
    {
        self.visit_expr(expr)
    }

    /// The expression dispatch of the tree walk.
    pub fn visit_expr(&mut self, expr: &Expr) -> (r: Result<Value, RuntimeError>)
        requires
            wf_expr(*expr),
        ensures
            ({
                let (env2, res) = eval_expr(env_view(old(self).environment), *expr);
                &&& env_view(final(self).environment) == env2
                &&& final(self).output@ == old(self).output@
                &&& final(self).diagnostics@ == old(self).diagnostics@
                &&& (match r {
                    Ok(v) => res == Ok::<ValueView, RuntimeErrorView>(v@),
                    Err(e) => res == Err::<ValueView, RuntimeErrorView>(e@),
                })
            }),
        decreases *expr, 0int,
    {
        match expr {
            Expr::Literal { value } => Ok(value.clone()),
            Expr::Grouping { expression } => self.evaluate(expression),
            Expr::Unary { operator, right } => {
                let right_v = self.evaluate(right)?;
                match operator.token_type {
                    TokenType::Minus => match check_number_operand(operator, right_v) {
                        Ok(n) => Ok(Value::Number((0i64).wrapping_sub(n))),
                        Err(e) => Err(e),
                    },
                    TokenType::Bang => Ok(Value::Boolean(!is_truthy(right_v))),
                    _ => unreached(),
                }
            },
            Expr::Binary { left, operator, right } => {
                let left_v = self.evaluate(left)?;
                let right_v = self.evaluate(right)?;
                match operator.token_type {
                    TokenType::Greater => match check_number_operands(operator, left_v, right_v) {
                        Ok(p) => Ok(Value::Boolean(p.0 > p.1)),
                        Err(e) => Err(e),
                    },
                    TokenType::GreaterEqual => match check_number_operands(
                        operator,
                        left_v,
                        right_v,
                    ) {
                        Ok(p) => Ok(Value::Boolean(p.0 >= p.1)),
                        Err(e) => Err(e),
                    },
                    TokenType::Less => match check_number_operands(operator, left_v, right_v) {
                        Ok(p) => Ok(Value::Boolean(p.0 < p.1)),
                        Err(e) => Err(e),
                    },
                    TokenType::LessEqual => match check_number_operands(operator, left_v, right_v) {
                        Ok(p) => Ok(Value::Boolean(p.0 <= p.1)),
                        Err(e) => Err(e),
                    },
                    TokenType::Minus => match check_number_operands(operator, left_v, right_v) {
                        Ok(p) => Ok(Value::Number(p.0.wrapping_sub(p.1))),
                        Err(e) => Err(e),
                    },
                    TokenType::Star => match check_number_operands(operator, left_v, right_v) {
                        Ok(p) => Ok(Value::Number(p.0.wrapping_mul(p.1))),
                        Err(e) => Err(e),
                    },
                    TokenType::Slash => match check_number_operands(operator, left_v, right_v) {
                        Ok(p) => {
                            if p.1 == 0 {
                                Err(RuntimeError::DivideByZero(operator.line))
                            } else {
                                match p.0.checked_div(p.1) {
                                    Some(q) => Ok(Value::Number(q)),
                                    None => Ok(Value::Number(i64::MIN)),
                                }
                            }
                        },
                        Err(e) => Err(e),
                    },
                    TokenType::Plus => match (left_v, right_v) {
                        (Value::Number(x), Value::Number(y)) => Ok(Value::Number(x.wrapping_add(y))),
                        (Value::Str(x), Value::Str(y)) => {
                            let mut s = x;
                            append_chars(&mut s, &y);
                            Ok(Value::Str(s))
                        },
                        (Value::Str(x), Value::Number(y)) => {
                            let mut s = x;
                            let digits = i64_to_chars(y);
                            append_chars(&mut s, &digits);
                            Ok(Value::Str(s))
                        },
                        (Value::Number(x), Value::Str(y)) => {
                            let mut s = i64_to_chars(x);
                            append_chars(&mut s, &y);
                            Ok(Value::Str(s))
                        },
                        _ => Err(RuntimeError::OperandsNotNumbersOrStrings(operator.line)),
                    },
                    TokenType::BangEqual => Ok(Value::Boolean(!is_equal(left_v, right_v))),
                    TokenType::EqualEqual => Ok(Value::Boolean(is_equal(left_v, right_v))),
                    _ => unreached(),
                }
            },
            Expr::Logical { left, operator, right } => {
                let left_v = self.evaluate(left)?;
                match operator.token_type {
                    TokenType::Or => {
                        if is_truthy(left_v.clone()) {
                            return Ok(left_v);
                        }
                        self.evaluate(right)
                    },
                    TokenType::And => {
                        if !is_truthy(left_v.clone()) {
                            return Ok(left_v);
                        }
                        self.evaluate(right)
                    },
                    _ => unreached(),
                }
            },
            Expr::Comma { left, right } => {
                self.evaluate(left)?;
                self.evaluate(right)
            },
            Expr::Ternary { condition, left, right } => {
                let c = self.evaluate(condition)?;
                if is_truthy(c) {
                    self.evaluate(left)
                } else {
                    self.evaluate(right)
                }
            },
            Expr::Variable { token } => self.environment.get(token),
            Expr::Assign { name, value } => {
                let v = self.evaluate(value)?;
                match self.environment.assign(name, Some(v.clone())) {
                    Ok(_) => Ok(v),
                    Err(e) => Err(e),
                }
            },
        }
    }

    /// Enters a fresh innermost scope.
    fn push_scope(&mut self)
        ensures
            env_view(final(self).environment) == env_view(old(self).environment).push(
                Seq::empty(),
            ),
            final(self).output@ == old(self).output@,
            final(self).diagnostics@ == old(self).diagnostics@,
    {
        let mut parent = Environment::new(None);
        core::mem::swap(&mut self.environment, &mut parent);
        self.environment = Environment::new(Some(Box::new(parent)));
    }

    /// Leaves the innermost scope, restoring its enclosing scope.
    fn pop_scope(&mut self)
        requires
            env_view(old(self).environment).len() >= 2,
        ensures
            env_view(final(self).environment) == env_view(old(self).environment).drop_last(),
            final(self).output@ == old(self).output@,
            final(self).diagnostics@ == old(self).diagnostics@,
    {
        let mut inner = Environment::new(None);
        core::mem::swap(&mut self.environment, &mut inner);
        proof {
            lemma_env_view_len(inner);
        }
        match inner.enclosing {
            Some(b) => {
                self.environment = *b;
                proof {
                    assert(env_view(old(self).environment).drop_last() =~= env_view(
                        self.environment,
                    ));
                }
            },
            None => unreached(),
        }
    }

    /// Executes one statement: the observable state changes exactly as the
    /// execution function prescribes for the given fuel budget.
    pub fn execute(&mut self, stmt: &Stmt, fuel: u64) -> (r: Result<(), Halt>)
        requires
            wf_stmt(*stmt),
        ensures
            ({
                let (st2, o) = exec_stmt(state_of(*old(self)), *stmt, fuel as nat);
                &&& state_of(*final(self)) == st2
                &&& final(self).diagnostics@ == old(self).diagnostics@
                &&& (match r {
                    Ok(u) => o == Outcome::Done,
                    Err(Halt::Fault(e)) => o == Outcome::Failed(e@),
                    Err(Halt::OutOfFuel) => o == Outcome::OutOfFuel,
                })
            }),
        decreases fuel, *stmt, 1int,
    {
        self.visit_stmt(stmt, fuel)
    }

    /// The statement dispatch of the tree walk.
    pub fn visit_stmt(&mut self, stmt: &Stmt, fuel: u64) -> (r: Result<(), Halt>)
        requires
            wf_stmt(*stmt),
        ensures
            ({
                let (st2, o) = exec_stmt(state_of(*old(self)), *stmt, fuel as nat);
                &&& state_of(*final(self)) == st2
                &&& final(self).diagnostics@ == old(self).diagnostics@
                &&& (match r {
                    Ok(u) => o == Outcome::Done,
                    Err(Halt::Fault(e)) => o == Outcome::Failed(e@),
                    Err(Halt::OutOfFuel) => o == Outcome::OutOfFuel,
                })
            }),
        decreases fuel, *stmt, 0int,
    {
        match stmt {
            Stmt::Expression { expression } => match self.evaluate(expression) {
                Ok(_) => Ok(()),
                Err(e) => Err(Halt::Fault(e)),
            },
            Stmt::Print { expression } => {
                let v = match self.evaluate(expression) {
                    Ok(v) => v,
                    Err(e) => {
                        return Err(Halt::Fault(e));
                    },
                };
                let line = v.display();
                let ghost out0 = self.output@;
                let ghost linev = line@;
                self.output.push(line);
                proof {
                    assert(line_views(self.output@) =~= line_views(out0).push(linev));
                    assert(state_of(*self) =~= (exec_stmt(
                        state_of(*old(self)),
                        *stmt,
                        fuel as nat,
                    ).0));
                }
                Ok(())
            },
            Stmt::VarDecl { name, initializer } => {
                let value = match initializer {
                    Some(e) => match self.evaluate(e) {
                        Ok(v) => Some(v),
                        Err(er) => {
                            return Err(Halt::Fault(er));
                        },
                    },
                    None => None,
                };
                self.environment.define(clone_chars(&name.lexeme), value);
                Ok(())
            },
            Stmt::Block { statements } => {
                let r = self.execute_block(statements, fuel);
                proof {
                    assert(state_of(*self) =~= (exec_stmt(
                        state_of(*old(self)),
                        *stmt,
                        fuel as nat,
                    ).0));
                }
                r
            },
            Stmt::If { condition, then_branch, else_branch } => {
                let c = match self.evaluate(condition) {
                    Ok(v) => v,
                    Err(e) => {
                        return Err(Halt::Fault(e));
                    },
                };
                if is_truthy(c) {
                    self.execute(then_branch, fuel)
                } else {
                    match else_branch {
                        Some(eb) => self.execute(eb, fuel),
                        None => Ok(()),
                    }
                }
            },
            Stmt::While { condition, body } => {
                let mut fuel_left: u64 = fuel;
                loop
                    invariant
                        wf_stmt(*stmt),
                        stmt is While,
                        stmt matches Stmt::While { condition: c0, body: b0 } ==> *condition == *c0
                            && *body == **b0,
                        fuel_left <= fuel,
                        self.diagnostics@ == old(self).diagnostics@,
                        exec_stmt(state_of(*old(self)), *stmt, fuel as nat) == exec_stmt(
                            state_of(*self),
                            *stmt,
                            fuel_left as nat,
                        ),
                    decreases fuel_left,
                {
                    if fuel_left == 0 {
                        return Err(Halt::OutOfFuel);
                    }
                    let ghost pre = state_of(*self);
                    let c = match self.evaluate(condition) {
                        Ok(v) => v,
                        Err(e) => {
                            return Err(Halt::Fault(e));
                        },
                    };
                    if !is_truthy(c) {
                        return Ok(());
                    }
                    match self.execute(body, fuel_left) {
                        Ok(_) => {},
                        Err(e) => {
                            return Err(e);
                        },
                    }
                    proof {
                        assert(exec_stmt(pre, *stmt, fuel_left as nat) == exec_stmt(
                            state_of(*self),
                            *stmt,
                            (fuel_left - 1) as nat,
                        ));
                    }
                    fuel_left = fuel_left - 1;
                }
            },
        }
    }

    /// Executes a block's statements in a fresh innermost scope, restoring
    /// the enclosing scope afterwards — also when an error or fuel
    /// exhaustion unwinds out of the block.
    pub fn execute_block(&mut self, statements: &Vec<Stmt>, fuel: u64) -> (r: Result<(), Halt>)
        requires
            forall|i: int| 0 <= i < statements@.len() ==> wf_stmt(#[trigger] statements@[i]),
        ensures
            ({
                let entered = StateView {
                    env: state_of(*old(self)).env.push(Seq::empty()),
                    output: state_of(*old(self)).output,
                };
                let (st2, o) = exec_stmts(entered, statements@, fuel as nat);
                &&& state_of(*final(self)) == (StateView {
                    env: st2.env.drop_last(),
                    output: st2.output,
                })
                &&& final(self).diagnostics@ == old(self).diagnostics@
                &&& (match r {
                    Ok(u) => o == Outcome::Done,
                    Err(Halt::Fault(e)) => o == Outcome::Failed(e@),
                    Err(Halt::OutOfFuel) => o == Outcome::OutOfFuel,
                })
            }),
        decreases fuel, *statements, 0int,
    {
        proof {
            lemma_env_view_len(self.environment);
        }
        self.push_scope();
        let ghost entered = state_of(*self);
        proof {
            assert(statements@.skip(0) =~= statements@);
        }
        let mut i: usize = 0;
        while i < statements.len()
            invariant
                forall|k: int| 0 <= k < statements@.len() ==> wf_stmt(#[trigger] statements@[k]),
                i <= statements@.len(),
                entered == (StateView {
                    env: env_view(old(self).environment).push(Seq::empty()),
                    output: line_views(old(self).output@),
                }),
                entered.env.len() >= 2,
                self.diagnostics@ == old(self).diagnostics@,
                state_of(*self).env.len() == entered.env.len(),
                exec_stmts(entered, statements@, fuel as nat) == exec_stmts(
                    state_of(*self),
                    statements@.skip(i as int),
                    fuel as nat,
                ),
            decreases statements@.len() - i,
        {
            let ghost pre = state_of(*self);
            proof {
                assert(statements@.skip(i as int)[0] == statements@[i as int]);
                assert(statements@.skip(i as int).drop_first() =~= statements@.skip(i as int + 1));
            }
            let r = self.execute(&statements[i], fuel);
            proof {
                lemma_exec_stmt_env_len(pre, statements@[i as int], fuel as nat);
            }
            match r {
                Ok(_) => {
                    i = i + 1;
                },
                Err(e) => {
                    self.pop_scope();
                    proof {
                        assert(state_of(*self) =~= (StateView {
                            env: exec_stmts(entered, statements@, fuel as nat).0.env.drop_last(),
                            output: exec_stmts(entered, statements@, fuel as nat).0.output,
                        }));
                    }
                    return Err(e);
                },
            }
        }
        proof {
            assert(statements@.skip(statements@.len() as int) =~= Seq::<Stmt>::empty());
            assert(exec_stmts(entered, statements@, fuel as nat) == (
                state_of(*self),
                Outcome::Done,
            ));
        }
        self.pop_scope();
        proof {
            assert(state_of(*self) =~= (StateView {
                env: exec_stmts(entered, statements@, fuel as nat).0.env.drop_last(),
                output: exec_stmts(entered, statements@, fuel as nat).0.output,
            }));
        }
        Ok(())
    }

    /// Runs a program: each top-level statement executes with the full fuel
    /// budget; a statement that fails leaves its diagnostic behind and the
    /// run continues with the next one, while fuel exhaustion stops the run.
    /// Returns whether the run completed within the budget.
    pub fn interpret(&mut self, statements: &Vec<Stmt>, fuel: u64) -> (completed: bool)
        requires
            forall|i: int| 0 <= i < statements@.len() ==> wf_stmt(#[trigger] statements@[i]),
        ensures
            ({
                let (st2, ds, c) = run_stmts(state_of(*old(self)), statements@, fuel as nat);
                &&& state_of(*final(self)) == st2
                &&& error_views(final(self).diagnostics@) == error_views(old(self).diagnostics@)
                    + ds
                &&& completed == c
            }),
    {
        let ghost st0 = state_of(*old(self));
        let ghost full = run_stmts(st0, statements@, fuel as nat);
        proof {
            assert(statements@.skip(0) =~= statements@);
            assert(error_views(old(self).diagnostics@) + full.1 =~= error_views(
                self.diagnostics@,
            ) + run_stmts(state_of(*self), statements@.skip(0), fuel as nat).1);
        }
        let mut i: usize = 0;
        while i < statements.len()
            invariant
                forall|k: int| 0 <= k < statements@.len() ==> wf_stmt(#[trigger] statements@[k]),
                i <= statements@.len(),
                st0 == state_of(*old(self)),
                full == run_stmts(st0, statements@, fuel as nat),
                full.0 == run_stmts(state_of(*self), statements@.skip(i as int), fuel as nat).0,
                full.2 == run_stmts(state_of(*self), statements@.skip(i as int), fuel as nat).2,
                error_views(old(self).diagnostics@) + full.1 == error_views(self.diagnostics@)
                    + run_stmts(state_of(*self), statements@.skip(i as int), fuel as nat).1,
            decreases statements@.len() - i,
        {
            let ghost pre = state_of(*self);
            let ghost rem = statements@.skip(i as int);
            proof {
                assert(rem[0] == statements@[i as int]);
                assert(rem.drop_first() =~= statements@.skip(i as int + 1));
            }
            let r = self.execute(&statements[i], fuel);
            match r {
                Ok(_) => {
                    i = i + 1;
                },
                Err(Halt::Fault(e)) => {
                    let ghost d0 = self.diagnostics@;
                    let ghost ev = e@;
                    self.diagnostics.push(e);
                    proof {
                        assert(error_views(self.diagnostics@) =~= error_views(d0).push(ev));
                        assert(error_views(d0).push(ev) =~= error_views(d0) + seq![ev]);
                        let rest = run_stmts(state_of(*self), rem.drop_first(), fuel as nat);
                        assert(run_stmts(pre, rem, fuel as nat).1 == seq![ev] + rest.1);
                        assert(error_views(d0) + (seq![ev] + rest.1) =~= (error_views(d0) + seq![
                            ev,
                        ]) + rest.1);
                    }
                    i = i + 1;
                },
                Err(Halt::OutOfFuel) => {
                    proof {
                        assert(run_stmts(pre, rem, fuel as nat) == (
                            state_of(*self),
                            Seq::<RuntimeErrorView>::empty(),
                            false,
                        ));
                        assert(run_stmts(pre, rem, fuel as nat).1 =~= Seq::<
                            RuntimeErrorView,
                        >::empty());
                        assert(error_views(self.diagnostics@) + Seq::<RuntimeErrorView>::empty()
                            =~= error_views(self.diagnostics@));
                    }
                    return false;
                },
            }
        }
        proof {
            assert(statements@.skip(statements@.len() as int) =~= Seq::<Stmt>::empty());
            assert(run_stmts(state_of(*self), Seq::<Stmt>::empty(), fuel as nat) == (
                state_of(*self),
                Seq::<RuntimeErrorView>::empty(),
                true,
            ));
            assert(error_views(self.diagnostics@) + Seq::<RuntimeErrorView>::empty()
                =~= error_views(self.diagnostics@));
        }
        true
    }
}

} // verus!
