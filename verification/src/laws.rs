//! Laws of the language's semantics, stated over the specification
//! functions that the scanner and the evaluator are proved to implement:
//! short-circuiting of the logical operators, the comma operator's order
//! and discarding, the value and effect of assignment and declaration,
//! division by zero, block scoping, and the agreement of the display form
//! and the lexer on numbers.
use crate::environment::{env_define, env_find, EnvView};
use crate::error::RuntimeErrorView;
use crate::expr::Expr;
use crate::interpreter::{
    eval_binary, eval_expr, exec_stmt, exec_stmts, truthy, Outcome, StateView,
};
use crate::scanner::{digit_val, digits_end, digits_val, is_digit, scan_step};
use crate::stmt::Stmt;
use crate::text::{dec_nat, digit_char};
use crate::token::{TokenType, ValueView};
use vstd::prelude::*;

verus! {

/// A digit character reads back as the digit it was made from.
proof fn lemma_digit_char_val(d: int)
    requires
        0 <= d < 10,
    ensures
        digit_val(digit_char(d)) == d,
{
}

/// The value of a digit run depends only on the characters in the run.
proof fn lemma_digits_val_congruent(s1: Seq<char>, s2: Seq<char>, a: int, b: int)
    requires
        a <= b,
        forall|k: int| a <= k < b ==> s1[k] == s2[k],
    ensures
        digits_val(s1, a, b) == digits_val(s2, a, b),
    decreases b - a,
{
    if a < b {
        lemma_digits_val_congruent(s1, s2, a, b - 1);
    }
}

/// The decimal rendering of a number is never empty.
proof fn lemma_dec_nat_len(n: nat)
    ensures
        dec_nat(n).len() >= 1,
{
}

/// Printing a non-negative number and scanning its digits back yields the
/// number again: the value display form and the lexer agree on numeric
/// literals.
pub proof fn lemma_number_round_trip(n: i64)
    requires
        0 <= n,
    ensures
        digits_val(dec_nat(n as nat), 0, dec_nat(n as nat).len() as int) == n,
    decreases n,
{
    let s = dec_nat(n as nat);
    if n < 10 {
        lemma_digit_char_val(n as int);
        assert(digits_val(s, 0, 0) == 0);
        assert(s[0] == digit_char(n as int));
        assert(digits_val(s, 0, 1) == (0i64).wrapping_mul(10).wrapping_add(digit_val(s[0])));
        assert((0i64).wrapping_mul(10) == 0);
        assert(digits_val(s, 0, 1) == n);
    } else {
        let m: i64 = (n / 10) as i64;
        let d: i64 = (n % 10) as i64;
        assert(m as nat == (n as nat) / 10);
        assert(d as int == (n as nat) % 10);
        lemma_number_round_trip(m);
        let sp = dec_nat(m as nat);
        lemma_dec_nat_len(m as nat);
        assert(s == sp + seq![digit_char(d as int)]);
        let len = s.len() as int;
        assert(s[len - 1] == digit_char(d as int));
        lemma_digit_char_val(d as int);
        assert(forall|k: int| 0 <= k < sp.len() ==> s[k] == sp[k]);
        lemma_digits_val_congruent(s, sp, 0, sp.len() as int);
        assert(digits_val(s, 0, len - 1) == m);
        assert(digits_val(s, 0, len) == m.wrapping_mul(10).wrapping_add(digit_val(s[len - 1])));
        assert(m * 10 + d == n);
        assert(0 <= m * 10 <= n) by (nonlinear_arith)
            requires
                0 <= m,
                0 <= d,
                m * 10 + d == n,
        ;
        assert(m.wrapping_mul(10) == m * 10);
        assert(m.wrapping_mul(10).wrapping_add(d as i64) == n);
    }
}

/// Dividing by zero raises the divide-by-zero error, and dividing numbers
/// by anything else never does: `/` on numbers fails exactly on a zero
/// divisor.
pub proof fn lemma_divide_by_zero(line: i32, x: i64, y: i64)
    ensures
        eval_binary(TokenType::Slash, line, ValueView::Number(x), ValueView::Number(y)) == if y
            == 0 {
            Err::<ValueView, RuntimeErrorView>(RuntimeErrorView::DivideByZero(line))
        } else {
            Ok::<ValueView, RuntimeErrorView>(ValueView::Number(crate::interpreter::num_div(x, y)))
        },
{
}

/// A declaration binds in the innermost scope: a variable declared without
/// an initializer reads back as declared-but-uninitialized — which a read
/// rejects — and one declared with a value reads back as that value.
pub proof fn lemma_define_then_find(env: EnvView, name: Seq<char>, v: Option<ValueView>)
    requires
        env.len() >= 1,
    ensures
        env_find(env_define(env, name, v), name) == Some(v),
{
    let e2 = env_define(env, name, v);
    assert(e2.last() == env.last().push((name, v)));
    assert(crate::environment::scope_find(e2.last(), name) == Some(v));
}

/// Every character of a decimal rendering is a digit.
proof fn lemma_dec_nat_digits(n: nat)
    ensures
        forall|k: int| 0 <= k < dec_nat(n).len() ==> is_digit(#[trigger] dec_nat(n)[k]),
    decreases n,
{
    if n < 10 {
        assert(dec_nat(n)[0] == digit_char(n as int));
    } else {
        lemma_dec_nat_digits(n / 10);
        let sp = dec_nat(n / 10);
        assert forall|k: int| 0 <= k < dec_nat(n).len() implies is_digit(
            #[trigger] dec_nat(n)[k],
        ) by {
            if k < sp.len() {
                assert(dec_nat(n)[k] == sp[k]);
            } else {
                assert(dec_nat(n)[k] == digit_char((n % 10) as int));
            }
        }
    }
}

/// A run of digits reaching the input's end scans to the input's end.
proof fn lemma_digits_end_full(src: Seq<char>, j: int)
    requires
        0 <= j <= src.len(),
        forall|k: int| j <= k < src.len() ==> is_digit(#[trigger] src[k]),
    ensures
        digits_end(src, j) == src.len(),
    decreases src.len() - j,
{
    if j < src.len() {
        lemma_digits_end_full(src, j + 1);
    }
}

/// Scanning the display form of a non-negative number yields exactly one
/// number token carrying that number again: the printer and the lexer
/// agree on numeric literals.
pub proof fn lemma_scan_printed_number(n: i64, line: i32)
    requires
        0 <= n,
    ensures
        ({
            let src = dec_nat(n as nat);
            let st = scan_step(src, 0, line);
            &&& st.token matches Some(t) && t.token_type == TokenType::Number && t.literal
                == Some(ValueView::Number(n))
            &&& st.next == src.len()
            &&& st.error is None
        }),
{
    let src = dec_nat(n as nat);
    lemma_dec_nat_digits(n as nat);
    lemma_dec_nat_len(n as nat);
    assert(is_digit(src[0]));
    assert(src[0] != '(' && src[0] != ')' && src[0] != '{' && src[0] != '}' && src[0] != ','
        && src[0] != '.' && src[0] != '-' && src[0] != '+' && src[0] != ';' && src[0] != '*'
        && src[0] != '?' && src[0] != ':' && src[0] != '!' && src[0] != '=' && src[0] != '<'
        && src[0] != '>' && src[0] != '/' && src[0] != ' ' && src[0] != '\r' && src[0] != '\t'
        && src[0] != '\n' && src[0] != '"');
    lemma_digits_end_full(src, 1);
    lemma_number_round_trip(n);
}

/// `and` short-circuits: when the left operand evaluates to a falsy value,
/// that value is the whole expression's value, whatever the right operand
/// is — it is never evaluated, so an error in it cannot be raised.
pub proof fn lemma_and_short_circuit(env: EnvView, e: Expr, v: ValueView)
    requires
        e matches Expr::Logical { left, operator, right } && operator.token_type == TokenType::And
            && eval_expr(env, *left).1 == Ok::<ValueView, RuntimeErrorView>(v),
        !truthy(v),
    ensures
        e matches Expr::Logical { left, operator, right } ==> eval_expr(env, e) == (
            eval_expr(env, *left).0,
            Ok::<ValueView, RuntimeErrorView>(v),
        ),
{
}

/// `or` short-circuits: when the left operand evaluates to a truthy value,
/// that value is the whole expression's value and the right operand is
/// never evaluated.
pub proof fn lemma_or_short_circuit(env: EnvView, e: Expr, v: ValueView)
    requires
        e matches Expr::Logical { left, operator, right } && operator.token_type == TokenType::Or
            && eval_expr(env, *left).1 == Ok::<ValueView, RuntimeErrorView>(v),
        truthy(v),
    ensures
        e matches Expr::Logical { left, operator, right } ==> eval_expr(env, e) == (
            eval_expr(env, *left).0,
            Ok::<ValueView, RuntimeErrorView>(v),
        ),
{
}

/// The comma operator evaluates its left operand first, discards its value,
/// and the whole expression continues as the right operand evaluated in the
/// state the left one produced.
pub proof fn lemma_comma_discards(env: EnvView, e: Expr, v: ValueView)
    requires
        e matches Expr::Comma { left, right } && eval_expr(env, *left).1 == Ok::<
            ValueView,
            RuntimeErrorView,
        >(v),
    ensures
        e matches Expr::Comma { left, right } ==> eval_expr(env, e) == eval_expr(
            eval_expr(env, *left).0,
            *right,
        ),
{
}

/// Assignment is an expression: when the right-hand side evaluates to a
/// value and the name is bound somewhere in the chain, the assignment's own
/// value is the assigned value, and the chain afterwards binds the name to
/// it.
pub proof fn lemma_assignment_value(env: EnvView, e: Expr, v: ValueView)
    requires
        e matches Expr::Assign { name, value } && eval_expr(env, *value).1 == Ok::<
            ValueView,
            RuntimeErrorView,
        >(v) && crate::environment::env_assign(
            eval_expr(env, *value).0,
            name.lexeme@,
            Some(v),
        ) is Some,
    ensures
        e matches Expr::Assign { name, value } ==> eval_expr(env, e) == (
            crate::environment::env_assign(eval_expr(env, *value).0, name.lexeme@, Some(v))->0,
            Ok::<ValueView, RuntimeErrorView>(v),
        ),
{
}

/// A variable declared inside a block lives in the block's own scope: a
/// block holding one declaration with a literal initializer completes and
/// leaves the whole chain outside the block — a same-named outer binding
/// included — exactly as it was, whatever the fuel budget.
pub proof fn lemma_block_scoped_declaration(st: StateView, s: Stmt, fuel: nat)
    requires
        s matches Stmt::Block { statements } && statements@.len() == 1 && (statements@[0] matches
        Stmt::VarDecl { name, initializer: init } && (init matches Some(e) && e matches
        Expr::Literal { value })),
    ensures
        exec_stmt(st, s, fuel) == (st, Outcome::Done),
{
    match s {
        Stmt::Block { statements } => {
            let entered = StateView { env: st.env.push(Seq::empty()), ..st };
            let decl = statements@[0];
            assert(statements@.drop_first().len() == 0);
            let (st1, o1) = exec_stmt(entered, decl, fuel);
            match decl {
                Stmt::VarDecl { name, initializer } => {
                    assert(o1 == Outcome::Done);
                    assert(exec_stmts(st1, statements@.drop_first(), fuel) == (
                        st1,
                        Outcome::Done,
                    ));
                    assert(exec_stmts(entered, statements@, fuel) == (st1, Outcome::Done));
                    assert(st1.env.drop_last() =~= st.env);
                    assert(exec_stmt(st, s, fuel).0 =~= st);
                },
                _ => {},
            }
        },
        _ => {},
    }
}

} // verus!
