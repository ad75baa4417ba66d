//! The parser: recursive descent over the token sequence with explicit
//! precedence climbing, producing well-formed statements. Its specification
//! is a parsing function per grammar production — [`parse_program_items`]
//! down to [`parse_primary`] — giving, for every position, the position
//! after the production, the parsed model or the diagnostic that stopped
//! it, and the diagnostics recorded along the way; the recursive descent is
//! proved to return exactly what these functions prescribe. A malformed
//! statement is reported and skipped — the parser re-synchronizes at a
//! statement boundary — so the caller receives exactly the statements that
//! parsed, in source order, with one diagnostic per discarded construct.
use crate::expr::{expr_view, wf_expr, Expr, ExprView};
use crate::stmt::{stmt_view, stmts_view, wf_stmt, Stmt, StmtView};
use crate::text::{append_chars, append_str, dec_int, i32_to_chars};
use crate::token::{Token, TokenType, TokenView, Value, ValueView};
use vstd::prelude::*;

verus! {

/// What a parse diagnostic complains about.
#[derive(Debug, Clone, Copy, PartialEq, Eq, Structural)]
pub enum ParseErrorType {
    ExpectColon,
    ExpectExpression,
    ExpectRightParen,
    MissingLeftHandOperand,
    ExpectSemicolonAfterExpression,
    ExpectSemicolonAfterVarDeclaration,
    ExpectVarName,
    InvalidAssignment,
    ExpectRightBraceAfterBlock,
    ExpectLeftParenAfterIf,
    ExpectRightParenAfterIfCondition,
    ExpectLeftParenAfterWhile,
    ExpectRightParenAfterCondition,
    ExpectLeftParenAfterFor,
    ExpectSemicolonAfterLoopCondition,
    ExpectRightParenAfterForClauses,
}

/// The cause text of a parse diagnostic.
pub open spec fn parse_error_type_message(t: ParseErrorType) -> Seq<char> {
    match t {
        ParseErrorType::ExpectColon => "Expect ':' after expression."@,
        ParseErrorType::ExpectExpression => "Expect expression."@,
        ParseErrorType::ExpectRightParen => "Expect ')' after expression."@,
        ParseErrorType::MissingLeftHandOperand => "Missing binary operator left hand operand."@,
        ParseErrorType::ExpectSemicolonAfterExpression => "Expect ';' after expression."@,
        ParseErrorType::ExpectSemicolonAfterVarDeclaration =>
            "Expect ';' after variable declaration."@,
        ParseErrorType::ExpectVarName => "Expect variable name."@,
        ParseErrorType::InvalidAssignment => "Invalid assignment target."@,
        ParseErrorType::ExpectRightBraceAfterBlock => "Expect '}' after block."@,
        ParseErrorType::ExpectLeftParenAfterIf => "Expect '(' after if."@,
        ParseErrorType::ExpectRightParenAfterIfCondition => "Expect ')' after if condition."@,
        ParseErrorType::ExpectLeftParenAfterWhile => "Expect '(' after while."@,
        ParseErrorType::ExpectRightParenAfterCondition => "Expect ')' after condition."@,
        ParseErrorType::ExpectLeftParenAfterFor => "Expect '(' after for."@,
        ParseErrorType::ExpectSemicolonAfterLoopCondition => "Expect ';' after loop condition."@,
        ParseErrorType::ExpectRightParenAfterForClauses => "Expect ')' after for clauses."@,
    }
}

impl ParseErrorType {
    /// Renders the cause text of this diagnostic.
    pub fn message(&self) -> (r: Vec<char>)
        ensures
            r@ == parse_error_type_message(*self),
    {
        let mut out: Vec<char> = Vec::new();
        match self {
            ParseErrorType::ExpectColon => append_str(&mut out, "Expect ':' after expression."),
            ParseErrorType::ExpectExpression => append_str(&mut out, "Expect expression."),
            ParseErrorType::ExpectRightParen => append_str(&mut out, "Expect ')' after expression."),
            ParseErrorType::MissingLeftHandOperand => append_str(
                &mut out,
                "Missing binary operator left hand operand.",
            ),
            ParseErrorType::ExpectSemicolonAfterExpression => append_str(
                &mut out,
                "Expect ';' after expression.",
            ),
            ParseErrorType::ExpectSemicolonAfterVarDeclaration => append_str(
                &mut out,
                "Expect ';' after variable declaration.",
            ),
            ParseErrorType::ExpectVarName => append_str(&mut out, "Expect variable name."),
            ParseErrorType::InvalidAssignment => append_str(&mut out, "Invalid assignment target."),
            ParseErrorType::ExpectRightBraceAfterBlock => append_str(
                &mut out,
                "Expect '}' after block.",
            ),
            ParseErrorType::ExpectLeftParenAfterIf => append_str(&mut out, "Expect '(' after if."),
            ParseErrorType::ExpectRightParenAfterIfCondition => append_str(
                &mut out,
                "Expect ')' after if condition.",
            ),
            ParseErrorType::ExpectLeftParenAfterWhile => append_str(
                &mut out,
                "Expect '(' after while.",
            ),
            ParseErrorType::ExpectRightParenAfterCondition => append_str(
                &mut out,
                "Expect ')' after condition.",
            ),
            ParseErrorType::ExpectLeftParenAfterFor => append_str(&mut out, "Expect '(' after for."),
            ParseErrorType::ExpectSemicolonAfterLoopCondition => append_str(
                &mut out,
                "Expect ';' after loop condition.",
            ),
            ParseErrorType::ExpectRightParenAfterForClauses => append_str(
                &mut out,
                "Expect ')' after for clauses.",
            ),
        }
        out
    }
}

/// A parse diagnostic: its cause and the offending token.
#[derive(Debug)]
pub struct ParseError {
    pub parse_error_type: ParseErrorType,
    pub token: Token,
}

/// The mathematical model of a [`ParseError`].
pub struct ParseErrorView {
    pub parse_error_type: ParseErrorType,
    pub token: TokenView,
}

impl View for ParseError {
    type V = ParseErrorView;

    open spec fn view(&self) -> ParseErrorView {
        ParseErrorView { parse_error_type: self.parse_error_type, token: self.token@ }
    }
}

/// The diagnostic text of a parse error: the offending token's line, its
/// text — or "at end" at the end of the input — and the cause.
pub open spec fn parse_error_message(e: ParseErrorView) -> Seq<char> {
    if e.token.token_type == TokenType::EoF {
        dec_int(e.token.line as int) + " at end "@ + parse_error_type_message(e.parse_error_type)
    } else {
        dec_int(e.token.line as int) + " at '"@ + e.token.lexeme + "' "@
            + parse_error_type_message(e.parse_error_type)
    }
}

impl ParseError {
    /// Renders the diagnostic text the error displays as.
    pub fn message(&self) -> (r: Vec<char>)
        ensures
            r@ == parse_error_message(self@),
    {
        let mut out = i32_to_chars(self.token.line);
        if self.token.token_type == TokenType::EoF {
            append_str(&mut out, " at end ");
        } else {
            append_str(&mut out, " at '");
            append_chars(&mut out, &self.token.lexeme);
            append_str(&mut out, "' ");
        }
        let cause = self.parse_error_type.message();
        append_chars(&mut out, &cause);
        out
    }
}

/// The models of a sequence of parse diagnostics.
pub open spec fn parse_error_views(es: Seq<ParseError>) -> Seq<ParseErrorView> {
    es.map_values(|e: ParseError| e@)
}

/// Concatenation of diagnostic sequences is associative.
broadcast proof fn lemma_errs_concat_assoc(
    a: Seq<ParseErrorView>,
    b: Seq<ParseErrorView>,
    c: Seq<ParseErrorView>,
)
    ensures
        #[trigger] ((a + b) + c) == a + (b + c),
{
    assert((a + b) + c =~= a + (b + c));
}

/// The empty diagnostic sequence is the unit of concatenation.
broadcast proof fn lemma_errs_concat_empty(a: Seq<ParseErrorView>)
    ensures
        #[trigger] (a + Seq::<ParseErrorView>::empty()) == a,
        #[trigger] (Seq::<ParseErrorView>::empty() + a) == a,
{
    assert(a + Seq::<ParseErrorView>::empty() =~= a);
    assert(Seq::<ParseErrorView>::empty() + a =~= a);
}

/// Concatenation of statement-model sequences is associative.
broadcast proof fn lemma_stmts_concat_assoc(a: Seq<StmtView>, b: Seq<StmtView>, c: Seq<StmtView>)
    ensures
        #[trigger] ((a + b) + c) == a + (b + c),
{
    assert((a + b) + c =~= a + (b + c));
}

/// The empty statement-model sequence is the unit of concatenation.
broadcast proof fn lemma_stmts_concat_empty(a: Seq<StmtView>)
    ensures
        #[trigger] (a + Seq::<StmtView>::empty()) == a,
        #[trigger] (Seq::<StmtView>::empty() + a) == a,
{
    assert(a + Seq::<StmtView>::empty() =~= a);
    assert(Seq::<StmtView>::empty() + a =~= a);
}

/// Recording one diagnostic appends its model.
broadcast proof fn lemma_parse_error_views_push(es: Seq<ParseError>, e: ParseError)
    ensures
        #[trigger] parse_error_views(es.push(e)) == parse_error_views(es) + seq![e@],
{
    assert(parse_error_views(es.push(e)) =~= parse_error_views(es) + seq![e@]);
}

/// The kind of the token at a position.
pub open spec fn tok(toks: Seq<Token>, i: int) -> TokenType {
    toks[i].token_type
}

/// A diagnostic of the given cause at the token at `i`.
pub open spec fn perr(toks: Seq<Token>, pet: ParseErrorType, i: int) -> ParseErrorView {
    ParseErrorView { parse_error_type: pet, token: toks[i]@ }
}

/// What parsing one expression from a position yields: the position after
/// it, the expression's model or the diagnostic that stopped it, and the
/// diagnostics recorded along the way (an invalid assignment target is
/// recorded while parsing continues).
pub type ExprParse = (int, Result<ExprView, ParseErrorView>, Seq<ParseErrorView>);

/// What parsing one statement from a position yields, in the same shape.
pub type StmtParse = (int, Result<StmtView, ParseErrorView>, Seq<ParseErrorView>);

// The specification parser below mirrors the recursive descent one
// production per function. Each function returns the position it stopped
// at; the position bound checks guarding every recursive call keep the
// recursion well-founded, and the parser always advances, so on the
// executable parser's runs they always pass.

/// Parses one expression: the comma level is the lowest precedence.
pub open spec fn parse_expression(toks: Seq<Token>, i: int) -> ExprParse
    decreases toks.len() - i, 40int,
    when 0 <= i <= toks.len()
{
    parse_comma(toks, i)
}

/// The comma operator: left-associative, lowest precedence.
pub open spec fn parse_comma(toks: Seq<Token>, i: int) -> ExprParse
    decreases toks.len() - i, 38int,
    when 0 <= i <= toks.len()
{
    let (j, r, ds) = parse_assignment(toks, i);
    match r {
        Err(e) => (j, Err(e), ds),
        Ok(first) => {
            if i <= j <= toks.len() {
                let (k, r2, ds2) = parse_comma_more(toks, j, first);
                (k, r2, ds + ds2)
            } else {
                (j, Ok(first), ds)
            }
        },
    }
}

/// Further `,`-joined operands after a parsed left operand.
pub open spec fn parse_comma_more(toks: Seq<Token>, j: int, acc: ExprView) -> ExprParse
    decreases toks.len() - j, 36int,
    when 0 <= j <= toks.len()
{
    if j < toks.len() && tok(toks, j) == TokenType::Comma {
        let (k, r, ds) = parse_assignment(toks, j + 1);
        match r {
            Err(e) => (k, Err(e), ds),
            Ok(rhs) => {
                let acc2 = ExprView::Comma { left: Box::new(acc), right: Box::new(rhs) };
                if j < k <= toks.len() {
                    let (m, r2, ds2) = parse_comma_more(toks, k, acc2);
                    (m, r2, ds + ds2)
                } else {
                    (k, Ok(acc2), ds)
                }
            },
        }
    } else {
        (j, Ok(acc), Seq::empty())
    }
}

/// Assignment: right-associative; only a bare variable reference is a
/// legal target. Any other target leaves an invalid-assignment-target
/// diagnostic behind and parsing continues with the already-parsed
/// right-hand side as the expression's value.
pub open spec fn parse_assignment(toks: Seq<Token>, i: int) -> ExprParse
    decreases toks.len() - i, 34int,
    when 0 <= i <= toks.len()
{
    let (j, r, ds) = parse_ternary(toks, i);
    match r {
        Err(e) => (j, Err(e), ds),
        Ok(lhs) => {
            if i <= j < toks.len() && tok(toks, j) == TokenType::Equal {
                let (k, r2, ds2) = parse_ternary(toks, j + 1);
                match r2 {
                    Err(e) => (k, Err(e), ds + ds2),
                    Ok(rhs) => match lhs {
                        ExprView::Variable { token } => (
                            k,
                            Ok(ExprView::Assign { name: token, value: Box::new(rhs) }),
                            ds + ds2,
                        ),
                        _ => (
                            k,
                            Ok(rhs),
                            ds + ds2 + seq![perr(toks, ParseErrorType::InvalidAssignment, j)],
                        ),
                    },
                }
            } else {
                (j, Ok(lhs), ds)
            }
        },
    }
}

/// The conditional operator `?:`, right-associative: the condition comes
/// from the or-level, the then-part is a full expression, the else-part a
/// ternary.
pub open spec fn parse_ternary(toks: Seq<Token>, i: int) -> ExprParse
    decreases toks.len() - i, 32int,
    when 0 <= i <= toks.len()
{
    let (j, r, ds) = parse_or(toks, i);
    match r {
        Err(e) => (j, Err(e), ds),
        Ok(cond) => {
            if i <= j < toks.len() && tok(toks, j) == TokenType::QuestionMark {
                let (k, r2, ds2) = parse_expression(toks, j + 1);
                match r2 {
                    Err(e) => (k, Err(e), ds + ds2),
                    Ok(thenv) => {
                        if k < toks.len() && tok(toks, k) == TokenType::Colon {
                            if j < k + 1 <= toks.len() {
                                let (m, r3, ds3) = parse_ternary(toks, k + 1);
                                match r3 {
                                    Err(e) => (m, Err(e), ds + ds2 + ds3),
                                    Ok(elsev) => (
                                        m,
                                        Ok(
                                            ExprView::Ternary {
                                                condition: Box::new(cond),
                                                left: Box::new(thenv),
                                                right: Box::new(elsev),
                                            },
                                        ),
                                        ds + ds2 + ds3,
                                    ),
                                }
                            } else {
                                (k, Err(perr(toks, ParseErrorType::ExpectColon, k)), ds + ds2)
                            }
                        } else {
                            (k, Err(perr(toks, ParseErrorType::ExpectColon, k)), ds + ds2)
                        }
                    },
                }
            } else {
                (j, Ok(cond), ds)
            }
        },
    }
}

/// Logical or: left-associative.
pub open spec fn parse_or(toks: Seq<Token>, i: int) -> ExprParse
    decreases toks.len() - i, 30int,
    when 0 <= i <= toks.len()
{
    let (j, r, ds) = parse_and(toks, i);
    match r {
        Err(e) => (j, Err(e), ds),
        Ok(first) => {
            if i <= j <= toks.len() {
                let (k, r2, ds2) = parse_or_more(toks, j, first);
                (k, r2, ds + ds2)
            } else {
                (j, Ok(first), ds)
            }
        },
    }
}

/// Further `or`-joined operands after a parsed left operand.
pub open spec fn parse_or_more(toks: Seq<Token>, j: int, acc: ExprView) -> ExprParse
    decreases toks.len() - j, 28int,
    when 0 <= j <= toks.len()
{
    if j < toks.len() && tok(toks, j) == TokenType::Or {
        let (k, r, ds) = parse_and(toks, j + 1);
        match r {
            Err(e) => (k, Err(e), ds),
            Ok(rhs) => {
                let acc2 = ExprView::Logical {
                    left: Box::new(acc),
                    operator: toks[j]@,
                    right: Box::new(rhs),
                };
                if j < k <= toks.len() {
                    let (m, r2, ds2) = parse_or_more(toks, k, acc2);
                    (m, r2, ds + ds2)
                } else {
                    (k, Ok(acc2), ds)
                }
            },
        }
    } else {
        (j, Ok(acc), Seq::empty())
    }
}

/// Logical and: left-associative.
pub open spec fn parse_and(toks: Seq<Token>, i: int) -> ExprParse
    decreases toks.len() - i, 26int,
    when 0 <= i <= toks.len()
{
    let (j, r, ds) = parse_equality(toks, i);
    match r {
        Err(e) => (j, Err(e), ds),
        Ok(first) => {
            if i <= j <= toks.len() {
                let (k, r2, ds2) = parse_and_more(toks, j, first);
                (k, r2, ds + ds2)
            } else {
                (j, Ok(first), ds)
            }
        },
    }
}

/// Further `and`-joined operands after a parsed left operand.
pub open spec fn parse_and_more(toks: Seq<Token>, j: int, acc: ExprView) -> ExprParse
    decreases toks.len() - j, 24int,
    when 0 <= j <= toks.len()
{
    if j < toks.len() && tok(toks, j) == TokenType::And {
        let (k, r, ds) = parse_equality(toks, j + 1);
        match r {
            Err(e) => (k, Err(e), ds),
            Ok(rhs) => {
                let acc2 = ExprView::Logical {
                    left: Box::new(acc),
                    operator: toks[j]@,
                    right: Box::new(rhs),
                };
                if j < k <= toks.len() {
                    let (m, r2, ds2) = parse_and_more(toks, k, acc2);
                    (m, r2, ds + ds2)
                } else {
                    (k, Ok(acc2), ds)
                }
            },
        }
    } else {
        (j, Ok(acc), Seq::empty())
    }
}

/// Equality operators, left-associative.
pub open spec fn parse_equality(toks: Seq<Token>, i: int) -> ExprParse
    decreases toks.len() - i, 22int,
    when 0 <= i <= toks.len()
{
    let (j, r, ds) = parse_comparison(toks, i);
    match r {
        Err(e) => (j, Err(e), ds),
        Ok(first) => {
            if i <= j <= toks.len() {
                let (k, r2, ds2) = parse_equality_more(toks, j, first);
                (k, r2, ds + ds2)
            } else {
                (j, Ok(first), ds)
            }
        },
    }
}

/// Further equality-operator operands after a parsed left operand.
pub open spec fn parse_equality_more(toks: Seq<Token>, j: int, acc: ExprView) -> ExprParse
    decreases toks.len() - j, 20int,
    when 0 <= j <= toks.len()
{
    if j < toks.len() && (tok(toks, j) == TokenType::BangEqual || tok(toks, j)
        == TokenType::EqualEqual) {
        let (k, r, ds) = parse_comparison(toks, j + 1);
        match r {
            Err(e) => (k, Err(e), ds),
            Ok(rhs) => {
                let acc2 = ExprView::Binary {
                    left: Box::new(acc),
                    operator: toks[j]@,
                    right: Box::new(rhs),
                };
                if j < k <= toks.len() {
                    let (m, r2, ds2) = parse_equality_more(toks, k, acc2);
                    (m, r2, ds + ds2)
                } else {
                    (k, Ok(acc2), ds)
                }
            },
        }
    } else {
        (j, Ok(acc), Seq::empty())
    }
}

/// Comparison operators, left-associative.
pub open spec fn parse_comparison(toks: Seq<Token>, i: int) -> ExprParse
    decreases toks.len() - i, 18int,
    when 0 <= i <= toks.len()
{
    let (j, r, ds) = parse_term(toks, i);
    match r {
        Err(e) => (j, Err(e), ds),
        Ok(first) => {
            if i <= j <= toks.len() {
                let (k, r2, ds2) = parse_comparison_more(toks, j, first);
                (k, r2, ds + ds2)
            } else {
                (j, Ok(first), ds)
            }
        },
    }
}

/// Further comparison-operator operands after a parsed left operand.
pub open spec fn parse_comparison_more(toks: Seq<Token>, j: int, acc: ExprView) -> ExprParse
    decreases toks.len() - j, 16int,
    when 0 <= j <= toks.len()
{
    if j < toks.len() && (tok(toks, j) == TokenType::Greater || tok(toks, j)
        == TokenType::GreaterEqual || tok(toks, j) == TokenType::Less || tok(toks, j)
        == TokenType::LessEqual) {
        let (k, r, ds) = parse_term(toks, j + 1);
        match r {
            Err(e) => (k, Err(e), ds),
            Ok(rhs) => {
                let acc2 = ExprView::Binary {
                    left: Box::new(acc),
                    operator: toks[j]@,
                    right: Box::new(rhs),
                };
                if j < k <= toks.len() {
                    let (m, r2, ds2) = parse_comparison_more(toks, k, acc2);
                    (m, r2, ds + ds2)
                } else {
                    (k, Ok(acc2), ds)
                }
            },
        }
    } else {
        (j, Ok(acc), Seq::empty())
    }
}

/// Additive operators, left-associative.
pub open spec fn parse_term(toks: Seq<Token>, i: int) -> ExprParse
    decreases toks.len() - i, 14int,
    when 0 <= i <= toks.len()
{
    let (j, r, ds) = parse_factor(toks, i);
    match r {
        Err(e) => (j, Err(e), ds),
        Ok(first) => {
            if i <= j <= toks.len() {
                let (k, r2, ds2) = parse_term_more(toks, j, first);
                (k, r2, ds + ds2)
            } else {
                (j, Ok(first), ds)
            }
        },
    }
}

/// Further additive-operator operands after a parsed left operand.
pub open spec fn parse_term_more(toks: Seq<Token>, j: int, acc: ExprView) -> ExprParse
    decreases toks.len() - j, 12int,
    when 0 <= j <= toks.len()
{
    if j < toks.len() && (tok(toks, j) == TokenType::Minus || tok(toks, j) == TokenType::Plus) {
        let (k, r, ds) = parse_factor(toks, j + 1);
        match r {
            Err(e) => (k, Err(e), ds),
            Ok(rhs) => {
                let acc2 = ExprView::Binary {
                    left: Box::new(acc),
                    operator: toks[j]@,
                    right: Box::new(rhs),
                };
                if j < k <= toks.len() {
                    let (m, r2, ds2) = parse_term_more(toks, k, acc2);
                    (m, r2, ds + ds2)
                } else {
                    (k, Ok(acc2), ds)
                }
            },
        }
    } else {
        (j, Ok(acc), Seq::empty())
    }
}

/// Multiplicative operators, left-associative.
pub open spec fn parse_factor(toks: Seq<Token>, i: int) -> ExprParse
    decreases toks.len() - i, 10int,
    when 0 <= i <= toks.len()
{
    let (j, r, ds) = parse_unary(toks, i);
    match r {
        Err(e) => (j, Err(e), ds),
        Ok(first) => {
            if i <= j <= toks.len() {
                let (k, r2, ds2) = parse_factor_more(toks, j, first);
                (k, r2, ds + ds2)
            } else {
                (j, Ok(first), ds)
            }
        },
    }
}

/// Further multiplicative-operator operands after a parsed left operand.
pub open spec fn parse_factor_more(toks: Seq<Token>, j: int, acc: ExprView) -> ExprParse
    decreases toks.len() - j, 8int,
    when 0 <= j <= toks.len()
{
    if j < toks.len() && (tok(toks, j) == TokenType::Slash || tok(toks, j) == TokenType::Star) {
        let (k, r, ds) = parse_unary(toks, j + 1);
        match r {
            Err(e) => (k, Err(e), ds),
            Ok(rhs) => {
                let acc2 = ExprView::Binary {
                    left: Box::new(acc),
                    operator: toks[j]@,
                    right: Box::new(rhs),
                };
                if j < k <= toks.len() {
                    let (m, r2, ds2) = parse_factor_more(toks, k, acc2);
                    (m, r2, ds + ds2)
                } else {
                    (k, Ok(acc2), ds)
                }
            },
        }
    } else {
        (j, Ok(acc), Seq::empty())
    }
}

/// Unary operators, right-associative by self-recursion.
pub open spec fn parse_unary(toks: Seq<Token>, i: int) -> ExprParse
    decreases toks.len() - i, 6int,
    when 0 <= i <= toks.len()
{
    if i < toks.len() && (tok(toks, i) == TokenType::Bang || tok(toks, i) == TokenType::Minus) {
        let (j, r, ds) = parse_unary(toks, i + 1);
        match r {
            Err(e) => (j, Err(e), ds),
            Ok(operand) => (
                j,
                Ok(ExprView::Unary { operator: toks[i]@, right: Box::new(operand) }),
                ds,
            ),
        }
    } else {
        parse_primary(toks, i)
    }
}

/// The operators a dangling-operator check recognizes at the primary level.
pub open spec fn is_dangling_op(t: TokenType) -> bool {
    ||| t == TokenType::Bang
    ||| t == TokenType::Minus
    ||| t == TokenType::Slash
    ||| t == TokenType::Star
    ||| t == TokenType::Plus
    ||| t == TokenType::Greater
    ||| t == TokenType::GreaterEqual
    ||| t == TokenType::Less
    ||| t == TokenType::LessEqual
    ||| t == TokenType::BangEqual
    ||| t == TokenType::EqualEqual
}

/// Primary expressions: literals, variable references and parenthesized
/// groupings; a binary operator with no preceding operand consumes an
/// equality-level right-hand side anyway — keeping the token stream aligned
/// for recovery — and yields a missing-left-hand-operand diagnostic naming
/// the dangling operator.
pub open spec fn parse_primary(toks: Seq<Token>, i: int) -> ExprParse
    decreases toks.len() - i, 4int,
    when 0 <= i <= toks.len()
{
    if i < toks.len() && tok(toks, i) == TokenType::False {
        (i + 1, Ok(ExprView::Literal { value: ValueView::Boolean(false) }), Seq::empty())
    } else if i < toks.len() && tok(toks, i) == TokenType::True {
        (i + 1, Ok(ExprView::Literal { value: ValueView::Boolean(true) }), Seq::empty())
    } else if i < toks.len() && tok(toks, i) == TokenType::Nil {
        (i + 1, Ok(ExprView::Literal { value: ValueView::Null }), Seq::empty())
    } else if i < toks.len() && (tok(toks, i) == TokenType::Number || tok(toks, i)
        == TokenType::Str) {
        let value = match toks[i].literal {
            Some(l) => l@,
            None => ValueView::Null,
        };
        (i + 1, Ok(ExprView::Literal { value }), Seq::empty())
    } else if i < toks.len() && tok(toks, i) == TokenType::Identifier {
        (i + 1, Ok(ExprView::Variable { token: toks[i]@ }), Seq::empty())
    } else if i < toks.len() && tok(toks, i) == TokenType::LeftParen {
        let (j, r, ds) = parse_expression(toks, i + 1);
        match r {
            Err(e) => (j, Err(e), ds),
            Ok(inner) => {
                if j < toks.len() && tok(toks, j) == TokenType::RightParen {
                    (j + 1, Ok(ExprView::Grouping { expression: Box::new(inner) }), ds)
                } else {
                    (j, Err(perr(toks, ParseErrorType::ExpectRightParen, j)), ds)
                }
            },
        }
    } else if i < toks.len() && is_dangling_op(tok(toks, i)) {
        let (j, r, ds) = parse_equality(toks, i + 1);
        match r {
            Err(e) => (j, Err(e), ds),
            Ok(discarded) => (
                j,
                Err(perr(toks, ParseErrorType::MissingLeftHandOperand, i)),
                ds,
            ),
        }
    } else {
        (i, Err(perr(toks, ParseErrorType::ExpectExpression, i)), Seq::empty())
    }
}

/// The keywords that begin a statement, where recovery may resume.
pub open spec fn is_statement_boundary(t: TokenType) -> bool {
    ||| t == TokenType::Class
    ||| t == TokenType::Fun
    ||| t == TokenType::Var
    ||| t == TokenType::For
    ||| t == TokenType::If
    ||| t == TokenType::While
    ||| t == TokenType::Print
    ||| t == TokenType::Return
}

/// Where discarding tokens from position `j` stops: just past a semicolon
/// (the token at `j - 1`), just before a keyword that begins a statement,
/// or at the end of the input.
pub open spec fn parse_sync_scan(toks: Seq<Token>, j: int) -> int
    decreases toks.len() - j,
    when 1 <= j <= toks.len()
{
    if j < toks.len() && tok(toks, j) != TokenType::EoF {
        if tok(toks, j - 1) == TokenType::Semicolon {
            j
        } else if is_statement_boundary(tok(toks, j)) {
            j
        } else {
            parse_sync_scan(toks, j + 1)
        }
    } else {
        j
    }
}

/// Re-synchronization after a malformed statement: one token is discarded
/// unconditionally, then tokens are discarded up to a statement boundary.
pub open spec fn parse_sync(toks: Seq<Token>, i: int) -> int {
    if 0 <= i < toks.len() && tok(toks, i) != TokenType::EoF {
        parse_sync_scan(toks, i + 1)
    } else {
        i
    }
}

/// Parses a variable declaration, the `var` keyword already consumed.
pub open spec fn parse_var_declaration(toks: Seq<Token>, i: int) -> StmtParse
    decreases toks.len() - i, 42int,
    when 0 <= i <= toks.len()
{
    if i < toks.len() && tok(toks, i) == TokenType::Identifier {
        let name = toks[i]@;
        if i + 1 < toks.len() && tok(toks, i + 1) == TokenType::Equal {
            let (j, r, ds) = parse_expression(toks, i + 2);
            match r {
                Err(e) => (j, Err(e), ds),
                Ok(v) => {
                    if j < toks.len() && tok(toks, j) == TokenType::Semicolon {
                        (
                            j + 1,
                            Ok(StmtView::VarDecl { name, initializer: Some(v) }),
                            ds,
                        )
                    } else {
                        (
                            j,
                            Err(perr(toks, ParseErrorType::ExpectSemicolonAfterVarDeclaration, j)),
                            ds,
                        )
                    }
                },
            }
        } else {
            if i + 1 < toks.len() && tok(toks, i + 1) == TokenType::Semicolon {
                (i + 2, Ok(StmtView::VarDecl { name, initializer: None }), Seq::empty())
            } else {
                (
                    i + 1,
                    Err(perr(toks, ParseErrorType::ExpectSemicolonAfterVarDeclaration, i + 1)),
                    Seq::empty(),
                )
            }
        }
    } else {
        (i, Err(perr(toks, ParseErrorType::ExpectVarName, i)), Seq::empty())
    }
}

/// Parses a `while` statement, the keyword already consumed.
pub open spec fn parse_while_statement(toks: Seq<Token>, i: int) -> StmtParse
    decreases toks.len() - i, 42int,
    when 0 <= i <= toks.len()
{
    if i < toks.len() && tok(toks, i) == TokenType::LeftParen {
        let (j, r, ds) = parse_expression(toks, i + 1);
        match r {
            Err(e) => (j, Err(e), ds),
            Ok(cond) => {
                if i <= j < toks.len() && tok(toks, j) == TokenType::RightParen {
                    let (k, r2, ds2) = parse_statement(toks, j + 1);
                    match r2 {
                        Err(e) => (k, Err(e), ds + ds2),
                        Ok(body) => (
                            k,
                            Ok(StmtView::While { condition: cond, body: Box::new(body) }),
                            ds + ds2,
                        ),
                    }
                } else {
                    (
                        j,
                        Err(perr(toks, ParseErrorType::ExpectRightParenAfterCondition, j)),
                        ds,
                    )
                }
            },
        }
    } else {
        (i, Err(perr(toks, ParseErrorType::ExpectLeftParenAfterWhile, i)), Seq::empty())
    }
}

/// Parses an `if` statement, the keyword already consumed; the `else`
/// branch is optional.
pub open spec fn parse_if_statement(toks: Seq<Token>, i: int) -> StmtParse
    decreases toks.len() - i, 42int,
    when 0 <= i <= toks.len()
{
    if i < toks.len() && tok(toks, i) == TokenType::LeftParen {
        let (j, r, ds) = parse_expression(toks, i + 1);
        match r {
            Err(e) => (j, Err(e), ds),
            Ok(cond) => {
                if i <= j < toks.len() && tok(toks, j) == TokenType::RightParen {
                    let (k, r2, ds2) = parse_statement(toks, j + 1);
                    match r2 {
                        Err(e) => (k, Err(e), ds + ds2),
                        Ok(thenb) => {
                            if j < k < toks.len() && tok(toks, k) == TokenType::Else {
                                let (m, r3, ds3) = parse_statement(toks, k + 1);
                                match r3 {
                                    Err(e) => (m, Err(e), ds + ds2 + ds3),
                                    Ok(elseb) => (
                                        m,
                                        Ok(
                                            StmtView::If {
                                                condition: cond,
                                                then_branch: Box::new(thenb),
                                                else_branch: Some(Box::new(elseb)),
                                            },
                                        ),
                                        ds + ds2 + ds3,
                                    ),
                                }
                            } else {
                                (
                                    k,
                                    Ok(
                                        StmtView::If {
                                            condition: cond,
                                            then_branch: Box::new(thenb),
                                            else_branch: None,
                                        },
                                    ),
                                    ds + ds2,
                                )
                            }
                        },
                    }
                } else {
                    (
                        j,
                        Err(perr(toks, ParseErrorType::ExpectRightParenAfterIfCondition, j)),
                        ds,
                    )
                }
            },
        }
    } else {
        (i, Err(perr(toks, ParseErrorType::ExpectLeftParenAfterIf, i)), Seq::empty())
    }
}

/// Parses a `print` statement, the keyword already consumed.
pub open spec fn parse_print_statement(toks: Seq<Token>, i: int) -> StmtParse
    decreases toks.len() - i, 42int,
    when 0 <= i <= toks.len()
{
    let (j, r, ds) = parse_expression(toks, i);
    match r {
        Err(e) => (j, Err(e), ds),
        Ok(v) => {
            if j < toks.len() && tok(toks, j) == TokenType::Semicolon {
                (j + 1, Ok(StmtView::Print { expression: v }), ds)
            } else {
                (j, Err(perr(toks, ParseErrorType::ExpectSemicolonAfterExpression, j)), ds)
            }
        },
    }
}

/// Parses an expression statement.
pub open spec fn parse_expr_statement(toks: Seq<Token>, i: int) -> StmtParse
    decreases toks.len() - i, 42int,
    when 0 <= i <= toks.len()
{
    let (j, r, ds) = parse_expression(toks, i);
    match r {
        Err(e) => (j, Err(e), ds),
        Ok(v) => {
            if j < toks.len() && tok(toks, j) == TokenType::Semicolon {
                (j + 1, Ok(StmtView::Expression { expression: v }), ds)
            } else {
                (j, Err(perr(toks, ParseErrorType::ExpectSemicolonAfterExpression, j)), ds)
            }
        },
    }
}

/// The initializer clause of a `for`: nothing before an immediate
/// semicolon, a variable declaration after `var`, and otherwise an
/// expression statement.
pub open spec fn parse_for_init(toks: Seq<Token>, j1: int) -> (int, Result<
    Option<StmtView>,
    ParseErrorView,
>, Seq<ParseErrorView>)
    decreases toks.len() - j1, 43int,
    when 0 <= j1 <= toks.len()
{
    if j1 < toks.len() && tok(toks, j1) == TokenType::Semicolon {
        (j1 + 1, Ok(Option::<StmtView>::None), Seq::empty())
    } else if j1 < toks.len() && tok(toks, j1) == TokenType::Var {
        let (a, r, d) = parse_var_declaration(toks, j1 + 1);
        (
            a,
            match r {
                Ok(sv) => Ok(Some(sv)),
                Err(e) => Err(e),
            },
            d,
        )
    } else {
        let (a, r, d) = parse_expr_statement(toks, j1);
        (
            a,
            match r {
                Ok(sv) => Ok(Some(sv)),
                Err(e) => Err(e),
            },
            d,
        )
    }
}

/// The condition clause of a `for`, up to and including its semicolon: the
/// literal `true` when the condition is omitted.
pub open spec fn parse_for_cond(toks: Seq<Token>, j2: int) -> (int, Result<
    ExprView,
    ParseErrorView,
>, Seq<ParseErrorView>)
    decreases toks.len() - j2, 41int,
    when 0 <= j2 <= toks.len()
{
    if j2 < toks.len() && tok(toks, j2) == TokenType::Semicolon {
        (j2 + 1, Ok(ExprView::Literal { value: ValueView::Boolean(true) }), Seq::empty())
    } else {
        let (j3, rc, ds) = parse_expression(toks, j2);
        match rc {
            Err(e) => (j3, Err(e), ds),
            Ok(c) => {
                if j3 < toks.len() && tok(toks, j3) == TokenType::Semicolon {
                    (j3 + 1, Ok(c), ds)
                } else {
                    (
                        j3,
                        Err(perr(toks, ParseErrorType::ExpectSemicolonAfterLoopCondition, j3)),
                        ds,
                    )
                }
            },
        }
    }
}

/// The increment clause of a `for`, up to and including the closing
/// parenthesis: nothing when the increment is omitted.
pub open spec fn parse_for_incr(toks: Seq<Token>, j4: int) -> (int, Result<
    Option<ExprView>,
    ParseErrorView,
>, Seq<ParseErrorView>)
    decreases toks.len() - j4, 41int,
    when 0 <= j4 <= toks.len()
{
    if j4 < toks.len() && tok(toks, j4) == TokenType::RightParen {
        (j4 + 1, Ok(Option::<ExprView>::None), Seq::empty())
    } else {
        let (j5, ri, ds) = parse_expression(toks, j4);
        match ri {
            Err(e) => (j5, Err(e), ds),
            Ok(x) => {
                if j5 < toks.len() && tok(toks, j5) == TokenType::RightParen {
                    (j5 + 1, Ok(Some(x)), ds)
                } else {
                    (
                        j5,
                        Err(perr(toks, ParseErrorType::ExpectRightParenAfterForClauses, j5)),
                        ds,
                    )
                }
            },
        }
    }
}

/// The desugared form of a `for`: the increment joins the body in a block,
/// the loop becomes a `while`, and the initializer precedes it in a block;
/// each block is omitted when its clause is.
pub open spec fn for_desugared(
    init: Option<StmtView>,
    cond: ExprView,
    incr: Option<ExprView>,
    bodyv: StmtView,
) -> StmtView {
    let body1 = match incr {
        Some(x) => StmtView::Block {
            statements: seq![bodyv, StmtView::Expression { expression: x }],
        },
        None => bodyv,
    };
    let w = StmtView::While { condition: cond, body: Box::new(body1) };
    match init {
        Some(s0) => StmtView::Block { statements: seq![s0, w] },
        None => w,
    }
}

/// The body of a `for` and the assembly of its desugared form.
pub open spec fn parse_for_body(
    toks: Seq<Token>,
    j6: int,
    init: Option<StmtView>,
    cond: ExprView,
    incr: Option<ExprView>,
) -> StmtParse
    decreases toks.len() - j6, 45int,
    when 0 <= j6 <= toks.len()
{
    let (j7, rb, ds) = parse_statement(toks, j6);
    match rb {
        Err(e) => (j7, Err(e), ds),
        Ok(bodyv) => (j7, Ok(for_desugared(init, cond, incr, bodyv)), ds),
    }
}

/// Parses a `for` statement, the keyword already consumed, desugaring it
/// into a `while` as [`for_desugared`] prescribes: a pure parse-time
/// rewriting, no `for` node exists in the tree.
pub open spec fn parse_for_statement(toks: Seq<Token>, i: int) -> StmtParse
    decreases toks.len() - i, 42int,
    when 0 <= i <= toks.len()
{
    if i < toks.len() && tok(toks, i) == TokenType::LeftParen {
        let (j2, ri, ds1) = parse_for_init(toks, i + 1);
        match ri {
            Err(e) => (j2, Err(e), ds1),
            Ok(init) => {
                if i < j2 <= toks.len() {
                    let (j4, rc, ds2) = parse_for_cond(toks, j2);
                    match rc {
                        Err(e) => (j4, Err(e), ds1 + ds2),
                        Ok(cond) => {
                            if i < j4 <= toks.len() {
                                let (j6, rinc, ds3) = parse_for_incr(toks, j4);
                                match rinc {
                                    Err(e) => (j6, Err(e), ds1 + ds2 + ds3),
                                    Ok(incr) => {
                                        if i < j6 <= toks.len() {
                                            let (j7, rb, ds4) = parse_for_body(
                                                toks,
                                                j6,
                                                init,
                                                cond,
                                                incr,
                                            );
                                            (j7, rb, ds1 + ds2 + ds3 + ds4)
                                        } else {
                                            (
                                                j6,
                                                Err(
                                                    perr(
                                                        toks,
                                                        ParseErrorType::ExpectRightParenAfterForClauses,
                                                        j6,
                                                    ),
                                                ),
                                                ds1 + ds2 + ds3,
                                            )
                                        }
                                    },
                                }
                            } else {
                                (
                                    j4,
                                    Err(
                                        perr(
                                            toks,
                                            ParseErrorType::ExpectSemicolonAfterLoopCondition,
                                            j4,
                                        ),
                                    ),
                                    ds1 + ds2,
                                )
                            }
                        },
                    }
                } else {
                    (
                        j2,
                        Err(perr(toks, ParseErrorType::ExpectSemicolonAfterLoopCondition, j2)),
                        ds1,
                    )
                }
            },
        }
    } else {
        (i, Err(perr(toks, ParseErrorType::ExpectLeftParenAfterFor, i)), Seq::empty())
    }
}

/// Parses the statements of a brace-delimited block up to and including the
/// closing brace, the opening brace already consumed; each malformed
/// statement inside is discarded with a diagnostic.
pub open spec fn parse_block_items(toks: Seq<Token>, j: int) -> (int, Result<
    Seq<StmtView>,
    ParseErrorView,
>, Seq<ParseErrorView>)
    decreases toks.len() - j, 48int,
    when 0 <= j <= toks.len()
{
    if j < toks.len() && tok(toks, j) != TokenType::RightBrace && tok(toks, j) != TokenType::EoF {
        let (k, o, ds) = parse_declaration(toks, j);
        if j < k <= toks.len() {
            let (m, r2, ds2) = parse_block_items(toks, k);
            (
                m,
                match r2 {
                    Ok(rest) => Ok(
                        match o {
                            Some(sv) => seq![sv] + rest,
                            None => rest,
                        },
                    ),
                    Err(e) => Err(e),
                },
                ds + ds2,
            )
        } else {
            (
                k,
                Ok(
                    match o {
                        Some(sv) => seq![sv],
                        None => Seq::empty(),
                    },
                ),
                ds,
            )
        }
    } else {
        if j < toks.len() && tok(toks, j) == TokenType::RightBrace {
            (j + 1, Ok(Seq::<StmtView>::empty()), Seq::empty())
        } else {
            (j, Err(perr(toks, ParseErrorType::ExpectRightBraceAfterBlock, j)), Seq::empty())
        }
    }
}

/// Parses one statement, dispatching on its leading keyword.
pub open spec fn parse_statement(toks: Seq<Token>, i: int) -> StmtParse
    decreases toks.len() - i, 44int,
    when 0 <= i <= toks.len()
{
    if i < toks.len() && tok(toks, i) == TokenType::For {
        parse_for_statement(toks, i + 1)
    } else if i < toks.len() && tok(toks, i) == TokenType::If {
        parse_if_statement(toks, i + 1)
    } else if i < toks.len() && tok(toks, i) == TokenType::Print {
        parse_print_statement(toks, i + 1)
    } else if i < toks.len() && tok(toks, i) == TokenType::While {
        parse_while_statement(toks, i + 1)
    } else if i < toks.len() && tok(toks, i) == TokenType::LeftBrace {
        let (j, r, ds) = parse_block_items(toks, i + 1);
        (
            j,
            match r {
                Ok(items) => Ok(StmtView::Block { statements: items }),
                Err(e) => Err(e),
            },
            ds,
        )
    } else {
        parse_expr_statement(toks, i)
    }
}

/// Parses one declaration or statement; a malformed one is discarded: its
/// diagnostic is appended and tokens are dropped up to a statement
/// boundary.
pub open spec fn parse_declaration(toks: Seq<Token>, i: int) -> (int, Option<StmtView>, Seq<
    ParseErrorView,
>)
    decreases toks.len() - i, 46int,
    when 0 <= i <= toks.len()
{
    let (j, r, ds) = if i < toks.len() && tok(toks, i) == TokenType::Var {
        parse_var_declaration(toks, i + 1)
    } else {
        parse_statement(toks, i)
    };
    match r {
        Ok(sv) => (j, Some(sv), ds),
        Err(e) => {
            let k = if 0 <= j <= toks.len() {
                parse_sync(toks, j)
            } else {
                j
            };
            (k, None, ds + seq![e])
        },
    }
}

/// Parses a whole program from a position: the statements that parse
/// successfully, in source order, and one diagnostic per discarded
/// statement, stopping at the end-of-input token.
pub open spec fn parse_program_items(toks: Seq<Token>, j: int) -> (int, Seq<StmtView>, Seq<
    ParseErrorView,
>)
    decreases toks.len() - j, 50int,
    when 0 <= j <= toks.len()
{
    if j < toks.len() && tok(toks, j) != TokenType::EoF {
        let (k, o, ds) = parse_declaration(toks, j);
        if j < k <= toks.len() {
            let (m, items, ds2) = parse_program_items(toks, k);
            (
                m,
                match o {
                    Some(sv) => seq![sv] + items,
                    None => items,
                },
                ds + ds2,
            )
        } else {
            (
                k,
                match o {
                    Some(sv) => seq![sv],
                    None => Seq::empty(),
                },
                ds,
            )
        }
    } else {
        (j, Seq::empty(), Seq::empty())
    }
}

/// The parser's working state: the token sequence, the position of the next
/// token to consider, and the diagnostics for the statements discarded so
/// far.
pub struct Parser {
    pub tokens: Vec<Token>,
    pub current: usize,
    pub errors: Vec<ParseError>,
}

impl Parser {
    /// The parser's working invariant: the position stays inside the token
    /// sequence, whose last token marks the end of the input.
    pub open spec fn wf(&self) -> bool {
        &&& 0 < self.tokens@.len()
        &&& self.current < self.tokens@.len()
        &&& self.tokens@.last().token_type == TokenType::EoF
    }

    /// The kind of the next token to consider.
    pub open spec fn peek_type(&self) -> TokenType {
        self.tokens@[self.current as int].token_type
    }

    /// A parser at the start of a token sequence, which must end with an
    /// end-of-input token, as the scanner guarantees.
    pub fn new(tokens: Vec<Token>) -> (p: Parser)
        requires
            0 < tokens@.len(),
            tokens@.last().token_type == TokenType::EoF,
        ensures
            p.tokens@ == tokens@,
            p.current == 0,
            p.errors@.len() == 0,
            p.wf(),
    {
        Parser { tokens, current: 0, errors: Vec::new() }
    }

    /// Whether the next token marks the end of the input.
    fn is_at_end(&self) -> (r: bool)
        requires
            self.wf(),
        ensures
            r == (self.peek_type() == TokenType::EoF),
    {
        self.peek().token_type == TokenType::EoF
    }

    /// The next token, without consuming it.
    fn peek(&self) -> (t: &Token)
        requires
            self.wf(),
        ensures
            *t == self.tokens@[self.current as int],
    {
        &self.tokens[self.current]
    }

    /// The most recently consumed token.
    fn previous(&self) -> (t: &Token)
        requires
            self.wf(),
            0 < self.current,
        ensures
            *t == self.tokens@[self.current as int - 1],
    {
        &self.tokens[self.current - 1]
    }

    /// Consumes the next token unless the end of the input was reached.
    fn advance(&mut self)
        requires
            old(self).wf(),
        ensures
            final(self).tokens@ == old(self).tokens@,
            final(self).errors@ == old(self).errors@,
            final(self).wf(),
            final(self).current as int == if old(self).peek_type() == TokenType::EoF {
                old(self).current as int
            } else {
                old(self).current as int + 1
            },
    {
        if !self.is_at_end() {
            let n = self.tokens.len();
            proof {
                assert(self.current as int != self.tokens@.len() - 1);
            }
            assert(self.current < n);
            self.current = self.current + 1;
        }
    }

    /// Whether the next token has the given kind; never true at the end of
    /// the input.
    fn check(&self, token_type: TokenType) -> (r: bool)
        requires
            self.wf(),
        ensures
            r == (self.peek_type() != TokenType::EoF && self.peek_type() == token_type),
    {
        if self.is_at_end() {
            false
        } else {
            self.peek().token_type == token_type
        }
    }

    /// Consumes the next token exactly when its kind is among the given
    /// ones.
    fn match_token_type(&mut self, token_types: &[TokenType]) -> (r: bool)
        requires
            old(self).wf(),
        ensures
            final(self).tokens@ == old(self).tokens@,
            final(self).errors@ == old(self).errors@,
            final(self).wf(),
            r == (old(self).peek_type() != TokenType::EoF && token_types@.contains(
                old(self).peek_type(),
            )),
            final(self).current as int == if r {
                old(self).current as int + 1
            } else {
                old(self).current as int
            },
    {
        let n = token_types.len();
        let mut k: usize = 0;
        while k < n
            invariant
                *self == *old(self),
                self.wf(),
                n == token_types@.len(),
                0 <= k <= n,
                old(self).peek_type() != TokenType::EoF ==> forall|j: int|
                    0 <= j < k ==> token_types@[j] != old(self).peek_type(),
            decreases n - k,
        {
            if self.check(token_types[k]) {
                self.advance();
                return true;
            }
            proof {
                if old(self).peek_type() != TokenType::EoF {
                    assert(token_types@[k as int] != old(self).peek_type());
                }
            }
            k = k + 1;
        }
        false
    }

    /// Consumes the next token when it has the given kind, and otherwise
    /// reports the given cause at the offending token, consuming nothing.
    fn consume(&mut self, token_type: TokenType, parse_error_type: ParseErrorType) -> (r: Result<
        Token,
        ParseError,
    >)
        requires
            old(self).wf(),
        ensures
            final(self).tokens@ == old(self).tokens@,
            final(self).errors@ == old(self).errors@,
            final(self).wf(),
            r matches Ok(t) ==> old(self).peek_type() != TokenType::EoF && old(self).peek_type()
                == token_type && t@ == old(self).tokens@[old(self).current as int]@
                && final(self).current as int == old(self).current as int + 1,
            r matches Err(e) ==> !(old(self).peek_type() != TokenType::EoF && old(self).peek_type()
                == token_type) && e@ == (ParseErrorView {
                parse_error_type,
                token: old(self).tokens@[old(self).current as int]@,
            }) && final(self).current == old(self).current,
    {
        if self.check(token_type) {
            let t = self.peek().clone();
            self.advance();
            Ok(t)
        } else {
            Err(ParseError { parse_error_type, token: self.peek().clone() })
        }
    }

    /// Discards tokens until a statement boundary: just past a semicolon, or
    /// just before a keyword that begins a statement. This bounds the damage
    /// of one malformed statement.
    fn synchronize(&mut self)
        requires
            old(self).wf(),
        ensures
            final(self).tokens@ == old(self).tokens@,
            final(self).errors@ == old(self).errors@,
            final(self).wf(),
            old(self).current <= final(self).current,
            old(self).peek_type() != TokenType::EoF ==> old(self).current < final(self).current,
            final(self).current as int == parse_sync(old(self).tokens@, old(self).current as int),
    {
        if self.is_at_end() {
            return ;
        }
        self.advance();
        while !self.is_at_end()
            invariant
                self.wf(),
                self.tokens@ == old(self).tokens@,
                self.errors@ == old(self).errors@,
                old(self).current < self.current,
                1 <= self.current,
                parse_sync(old(self).tokens@, old(self).current as int) == parse_sync_scan(
                    self.tokens@,
                    self.current as int,
                ),
            decreases self.tokens@.len() - self.current,
        {
            if self.previous().token_type == TokenType::Semicolon {
                return ;
            }
            let t = self.peek().token_type;
            match t {
                TokenType::Class | TokenType::Fun | TokenType::Var | TokenType::For | TokenType::If
                    | TokenType::While | TokenType::Print | TokenType::Return => {
                    return ;
                },
                _ => {},
            }
            self.advance();
        }
    }

    /// Parses one expression: the comma level is the lowest precedence.
    fn expression(&mut self) -> (r: Result<Expr, ParseError>)
        requires
            old(self).wf(),
        ensures
            final(self).tokens@ == old(self).tokens@,
            final(self).wf(),
            old(self).current <= final(self).current,
            r matches Ok(e) ==> wf_expr(e) && old(self).current < final(self).current,
            ({
                let (j, pr, ds) = parse_expression(old(self).tokens@, old(self).current as int);
                &&& final(self).current as int == j
                &&& parse_error_views(final(self).errors@) == parse_error_views(old(self).errors@)
                    + ds
                &&& (match (r, pr) {
                    (Ok(e), Ok(ev)) => expr_view(e) == ev,
                    (Err(pe), Err(ev)) => pe@ == ev,
                    _ => false,
                })
            }),
        decreases old(self).tokens@.len() - old(self).current, 12int,
    {
        broadcast use lemma_errs_concat_assoc, lemma_errs_concat_empty, lemma_parse_error_views_push;

        self.comma()
    }

    /// The comma operator: left-associative, lowest precedence.
    #[verifier::spinoff_prover]
    #[verifier::rlimit(100)]
    fn comma(&mut self) -> (r: Result<Expr, ParseError>)
        requires
            old(self).wf(),
        ensures
            final(self).tokens@ == old(self).tokens@,
            final(self).wf(),
            old(self).current <= final(self).current,
            r matches Ok(e) ==> wf_expr(e) && old(self).current < final(self).current,
            ({
                let (j, pr, ds) = parse_comma(old(self).tokens@, old(self).current as int);
                &&& final(self).current as int == j
                &&& parse_error_views(final(self).errors@) == parse_error_views(old(self).errors@)
                    + ds
                &&& (match (r, pr) {
                    (Ok(e), Ok(ev)) => expr_view(e) == ev,
                    (Err(pe), Err(ev)) => pe@ == ev,
                    _ => false,
                })
            }),
        decreases old(self).tokens@.len() - old(self).current, 11int,
    {
        broadcast use lemma_errs_concat_assoc, lemma_errs_concat_empty, lemma_parse_error_views_push;

        let ghost toks = self.tokens@;
        let ghost i0 = old(self).current as int;
        let mut expr = match self.assignment() {
            Ok(v) => v,
            Err(e) => {
                return Err(e);
            },
        };
        while self.match_token_type(&[TokenType::Comma])
            invariant
                self.wf(),
                self.tokens@ == toks,
                toks == old(self).tokens@,
                i0 == old(self).current as int,
                0 <= i0 < self.current,
                wf_expr(expr),
                parse_comma(toks, i0).0 == parse_comma_more(toks, self.current as int, expr_view(expr)).0,
                parse_comma(toks, i0).1 == parse_comma_more(toks, self.current as int, expr_view(expr)).1,
                parse_error_views(old(self).errors@) + parse_comma(toks, i0).2 == parse_error_views(
                    self.errors@,
                ) + parse_comma_more(toks, self.current as int, expr_view(expr)).2,
            decreases toks.len() - self.current,
        {
            broadcast use lemma_errs_concat_assoc, lemma_errs_concat_empty, lemma_parse_error_views_push;

            let ghost cur1 = self.current as int;
            let ghost acc0 = expr_view(expr);
            let right = match self.assignment() {
                Ok(v) => v,
                Err(e) => {
                    proof {
                        let step = parse_assignment(toks, cur1);
                        assert(parse_comma_more(toks, cur1 - 1, acc0) == (
                            step.0,
                            step.1,
                            step.2,
                        ));
                    }
                    return Err(e);
                },
            };
            let ghost rv = expr_view(right);
            expr = Expr::Comma { left: Box::new(expr), right: Box::new(right) };
            proof {
                assert(expr_view(expr) == (ExprView::Comma {
                    left: Box::new(acc0),
                    right: Box::new(rv),
                }));
                let step = parse_assignment(toks, cur1);
                assert(parse_comma_more(toks, cur1 - 1, acc0) == ({
                    let (m2, r2, ds2) = parse_comma_more(toks, step.0, expr_view(expr));
                    (m2, r2, step.2 + ds2)
                }));
            }
        }
        proof {
            assert(parse_comma_more(toks, self.current as int, expr_view(expr)) == (
                self.current as int,
                Ok::<ExprView, ParseErrorView>(expr_view(expr)),
                Seq::<ParseErrorView>::empty(),
            ));
        }
        Ok(expr)
    }

    /// Assignment: right-associative; only a bare variable reference is a
    /// legal target, and any other target is reported while parsing
    /// continues with the already-parsed right-hand side.
    #[verifier::spinoff_prover]
    #[verifier::rlimit(100)]
    fn assignment(&mut self) -> (r: Result<Expr, ParseError>)
        requires
            old(self).wf(),
        ensures
            final(self).tokens@ == old(self).tokens@,
            final(self).wf(),
            old(self).current <= final(self).current,
            r matches Ok(e) ==> wf_expr(e) && old(self).current < final(self).current,
            ({
                let (j, pr, ds) = parse_assignment(old(self).tokens@, old(self).current as int);
                &&& final(self).current as int == j
                &&& parse_error_views(final(self).errors@) == parse_error_views(old(self).errors@)
                    + ds
                &&& (match (r, pr) {
                    (Ok(e), Ok(ev)) => expr_view(e) == ev,
                    (Err(pe), Err(ev)) => pe@ == ev,
                    _ => false,
                })
            }),
        decreases old(self).tokens@.len() - old(self).current, 10int,
    {
        broadcast use lemma_errs_concat_assoc, lemma_errs_concat_empty, lemma_parse_error_views_push;

        let expr = self.ternary()?;
        if self.match_token_type(&[TokenType::Equal]) {
            let equals = self.previous().clone();
            let value = self.ternary()?;
            match expr {
                Expr::Variable { token } => Ok(
                    Expr::Assign { name: token, value: Box::new(value) },
                ),
                _ => {
                    // not a bare variable: record the diagnostic and continue
                    // with the already-parsed right-hand side as the value
                    self.errors.push(
                        ParseError {
                            parse_error_type: ParseErrorType::InvalidAssignment,
                            token: equals,
                        },
                    );
                    Ok(value)
                },
            }
        } else {
            Ok(expr)
        }
    }

    /// The conditional operator `?:`, right-associative.
    #[verifier::spinoff_prover]
    #[verifier::rlimit(100)]
    fn ternary(&mut self) -> (r: Result<Expr, ParseError>)
        requires
            old(self).wf(),
        ensures
            final(self).tokens@ == old(self).tokens@,
            final(self).wf(),
            old(self).current <= final(self).current,
            r matches Ok(e) ==> wf_expr(e) && old(self).current < final(self).current,
            ({
                let (j, pr, ds) = parse_ternary(old(self).tokens@, old(self).current as int);
                &&& final(self).current as int == j
                &&& parse_error_views(final(self).errors@) == parse_error_views(old(self).errors@)
                    + ds
                &&& (match (r, pr) {
                    (Ok(e), Ok(ev)) => expr_view(e) == ev,
                    (Err(pe), Err(ev)) => pe@ == ev,
                    _ => false,
                })
            }),
        decreases old(self).tokens@.len() - old(self).current, 9int,
    {
        broadcast use lemma_errs_concat_assoc, lemma_errs_concat_empty, lemma_parse_error_views_push;

        let expr = self.or()?;
        if self.match_token_type(&[TokenType::QuestionMark]) {
            let left = self.expression()?;
            let colon = self.consume(TokenType::Colon, ParseErrorType::ExpectColon);
            match colon {
                Ok(_) => {},
                Err(e) => {
                    return Err(e);
                },
            }
            let right = self.ternary()?;
            Ok(
                Expr::Ternary {
                    condition: Box::new(expr),
                    left: Box::new(left),
                    right: Box::new(right),
                },
            )
        } else {
            Ok(expr)
        }
    }

    /// Logical or: short-circuiting disjunction, left-associative.
    #[verifier::spinoff_prover]
    #[verifier::rlimit(100)]
    fn or(&mut self) -> (r: Result<Expr, ParseError>)
        requires
            old(self).wf(),
        ensures
            final(self).tokens@ == old(self).tokens@,
            final(self).wf(),
            old(self).current <= final(self).current,
            r matches Ok(e) ==> wf_expr(e) && old(self).current < final(self).current,
            ({
                let (j, pr, ds) = parse_or(old(self).tokens@, old(self).current as int);
                &&& final(self).current as int == j
                &&& parse_error_views(final(self).errors@) == parse_error_views(old(self).errors@)
                    + ds
                &&& (match (r, pr) {
                    (Ok(e), Ok(ev)) => expr_view(e) == ev,
                    (Err(pe), Err(ev)) => pe@ == ev,
                    _ => false,
                })
            }),
        decreases old(self).tokens@.len() - old(self).current, 8int,
    {
        broadcast use lemma_errs_concat_assoc, lemma_errs_concat_empty, lemma_parse_error_views_push;

        let ghost toks = self.tokens@;
        let ghost i0 = old(self).current as int;
        let mut expr = match self.and() {
            Ok(v) => v,
            Err(e) => {
                return Err(e);
            },
        };
        while self.match_token_type(&[TokenType::Or])
            invariant
                self.wf(),
                self.tokens@ == toks,
                toks == old(self).tokens@,
                i0 == old(self).current as int,
                0 <= i0 < self.current,
                wf_expr(expr),
                parse_or(toks, i0).0 == parse_or_more(toks, self.current as int, expr_view(expr)).0,
                parse_or(toks, i0).1 == parse_or_more(toks, self.current as int, expr_view(expr)).1,
                parse_error_views(old(self).errors@) + parse_or(toks, i0).2 == parse_error_views(
                    self.errors@,
                ) + parse_or_more(toks, self.current as int, expr_view(expr)).2,
            decreases toks.len() - self.current,
        {
            broadcast use lemma_errs_concat_assoc, lemma_errs_concat_empty, lemma_parse_error_views_push;

            let ghost cur1 = self.current as int;
            let ghost acc0 = expr_view(expr);
            let operator = self.previous().clone();
            let right = match self.and() {
                Ok(v) => v,
                Err(e) => {
                    proof {
                        let step = parse_and(toks, cur1);
                        assert(parse_or_more(toks, cur1 - 1, acc0) == (step.0, step.1, step.2));
                    }
                    return Err(e);
                },
            };
            let ghost rv = expr_view(right);
            expr = Expr::Logical { left: Box::new(expr), operator, right: Box::new(right) };
            proof {
                assert(expr_view(expr) == (ExprView::Logical {
                    left: Box::new(acc0),
                    operator: toks[cur1 - 1]@,
                    right: Box::new(rv),
                }));
                let step = parse_and(toks, cur1);
                assert(parse_or_more(toks, cur1 - 1, acc0) == ({
                    let (m2, r2, ds2) = parse_or_more(toks, step.0, expr_view(expr));
                    (m2, r2, step.2 + ds2)
                }));
            }
        }
        proof {
            assert(parse_or_more(toks, self.current as int, expr_view(expr)) == (
                self.current as int,
                Ok::<ExprView, ParseErrorView>(expr_view(expr)),
                Seq::<ParseErrorView>::empty(),
            ));
        }
        Ok(expr)
    }

    /// Logical and: short-circuiting conjunction, left-associative.
    #[verifier::spinoff_prover]
    #[verifier::rlimit(100)]
    fn and(&mut self) -> (r: Result<Expr, ParseError>)
        requires
            old(self).wf(),
        ensures
            final(self).tokens@ == old(self).tokens@,
            final(self).wf(),
            old(self).current <= final(self).current,
            r matches Ok(e) ==> wf_expr(e) && old(self).current < final(self).current,
            ({
                let (j, pr, ds) = parse_and(old(self).tokens@, old(self).current as int);
                &&& final(self).current as int == j
                &&& parse_error_views(final(self).errors@) == parse_error_views(old(self).errors@)
                    + ds
                &&& (match (r, pr) {
                    (Ok(e), Ok(ev)) => expr_view(e) == ev,
                    (Err(pe), Err(ev)) => pe@ == ev,
                    _ => false,
                })
            }),
        decreases old(self).tokens@.len() - old(self).current, 7int,
    {
        broadcast use lemma_errs_concat_assoc, lemma_errs_concat_empty, lemma_parse_error_views_push;

        let ghost toks = self.tokens@;
        let ghost i0 = old(self).current as int;
        let mut expr = match self.equality() {
            Ok(v) => v,
            Err(e) => {
                return Err(e);
            },
        };
        while self.match_token_type(&[TokenType::And])
            invariant
                self.wf(),
                self.tokens@ == toks,
                toks == old(self).tokens@,
                i0 == old(self).current as int,
                0 <= i0 < self.current,
                wf_expr(expr),
                parse_and(toks, i0).0 == parse_and_more(toks, self.current as int, expr_view(expr)).0,
                parse_and(toks, i0).1 == parse_and_more(toks, self.current as int, expr_view(expr)).1,
                parse_error_views(old(self).errors@) + parse_and(toks, i0).2 == parse_error_views(
                    self.errors@,
                ) + parse_and_more(toks, self.current as int, expr_view(expr)).2,
            decreases toks.len() - self.current,
        {
            let ghost cur1 = self.current as int;
            let ghost acc0 = expr_view(expr);
            let ghost pev_entry = parse_error_views(self.errors@);
            let operator = self.previous().clone();
            let right = match self.equality() {
                Ok(v) => v,
                Err(e) => {
                    proof {
                        let step = parse_equality(toks, cur1);
                        assert(parse_and_more(toks, cur1 - 1, acc0) == (step.0, step.1, step.2));
                    }
                    return Err(e);
                },
            };
            let ghost rv = expr_view(right);
            proof {
                let step = parse_equality(toks, cur1);
                assert(cur1 - 1 < step.0 <= toks.len());
            }
            expr = Expr::Logical { left: Box::new(expr), operator, right: Box::new(right) };
            proof {
                assert(expr_view(expr) == (ExprView::Logical {
                    left: Box::new(acc0),
                    operator: toks[cur1 - 1]@,
                    right: Box::new(rv),
                }));
                let step = parse_equality(toks, cur1);
                assert(parse_and_more(toks, cur1 - 1, acc0) == ({
                    let (m2, r2, ds2) = parse_and_more(toks, step.0, expr_view(expr));
                    (m2, r2, step.2 + ds2)
                }));
                lemma_errs_concat_assoc(
                    pev_entry,
                    step.2,
                    parse_and_more(toks, step.0, expr_view(expr)).2,
                );
            }
        }
        proof {
            assert(parse_and_more(toks, self.current as int, expr_view(expr)) == (
                self.current as int,
                Ok::<ExprView, ParseErrorView>(expr_view(expr)),
                Seq::<ParseErrorView>::empty(),
            ));
        }
        Ok(expr)
    }

    /// Equality operators, left-associative.
    #[verifier::spinoff_prover]
    #[verifier::rlimit(100)]
    fn equality(&mut self) -> (r: Result<Expr, ParseError>)
        requires
            old(self).wf(),
        ensures
            final(self).tokens@ == old(self).tokens@,
            final(self).wf(),
            old(self).current <= final(self).current,
            r matches Ok(e) ==> wf_expr(e) && old(self).current < final(self).current,
            ({
                let (j, pr, ds) = parse_equality(old(self).tokens@, old(self).current as int);
                &&& final(self).current as int == j
                &&& parse_error_views(final(self).errors@) == parse_error_views(old(self).errors@)
                    + ds
                &&& (match (r, pr) {
                    (Ok(e), Ok(ev)) => expr_view(e) == ev,
                    (Err(pe), Err(ev)) => pe@ == ev,
                    _ => false,
                })
            }),
        decreases old(self).tokens@.len() - old(self).current, 6int,
    {
        broadcast use lemma_errs_concat_assoc, lemma_errs_concat_empty, lemma_parse_error_views_push;

        let ghost toks = self.tokens@;
        let ghost i0 = old(self).current as int;
        let mut expr = match self.comparison() {
            Ok(v) => v,
            Err(e) => {
                return Err(e);
            },
        };
        while self.match_token_type(&[TokenType::BangEqual, TokenType::EqualEqual])
            invariant
                self.wf(),
                self.tokens@ == toks,
                toks == old(self).tokens@,
                i0 == old(self).current as int,
                0 <= i0 < self.current,
                wf_expr(expr),
                parse_equality(toks, i0).0 == parse_equality_more(toks, self.current as int, expr_view(expr)).0,
                parse_equality(toks, i0).1 == parse_equality_more(toks, self.current as int, expr_view(expr)).1,
                parse_error_views(old(self).errors@) + parse_equality(toks, i0).2 == parse_error_views(
                    self.errors@,
                ) + parse_equality_more(toks, self.current as int, expr_view(expr)).2,
            decreases toks.len() - self.current,
        {
            broadcast use lemma_errs_concat_assoc, lemma_errs_concat_empty, lemma_parse_error_views_push;

            let ghost cur1 = self.current as int;
            let ghost acc0 = expr_view(expr);
            let operator = self.previous().clone();
            let right = match self.comparison() {
                Ok(v) => v,
                Err(e) => {
                    proof {
                        let step = parse_comparison(toks, cur1);
                        assert(parse_equality_more(toks, cur1 - 1, acc0) == (step.0, step.1, step.2));
                    }
                    return Err(e);
                },
            };
            let ghost rv = expr_view(right);
            expr = Expr::Binary { left: Box::new(expr), operator, right: Box::new(right) };
            proof {
                assert(expr_view(expr) == (ExprView::Binary {
                    left: Box::new(acc0),
                    operator: toks[cur1 - 1]@,
                    right: Box::new(rv),
                }));
                let step = parse_comparison(toks, cur1);
                assert(parse_equality_more(toks, cur1 - 1, acc0) == ({
                    let (m2, r2, ds2) = parse_equality_more(toks, step.0, expr_view(expr));
                    (m2, r2, step.2 + ds2)
                }));
            }
        }
        proof {
            assert(parse_equality_more(toks, self.current as int, expr_view(expr)) == (
                self.current as int,
                Ok::<ExprView, ParseErrorView>(expr_view(expr)),
                Seq::<ParseErrorView>::empty(),
            ));
        }
        Ok(expr)
    }

    /// Comparison operators, left-associative.
    #[verifier::spinoff_prover]
    #[verifier::rlimit(100)]
    fn comparison(&mut self) -> (r: Result<Expr, ParseError>)
        requires
            old(self).wf(),
        ensures
            final(self).tokens@ == old(self).tokens@,
            final(self).wf(),
            old(self).current <= final(self).current,
            r matches Ok(e) ==> wf_expr(e) && old(self).current < final(self).current,
            ({
                let (j, pr, ds) = parse_comparison(old(self).tokens@, old(self).current as int);
                &&& final(self).current as int == j
                &&& parse_error_views(final(self).errors@) == parse_error_views(old(self).errors@)
                    + ds
                &&& (match (r, pr) {
                    (Ok(e), Ok(ev)) => expr_view(e) == ev,
                    (Err(pe), Err(ev)) => pe@ == ev,
                    _ => false,
                })
            }),
        decreases old(self).tokens@.len() - old(self).current, 5int,
    {
        broadcast use lemma_errs_concat_assoc, lemma_errs_concat_empty, lemma_parse_error_views_push;

        let ghost toks = self.tokens@;
        let ghost i0 = old(self).current as int;
        let mut expr = match self.term() {
            Ok(v) => v,
            Err(e) => {
                return Err(e);
            },
        };
        while self.match_token_type(
            &[TokenType::Greater, TokenType::GreaterEqual, TokenType::Less, TokenType::LessEqual],
        )
            invariant
                self.wf(),
                self.tokens@ == toks,
                toks == old(self).tokens@,
                i0 == old(self).current as int,
                0 <= i0 < self.current,
                wf_expr(expr),
                parse_comparison(toks, i0).0 == parse_comparison_more(
                    toks,
                    self.current as int,
                    expr_view(expr),
                ).0,
                parse_comparison(toks, i0).1 == parse_comparison_more(
                    toks,
                    self.current as int,
                    expr_view(expr),
                ).1,
                parse_error_views(old(self).errors@) + parse_comparison(toks, i0).2
                    == parse_error_views(self.errors@) + parse_comparison_more(
                    toks,
                    self.current as int,
                    expr_view(expr),
                ).2,
            decreases toks.len() - self.current,
        {
            broadcast use lemma_errs_concat_assoc, lemma_errs_concat_empty, lemma_parse_error_views_push;

            let ghost cur1 = self.current as int;
            let ghost acc0 = expr_view(expr);
            let operator = self.previous().clone();
            let right = match self.term() {
                Ok(v) => v,
                Err(e) => {
                    proof {
                        let step = parse_term(toks, cur1);
                        assert(parse_comparison_more(toks, cur1 - 1, acc0) == (step.0, step.1, step.2));
                    }
                    return Err(e);
                },
            };
            let ghost rv = expr_view(right);
            expr = Expr::Binary { left: Box::new(expr), operator, right: Box::new(right) };
            proof {
                assert(expr_view(expr) == (ExprView::Binary {
                    left: Box::new(acc0),
                    operator: toks[cur1 - 1]@,
                    right: Box::new(rv),
                }));
                let step = parse_term(toks, cur1);
                assert(parse_comparison_more(toks, cur1 - 1, acc0) == ({
                    let (m2, r2, ds2) = parse_comparison_more(toks, step.0, expr_view(expr));
                    (m2, r2, step.2 + ds2)
                }));
            }
        }
        proof {
            assert(parse_comparison_more(toks, self.current as int, expr_view(expr)) == (
                self.current as int,
                Ok::<ExprView, ParseErrorView>(expr_view(expr)),
                Seq::<ParseErrorView>::empty(),
            ));
        }
        Ok(expr)
    }

    /// Additive operators, left-associative.
    #[verifier::spinoff_prover]
    #[verifier::rlimit(100)]
    fn term(&mut self) -> (r: Result<Expr, ParseError>)
        requires
            old(self).wf(),
        ensures
            final(self).tokens@ == old(self).tokens@,
            final(self).wf(),
            old(self).current <= final(self).current,
            r matches Ok(e) ==> wf_expr(e) && old(self).current < final(self).current,
            ({
                let (j, pr, ds) = parse_term(old(self).tokens@, old(self).current as int);
                &&& final(self).current as int == j
                &&& parse_error_views(final(self).errors@) == parse_error_views(old(self).errors@)
                    + ds
                &&& (match (r, pr) {
                    (Ok(e), Ok(ev)) => expr_view(e) == ev,
                    (Err(pe), Err(ev)) => pe@ == ev,
                    _ => false,
                })
            }),
        decreases old(self).tokens@.len() - old(self).current, 4int,
    {
        broadcast use lemma_errs_concat_assoc, lemma_errs_concat_empty, lemma_parse_error_views_push;

        let ghost toks = self.tokens@;
        let ghost i0 = old(self).current as int;
        let mut expr = match self.factor() {
            Ok(v) => v,
            Err(e) => {
                return Err(e);
            },
        };
        while self.match_token_type(&[TokenType::Minus, TokenType::Plus])
            invariant
                self.wf(),
                self.tokens@ == toks,
                toks == old(self).tokens@,
                i0 == old(self).current as int,
                0 <= i0 < self.current,
                wf_expr(expr),
                parse_term(toks, i0).0 == parse_term_more(toks, self.current as int, expr_view(expr)).0,
                parse_term(toks, i0).1 == parse_term_more(toks, self.current as int, expr_view(expr)).1,
                parse_error_views(old(self).errors@) + parse_term(toks, i0).2 == parse_error_views(
                    self.errors@,
                ) + parse_term_more(toks, self.current as int, expr_view(expr)).2,
            decreases toks.len() - self.current,
        {
            broadcast use lemma_errs_concat_assoc, lemma_errs_concat_empty, lemma_parse_error_views_push;

            let ghost cur1 = self.current as int;
            let ghost acc0 = expr_view(expr);
            let operator = self.previous().clone();
            let right = match self.factor() {
                Ok(v) => v,
                Err(e) => {
                    proof {
                        let step = parse_factor(toks, cur1);
                        assert(parse_term_more(toks, cur1 - 1, acc0) == (step.0, step.1, step.2));
                    }
                    return Err(e);
                },
            };
            let ghost rv = expr_view(right);
            expr = Expr::Binary { left: Box::new(expr), operator, right: Box::new(right) };
            proof {
                assert(expr_view(expr) == (ExprView::Binary {
                    left: Box::new(acc0),
                    operator: toks[cur1 - 1]@,
                    right: Box::new(rv),
                }));
                let step = parse_factor(toks, cur1);
                assert(parse_term_more(toks, cur1 - 1, acc0) == ({
                    let (m2, r2, ds2) = parse_term_more(toks, step.0, expr_view(expr));
                    (m2, r2, step.2 + ds2)
                }));
            }
        }
        proof {
            assert(parse_term_more(toks, self.current as int, expr_view(expr)) == (
                self.current as int,
                Ok::<ExprView, ParseErrorView>(expr_view(expr)),
                Seq::<ParseErrorView>::empty(),
            ));
        }
        Ok(expr)
    }

    /// Multiplicative operators, left-associative.
    #[verifier::spinoff_prover]
    #[verifier::rlimit(100)]
    fn factor(&mut self) -> (r: Result<Expr, ParseError>)
        requires
            old(self).wf(),
        ensures
            final(self).tokens@ == old(self).tokens@,
            final(self).wf(),
            old(self).current <= final(self).current,
            r matches Ok(e) ==> wf_expr(e) && old(self).current < final(self).current,
            ({
                let (j, pr, ds) = parse_factor(old(self).tokens@, old(self).current as int);
                &&& final(self).current as int == j
                &&& parse_error_views(final(self).errors@) == parse_error_views(old(self).errors@)
                    + ds
                &&& (match (r, pr) {
                    (Ok(e), Ok(ev)) => expr_view(e) == ev,
                    (Err(pe), Err(ev)) => pe@ == ev,
                    _ => false,
                })
            }),
        decreases old(self).tokens@.len() - old(self).current, 3int,
    {
        broadcast use lemma_errs_concat_assoc, lemma_errs_concat_empty, lemma_parse_error_views_push;

        let ghost toks = self.tokens@;
        let ghost i0 = old(self).current as int;
        let mut expr = match self.unary() {
            Ok(v) => v,
            Err(e) => {
                return Err(e);
            },
        };
        while self.match_token_type(&[TokenType::Slash, TokenType::Star])
            invariant
                self.wf(),
                self.tokens@ == toks,
                toks == old(self).tokens@,
                i0 == old(self).current as int,
                0 <= i0 < self.current,
                wf_expr(expr),
                parse_factor(toks, i0).0 == parse_factor_more(toks, self.current as int, expr_view(expr)).0,
                parse_factor(toks, i0).1 == parse_factor_more(toks, self.current as int, expr_view(expr)).1,
                parse_error_views(old(self).errors@) + parse_factor(toks, i0).2 == parse_error_views(
                    self.errors@,
                ) + parse_factor_more(toks, self.current as int, expr_view(expr)).2,
            decreases toks.len() - self.current,
        {
            broadcast use lemma_errs_concat_assoc, lemma_errs_concat_empty, lemma_parse_error_views_push;

            let ghost cur1 = self.current as int;
            let ghost acc0 = expr_view(expr);
            let operator = self.previous().clone();
            let right = match self.unary() {
                Ok(v) => v,
                Err(e) => {
                    proof {
                        let step = parse_unary(toks, cur1);
                        assert(parse_factor_more(toks, cur1 - 1, acc0) == (step.0, step.1, step.2));
                    }
                    return Err(e);
                },
            };
            let ghost rv = expr_view(right);
            expr = Expr::Binary { left: Box::new(expr), operator, right: Box::new(right) };
            proof {
                assert(expr_view(expr) == (ExprView::Binary {
                    left: Box::new(acc0),
                    operator: toks[cur1 - 1]@,
                    right: Box::new(rv),
                }));
                let step = parse_unary(toks, cur1);
                assert(parse_factor_more(toks, cur1 - 1, acc0) == ({
                    let (m2, r2, ds2) = parse_factor_more(toks, step.0, expr_view(expr));
                    (m2, r2, step.2 + ds2)
                }));
            }
        }
        proof {
            assert(parse_factor_more(toks, self.current as int, expr_view(expr)) == (
                self.current as int,
                Ok::<ExprView, ParseErrorView>(expr_view(expr)),
                Seq::<ParseErrorView>::empty(),
            ));
        }
        Ok(expr)
    }

    /// Unary operators, right-associative by self-recursion.
    #[verifier::spinoff_prover]
    #[verifier::rlimit(100)]
    fn unary(&mut self) -> (r: Result<Expr, ParseError>)
        requires
            old(self).wf(),
        ensures
            final(self).tokens@ == old(self).tokens@,
            final(self).wf(),
            old(self).current <= final(self).current,
            r matches Ok(e) ==> wf_expr(e) && old(self).current < final(self).current,
            ({
                let (j, pr, ds) = parse_unary(old(self).tokens@, old(self).current as int);
                &&& final(self).current as int == j
                &&& parse_error_views(final(self).errors@) == parse_error_views(old(self).errors@)
                    + ds
                &&& (match (r, pr) {
                    (Ok(e), Ok(ev)) => expr_view(e) == ev,
                    (Err(pe), Err(ev)) => pe@ == ev,
                    _ => false,
                })
            }),
        decreases old(self).tokens@.len() - old(self).current, 2int,
    {
        broadcast use lemma_errs_concat_assoc, lemma_errs_concat_empty, lemma_parse_error_views_push;

        if self.match_token_type(&[TokenType::Bang, TokenType::Minus]) {
            let operator = self.previous().clone();
            let right = self.unary()?;
            Ok(Expr::Unary { operator, right: Box::new(right) })
        } else {
            self.primary()
        }
    }

    /// Primary expressions: literals, variable references and parenthesized
    /// groupings. A binary operator with no preceding operand is detected
    /// here: the erroneous right-hand side is consumed anyway so the token
    /// stream stays aligned for recovery, and a missing-left-hand-operand
    /// diagnostic names the dangling operator.
    #[verifier::spinoff_prover]
    #[verifier::rlimit(100)]
    fn primary(&mut self) -> (r: Result<Expr, ParseError>)
        requires
            old(self).wf(),
        ensures
            final(self).tokens@ == old(self).tokens@,
            final(self).wf(),
            old(self).current <= final(self).current,
            r matches Ok(e) ==> wf_expr(e) && old(self).current < final(self).current,
            ({
                let (j, pr, ds) = parse_primary(old(self).tokens@, old(self).current as int);
                &&& final(self).current as int == j
                &&& parse_error_views(final(self).errors@) == parse_error_views(old(self).errors@)
                    + ds
                &&& (match (r, pr) {
                    (Ok(e), Ok(ev)) => expr_view(e) == ev,
                    (Err(pe), Err(ev)) => pe@ == ev,
                    _ => false,
                })
            }),
        decreases old(self).tokens@.len() - old(self).current, 1int,
    {
        broadcast use lemma_errs_concat_assoc, lemma_errs_concat_empty, lemma_parse_error_views_push;

        if self.match_token_type(&[TokenType::False]) {
            Ok(Expr::Literal { value: Value::Boolean(false) })
        } else if self.match_token_type(&[TokenType::True]) {
            Ok(Expr::Literal { value: Value::Boolean(true) })
        } else if self.match_token_type(&[TokenType::Nil]) {
            Ok(Expr::Literal { value: Value::Null })
        } else if self.match_token_type(&[TokenType::Number, TokenType::Str]) {
            let value = match &self.previous().literal {
                Some(v) => v.clone(),
                None => Value::Null,
            };
            Ok(Expr::Literal { value })
        } else if self.match_token_type(&[TokenType::Identifier]) {
            Ok(Expr::Variable { token: self.previous().clone() })
        } else if self.match_token_type(&[TokenType::LeftParen]) {
            let expr = self.expression()?;
            let close = self.consume(TokenType::RightParen, ParseErrorType::ExpectRightParen);
            match close {
                Ok(_) => Ok(Expr::Grouping { expression: Box::new(expr) }),
                Err(e) => Err(e),
            }
        } else if self.match_token_type(
            &[
                TokenType::Bang,
                TokenType::Minus,
                TokenType::Slash,
                TokenType::Star,
                TokenType::Plus,
                TokenType::Greater,
                TokenType::GreaterEqual,
                TokenType::Less,
                TokenType::LessEqual,
                TokenType::BangEqual,
                TokenType::EqualEqual,
            ],
        ) {
            let operator = self.previous().clone();
            // consume the right-hand side so recovery stays aligned
            let right = self.equality();
            match right {
                Ok(_) => {},
                Err(e) => {
                    return Err(e);
                },
            }
            Err(
                ParseError {
                    parse_error_type: ParseErrorType::MissingLeftHandOperand,
                    token: operator,
                },
            )
        } else {
            Err(
                ParseError {
                    parse_error_type: ParseErrorType::ExpectExpression,
                    token: self.peek().clone(),
                },
            )
        }
    }

    /// Parses one declaration or statement. A malformed one is recorded as a
    /// diagnostic and discarded, and the parser re-synchronizes.
    #[verifier::spinoff_prover]
    #[verifier::rlimit(100)]
    fn declaration(&mut self) -> (r: Option<Stmt>)
        requires
            old(self).wf(),
        ensures
            final(self).tokens@ == old(self).tokens@,
            final(self).wf(),
            old(self).current <= final(self).current,
            old(self).peek_type() != TokenType::EoF ==> old(self).current < final(self).current,
            r matches Some(s) ==> wf_stmt(s),
            old(self).peek_type() == TokenType::Var ==> (r matches Some(s) ==> s is VarDecl),
            ({
                let (j, o, ds) = parse_declaration(old(self).tokens@, old(self).current as int);
                &&& final(self).current as int == j
                &&& parse_error_views(final(self).errors@) == parse_error_views(old(self).errors@)
                    + ds
                &&& (match (r, o) {
                    (Some(v), Some(sv)) => stmt_view(v) == sv,
                    (None, None) => true,
                    _ => false,
                })
            }),
        decreases old(self).tokens@.len() - old(self).current, 16int,
    {
        broadcast use lemma_errs_concat_assoc, lemma_errs_concat_empty, lemma_parse_error_views_push, lemma_stmts_concat_assoc, lemma_stmts_concat_empty, crate::stmt::lemma_stmts_view_push;

        let statement = if self.match_token_type(&[TokenType::Var]) {
            self.var_declaration()
        } else {
            self.statement()
        };
        match statement {
            Ok(v) => Some(v),
            Err(e) => {
                self.errors.push(e);
                self.synchronize();
                None
            },
        }
    }

    /// Parses a variable declaration, the `var` keyword already consumed.
    #[verifier::spinoff_prover]
    #[verifier::rlimit(100)]
    fn var_declaration(&mut self) -> (r: Result<Stmt, ParseError>)
        requires
            old(self).wf(),
        ensures
            final(self).tokens@ == old(self).tokens@,
            final(self).wf(),
            old(self).current <= final(self).current,
            r matches Ok(s) ==> wf_stmt(s),
            r matches Ok(s) ==> s is VarDecl,
            ({
                let (j, pr, ds) = parse_var_declaration(old(self).tokens@, old(self).current as int);
                &&& final(self).current as int == j
                &&& parse_error_views(final(self).errors@) == parse_error_views(old(self).errors@)
                    + ds
                &&& (match (r, pr) {
                    (Ok(s), Ok(sv)) => stmt_view(s) == sv,
                    (Err(pe), Err(ev)) => pe@ == ev,
                    _ => false,
                })
            }),
        decreases old(self).tokens@.len() - old(self).current, 14int,
    {
        broadcast use lemma_errs_concat_assoc, lemma_errs_concat_empty, lemma_parse_error_views_push, lemma_stmts_concat_assoc, lemma_stmts_concat_empty, crate::stmt::lemma_stmts_view_push;

        let name = match self.consume(TokenType::Identifier, ParseErrorType::ExpectVarName) {
            Ok(t) => t,
            Err(e) => {
                return Err(e);
            },
        };
        let initializer = if self.match_token_type(&[TokenType::Equal]) {
            Some(self.expression()?)
        } else {
            None
        };
        match self.consume(
            TokenType::Semicolon,
            ParseErrorType::ExpectSemicolonAfterVarDeclaration,
        ) {
            Ok(_) => {},
            Err(e) => {
                return Err(e);
            },
        }
        Ok(Stmt::VarDecl { name, initializer })
    }

    /// Parses one statement, dispatching on its leading keyword.
    #[verifier::spinoff_prover]
    #[verifier::rlimit(100)]
    fn statement(&mut self) -> (r: Result<Stmt, ParseError>)
        requires
            old(self).wf(),
        ensures
            final(self).tokens@ == old(self).tokens@,
            final(self).wf(),
            old(self).current <= final(self).current,
            r matches Ok(s) ==> wf_stmt(s) && old(self).current < final(self).current,
            old(self).peek_type() == TokenType::For ==> (r matches Ok(s) ==> s is While || s
                is Block),
            old(self).peek_type() == TokenType::If ==> (r matches Ok(s) ==> s is If),
            old(self).peek_type() == TokenType::Print ==> (r matches Ok(s) ==> s is Print),
            old(self).peek_type() == TokenType::While ==> (r matches Ok(s) ==> s is While),
            old(self).peek_type() == TokenType::LeftBrace ==> (r matches Ok(s) ==> s is Block),
            ({
                let (j, pr, ds) = parse_statement(old(self).tokens@, old(self).current as int);
                &&& final(self).current as int == j
                &&& parse_error_views(final(self).errors@) == parse_error_views(old(self).errors@)
                    + ds
                &&& (match (r, pr) {
                    (Ok(s), Ok(sv)) => stmt_view(s) == sv,
                    (Err(pe), Err(ev)) => pe@ == ev,
                    _ => false,
                })
            }),
        decreases old(self).tokens@.len() - old(self).current, 15int,
    {
        broadcast use lemma_errs_concat_assoc, lemma_errs_concat_empty, lemma_parse_error_views_push, lemma_stmts_concat_assoc, lemma_stmts_concat_empty, crate::stmt::lemma_stmts_view_push;

        if self.match_token_type(&[TokenType::For]) {
            self.for_statement()
        } else if self.match_token_type(&[TokenType::If]) {
            self.if_statement()
        } else if self.match_token_type(&[TokenType::Print]) {
            self.print_statement()
        } else if self.match_token_type(&[TokenType::While]) {
            self.while_statement()
        } else if self.match_token_type(&[TokenType::LeftBrace]) {
            self.block()
        } else {
            self.expression_statement()
        }
    }

    /// Parses a `while` statement, the keyword already consumed.
    #[verifier::spinoff_prover]
    #[verifier::rlimit(100)]
    fn while_statement(&mut self) -> (r: Result<Stmt, ParseError>)
        requires
            old(self).wf(),
        ensures
            final(self).tokens@ == old(self).tokens@,
            final(self).wf(),
            old(self).current <= final(self).current,
            r matches Ok(s) ==> wf_stmt(s),
            r matches Ok(s) ==> s is While,
            ({
                let (j, pr, ds) = parse_while_statement(old(self).tokens@, old(self).current as int);
                &&& final(self).current as int == j
                &&& parse_error_views(final(self).errors@) == parse_error_views(old(self).errors@)
                    + ds
                &&& (match (r, pr) {
                    (Ok(s), Ok(sv)) => stmt_view(s) == sv,
                    (Err(pe), Err(ev)) => pe@ == ev,
                    _ => false,
                })
            }),
        decreases old(self).tokens@.len() - old(self).current, 14int,
    {
        broadcast use lemma_errs_concat_assoc, lemma_errs_concat_empty, lemma_parse_error_views_push, lemma_stmts_concat_assoc, lemma_stmts_concat_empty, crate::stmt::lemma_stmts_view_push;

        match self.consume(TokenType::LeftParen, ParseErrorType::ExpectLeftParenAfterWhile) {
            Ok(_) => {},
            Err(e) => {
                return Err(e);
            },
        }
        let condition = self.expression()?;
        match self.consume(TokenType::RightParen, ParseErrorType::ExpectRightParenAfterCondition) {
            Ok(_) => {},
            Err(e) => {
                return Err(e);
            },
        }
        let body = Box::new(self.statement()?);
        Ok(Stmt::While { condition, body })
    }

    /// Parses the initializer clause of a `for`, the `(` already consumed:
    /// nothing before an immediate semicolon, a variable declaration after
    /// `var`, and otherwise an expression statement.
    #[verifier::spinoff_prover]
    #[verifier::rlimit(100)]
    fn for_initializer(&mut self) -> (r: Result<Option<Stmt>, ParseError>)
        requires
            old(self).wf(),
        ensures
            final(self).tokens@ == old(self).tokens@,
            final(self).wf(),
            old(self).current <= final(self).current,
            r matches Ok(o) ==> old(self).current < final(self).current && (o matches Some(s)
                ==> wf_stmt(s)),
            ({
                let (j, pr, ds) = parse_for_init(old(self).tokens@, old(self).current as int);
                &&& final(self).current as int == j
                &&& parse_error_views(final(self).errors@) == parse_error_views(old(self).errors@)
                    + ds
                &&& (match (r, pr) {
                    (Ok(o), Ok(ov)) => (match (o, ov) {
                        (Some(s), Some(sv)) => stmt_view(s) == sv,
                        (None, None) => true,
                        _ => false,
                    }),
                    (Err(pe), Err(ev)) => pe@ == ev,
                    _ => false,
                })
            }),
        decreases old(self).tokens@.len() - old(self).current, 18int,
    {
        broadcast use lemma_errs_concat_assoc, lemma_errs_concat_empty, lemma_parse_error_views_push;

        if self.match_token_type(&[TokenType::Semicolon]) {
            Ok(None)
        } else if self.match_token_type(&[TokenType::Var]) {
            match self.var_declaration() {
                Ok(s) => Ok(Some(s)),
                Err(e) => Err(e),
            }
        } else {
            match self.expression_statement() {
                Ok(s) => Ok(Some(s)),
                Err(e) => Err(e),
            }
        }
    }

    /// Parses the condition clause of a `for`, its semicolon included: the
    /// literal `true` when the condition is omitted.
    #[verifier::spinoff_prover]
    #[verifier::rlimit(100)]
    fn for_condition(&mut self) -> (r: Result<Expr, ParseError>)
        requires
            old(self).wf(),
        ensures
            final(self).tokens@ == old(self).tokens@,
            final(self).wf(),
            old(self).current <= final(self).current,
            r matches Ok(e) ==> wf_expr(e) && old(self).current < final(self).current,
            ({
                let (j, pr, ds) = parse_for_cond(old(self).tokens@, old(self).current as int);
                &&& final(self).current as int == j
                &&& parse_error_views(final(self).errors@) == parse_error_views(old(self).errors@)
                    + ds
                &&& (match (r, pr) {
                    (Ok(e), Ok(ev)) => expr_view(e) == ev,
                    (Err(pe), Err(ev)) => pe@ == ev,
                    _ => false,
                })
            }),
        decreases old(self).tokens@.len() - old(self).current, 18int,
    {
        broadcast use lemma_errs_concat_assoc, lemma_errs_concat_empty, lemma_parse_error_views_push;

        if !self.check(TokenType::Semicolon) {
            let condition = self.expression()?;
            match self.consume(
                TokenType::Semicolon,
                ParseErrorType::ExpectSemicolonAfterLoopCondition,
            ) {
                Ok(_) => Ok(condition),
                Err(e) => Err(e),
            }
        } else {
            match self.consume(
                TokenType::Semicolon,
                ParseErrorType::ExpectSemicolonAfterLoopCondition,
            ) {
                Ok(_) => Ok(Expr::Literal { value: Value::Boolean(true) }),
                Err(e) => Err(e),
            }
        }
    }

    /// Parses the increment clause of a `for`, the closing parenthesis
    /// included: nothing when the increment is omitted.
    #[verifier::spinoff_prover]
    #[verifier::rlimit(100)]
    fn for_increment(&mut self) -> (r: Result<Option<Expr>, ParseError>)
        requires
            old(self).wf(),
        ensures
            final(self).tokens@ == old(self).tokens@,
            final(self).wf(),
            old(self).current <= final(self).current,
            r matches Ok(o) ==> old(self).current < final(self).current && (o matches Some(e)
                ==> wf_expr(e)),
            ({
                let (j, pr, ds) = parse_for_incr(old(self).tokens@, old(self).current as int);
                &&& final(self).current as int == j
                &&& parse_error_views(final(self).errors@) == parse_error_views(old(self).errors@)
                    + ds
                &&& (match (r, pr) {
                    (Ok(o), Ok(ov)) => (match (o, ov) {
                        (Some(e), Some(ev)) => expr_view(e) == ev,
                        (None, None) => true,
                        _ => false,
                    }),
                    (Err(pe), Err(ev)) => pe@ == ev,
                    _ => false,
                })
            }),
        decreases old(self).tokens@.len() - old(self).current, 18int,
    {
        broadcast use lemma_errs_concat_assoc, lemma_errs_concat_empty, lemma_parse_error_views_push;

        if !self.check(TokenType::RightParen) {
            let x = self.expression()?;
            match self.consume(
                TokenType::RightParen,
                ParseErrorType::ExpectRightParenAfterForClauses,
            ) {
                Ok(_) => Ok(Some(x)),
                Err(e) => Err(e),
            }
        } else {
            match self.consume(
                TokenType::RightParen,
                ParseErrorType::ExpectRightParenAfterForClauses,
            ) {
                Ok(_) => Ok(None),
                Err(e) => Err(e),
            }
        }
    }

    /// Parses a `for` statement, the keyword already consumed, desugaring it
    /// into a `while` as [`for_desugared`] prescribes: no `for` node exists
    /// in the tree.
    #[verifier::spinoff_prover]
    #[verifier::rlimit(100)]
    fn for_statement(&mut self) -> (r: Result<Stmt, ParseError>)
        requires
            old(self).wf(),
        ensures
            final(self).tokens@ == old(self).tokens@,
            final(self).wf(),
            old(self).current <= final(self).current,
            r matches Ok(s) ==> wf_stmt(s),
            r matches Ok(s) ==> s is While || s is Block,
            ({
                let (j, pr, ds) = parse_for_statement(old(self).tokens@, old(self).current as int);
                &&& final(self).current as int == j
                &&& parse_error_views(final(self).errors@) == parse_error_views(old(self).errors@)
                    + ds
                &&& (match (r, pr) {
                    (Ok(s), Ok(sv)) => stmt_view(s) == sv,
                    (Err(pe), Err(ev)) => pe@ == ev,
                    _ => false,
                })
            }),
        decreases old(self).tokens@.len() - old(self).current, 14int,
    {
        broadcast use lemma_errs_concat_assoc, lemma_errs_concat_empty, lemma_parse_error_views_push, lemma_stmts_concat_assoc, lemma_stmts_concat_empty, crate::stmt::lemma_stmts_view_push;

        match self.consume(TokenType::LeftParen, ParseErrorType::ExpectLeftParenAfterFor) {
            Ok(_) => {},
            Err(e) => {
                return Err(e);
            },
        }
        let initializer: Option<Stmt> = match self.for_initializer() {
            Ok(o) => o,
            Err(e) => {
                return Err(e);
            },
        };
        let ghost initv = match &initializer {
            Some(s) => Some(stmt_view(*s)),
            None => None,
        };
        let condition: Expr = match self.for_condition() {
            Ok(c) => c,
            Err(e) => {
                return Err(e);
            },
        };
        let ghost condv = expr_view(condition);
        let increment: Option<Expr> = match self.for_increment() {
            Ok(o) => o,
            Err(e) => {
                return Err(e);
            },
        };
        let ghost incrv = match &increment {
            Some(x) => Some(expr_view(*x)),
            None => None,
        };
        let mut body = match self.statement() {
            Ok(s) => s,
            Err(e) => {
                return Err(e);
            },
        };
        let ghost bodyv = stmt_view(body);
        proof {
            assert(wf_stmt(body));
        }
        if let Some(increment) = increment {
            let ghost body0 = body;
            let ghost inc0 = increment;
            let mut statements: Vec<Stmt> = Vec::new();
            statements.push(body);
            statements.push(Stmt::Expression { expression: increment });
            proof {
                assert(statements@.len() == 2);
                assert(statements@[0] == body0);
                assert(statements@[1] == (Stmt::Expression { expression: inc0 }));
                assert(wf_stmt(body0));
                assert(wf_expr(inc0));
                assert(wf_stmt(statements@[1]));
                assert(forall|i: int|
                    0 <= i < statements@.len() ==> wf_stmt(#[trigger] statements@[i]));
                assert(stmts_view(statements@) =~= seq![
                    stmt_view(body0),
                    (StmtView::Expression { expression: expr_view(inc0) }),
                ]);
            }
            body = Stmt::Block { statements };
            proof {
                assert(wf_stmt(body));
            }
        }
        proof {
            assert(stmt_view(body) == (match incrv {
                Some(x) => StmtView::Block {
                    statements: seq![bodyv, StmtView::Expression { expression: x }],
                },
                None => bodyv,
            }));
        }
        let ghost cond0 = condition;
        let ghost inner0 = body;
        body = Stmt::While { condition, body: Box::new(body) };
        proof {
            assert(wf_expr(cond0));
            assert(wf_stmt(inner0));
            assert(wf_stmt(body));
        }
        if let Some(initializer) = initializer {
            let ghost init0 = initializer;
            let ghost while0 = body;
            let mut statements: Vec<Stmt> = Vec::new();
            statements.push(initializer);
            statements.push(body);
            proof {
                assert(statements@[0] == init0);
                assert(statements@[1] == while0);
                assert(stmts_view(statements@) =~= seq![stmt_view(init0), stmt_view(while0)]);
            }
            body = Stmt::Block { statements };
            proof {
                assert(wf_stmt(body));
            }
        }
        proof {
            assert(stmt_view(body) == for_desugared(initv, condv, incrv, bodyv));
        }
        Ok(body)
    }

    /// Parses a brace-delimited block, the opening brace already consumed.
    #[verifier::spinoff_prover]
    #[verifier::rlimit(100)]
    fn block(&mut self) -> (r: Result<Stmt, ParseError>)
        requires
            old(self).wf(),
        ensures
            final(self).tokens@ == old(self).tokens@,
            final(self).wf(),
            old(self).current <= final(self).current,
            r matches Ok(s) ==> wf_stmt(s),
            r matches Ok(s) ==> s is Block,
            ({
                let (j, pr, ds) = parse_block_items(old(self).tokens@, old(self).current as int);
                &&& final(self).current as int == j
                &&& parse_error_views(final(self).errors@) == parse_error_views(old(self).errors@)
                    + ds
                &&& (match (r, pr) {
                    (Ok(s), Ok(items)) => stmt_view(s) == (StmtView::Block { statements: items }),
                    (Err(pe), Err(ev)) => pe@ == ev,
                    _ => false,
                })
            }),
        decreases old(self).tokens@.len() - old(self).current, 17int,
    {
        broadcast use lemma_errs_concat_assoc, lemma_errs_concat_empty, lemma_parse_error_views_push, lemma_stmts_concat_assoc, lemma_stmts_concat_empty, crate::stmt::lemma_stmts_view_push;

        let ghost toks = self.tokens@;
        let ghost i0 = old(self).current as int;
        let mut statements: Vec<Stmt> = Vec::new();
        proof {
            assert(stmts_view(statements@) =~= Seq::<StmtView>::empty());
        }
        while !self.check(TokenType::RightBrace) && !self.is_at_end()
            invariant
                self.wf(),
                self.tokens@ == toks,
                toks == old(self).tokens@,
                i0 == old(self).current as int,
                0 <= i0 <= self.current,
                forall|i: int| 0 <= i < statements@.len() ==> wf_stmt(#[trigger] statements@[i]),
                parse_block_items(toks, i0).0 == parse_block_items(toks, self.current as int).0,
                parse_block_items(toks, i0).1 == (match parse_block_items(
                    toks,
                    self.current as int,
                ).1 {
                    Ok(rest) => Ok(stmts_view(statements@) + rest),
                    Err(e) => Err::<Seq<StmtView>, ParseErrorView>(e),
                }),
                parse_error_views(old(self).errors@) + parse_block_items(toks, i0).2
                    == parse_error_views(self.errors@) + parse_block_items(
                    toks,
                    self.current as int,
                ).2,
            decreases toks.len() - self.current,
        {
            broadcast use lemma_errs_concat_assoc, lemma_errs_concat_empty, lemma_parse_error_views_push, lemma_stmts_concat_assoc, lemma_stmts_concat_empty, crate::stmt::lemma_stmts_view_push;

            let ghost cur0 = self.current as int;
            let ghost stmts0 = statements@;
            let d = self.declaration();
            proof {
                let step = parse_declaration(toks, cur0);
                assert(cur0 < step.0 <= toks.len());
                assert(parse_block_items(toks, cur0) == ({
                    let (m, r2, ds2) = parse_block_items(toks, step.0);
                    (
                        m,
                        match r2 {
                            Ok(rest) => Ok::<Seq<StmtView>, ParseErrorView>(
                                match step.1 {
                                    Some(svv) => seq![svv] + rest,
                                    None => rest,
                                },
                            ),
                            Err(e) => Err::<Seq<StmtView>, ParseErrorView>(e),
                        },
                        step.2 + ds2,
                    )
                }));
            }
            match d {
                Some(statement) => {
                    let ghost sv = stmt_view(statement);
                    statements.push(statement);
                    proof {
                        assert(stmts_view(stmts0).push(sv) =~= stmts_view(stmts0) + seq![sv]);
                    }
                },
                None => {},
            }
        }
        proof {
            assert(stmts_view(statements@) + Seq::<StmtView>::empty() =~= stmts_view(statements@));
        }
        match self.consume(TokenType::RightBrace, ParseErrorType::ExpectRightBraceAfterBlock) {
            Ok(_) => {},
            Err(e) => {
                return Err(e);
            },
        }
        Ok(Stmt::Block { statements })
    }

    /// Parses an `if` statement, the keyword already consumed; the `else`
    /// branch is optional.
    #[verifier::spinoff_prover]
    #[verifier::rlimit(100)]
    fn if_statement(&mut self) -> (r: Result<Stmt, ParseError>)
        requires
            old(self).wf(),
        ensures
            final(self).tokens@ == old(self).tokens@,
            final(self).wf(),
            old(self).current <= final(self).current,
            r matches Ok(s) ==> wf_stmt(s),
            r matches Ok(s) ==> s is If,
            ({
                let (j, pr, ds) = parse_if_statement(old(self).tokens@, old(self).current as int);
                &&& final(self).current as int == j
                &&& parse_error_views(final(self).errors@) == parse_error_views(old(self).errors@)
                    + ds
                &&& (match (r, pr) {
                    (Ok(s), Ok(sv)) => stmt_view(s) == sv,
                    (Err(pe), Err(ev)) => pe@ == ev,
                    _ => false,
                })
            }),
        decreases old(self).tokens@.len() - old(self).current, 14int,
    {
        broadcast use lemma_errs_concat_assoc, lemma_errs_concat_empty, lemma_parse_error_views_push, lemma_stmts_concat_assoc, lemma_stmts_concat_empty, crate::stmt::lemma_stmts_view_push;

        match self.consume(TokenType::LeftParen, ParseErrorType::ExpectLeftParenAfterIf) {
            Ok(_) => {},
            Err(e) => {
                return Err(e);
            },
        }
        let expr = self.expression()?;
        match self.consume(
            TokenType::RightParen,
            ParseErrorType::ExpectRightParenAfterIfCondition,
        ) {
            Ok(_) => {},
            Err(e) => {
                return Err(e);
            },
        }
        let then_branch = self.statement()?;
        let else_branch: Option<Box<Stmt>> = if self.match_token_type(&[TokenType::Else]) {
            Some(Box::new(self.statement()?))
        } else {
            None
        };
        Ok(
            Stmt::If {
                condition: expr,
                then_branch: Box::new(then_branch),
                else_branch,
            },
        )
    }

    /// Parses a `print` statement, the keyword already consumed.
    #[verifier::spinoff_prover]
    #[verifier::rlimit(100)]
    fn print_statement(&mut self) -> (r: Result<Stmt, ParseError>)
        requires
            old(self).wf(),
        ensures
            final(self).tokens@ == old(self).tokens@,
            final(self).wf(),
            old(self).current <= final(self).current,
            r matches Ok(s) ==> wf_stmt(s),
            r matches Ok(s) ==> s is Print,
            ({
                let (j, pr, ds) = parse_print_statement(old(self).tokens@, old(self).current as int);
                &&& final(self).current as int == j
                &&& parse_error_views(final(self).errors@) == parse_error_views(old(self).errors@)
                    + ds
                &&& (match (r, pr) {
                    (Ok(s), Ok(sv)) => stmt_view(s) == sv,
                    (Err(pe), Err(ev)) => pe@ == ev,
                    _ => false,
                })
            }),
        decreases old(self).tokens@.len() - old(self).current, 14int,
    {
        broadcast use lemma_errs_concat_assoc, lemma_errs_concat_empty, lemma_parse_error_views_push, lemma_stmts_concat_assoc, lemma_stmts_concat_empty, crate::stmt::lemma_stmts_view_push;

        let value = self.expression()?;
        match self.consume(
            TokenType::Semicolon,
            ParseErrorType::ExpectSemicolonAfterExpression,
        ) {
            Ok(_) => {},
            Err(e) => {
                return Err(e);
            },
        }
        Ok(Stmt::Print { expression: value })
    }

    /// Parses an expression statement.
    #[verifier::spinoff_prover]
    #[verifier::rlimit(100)]
    fn expression_statement(&mut self) -> (r: Result<Stmt, ParseError>)
        requires
            old(self).wf(),
        ensures
            final(self).tokens@ == old(self).tokens@,
            final(self).wf(),
            old(self).current <= final(self).current,
            r matches Ok(s) ==> wf_stmt(s) && old(self).current < final(self).current,
            ({
                let (j, pr, ds) = parse_expr_statement(old(self).tokens@, old(self).current as int);
                &&& final(self).current as int == j
                &&& parse_error_views(final(self).errors@) == parse_error_views(old(self).errors@)
                    + ds
                &&& (match (r, pr) {
                    (Ok(s), Ok(sv)) => stmt_view(s) == sv,
                    (Err(pe), Err(ev)) => pe@ == ev,
                    _ => false,
                })
            }),
        decreases old(self).tokens@.len() - old(self).current, 14int,
    {
        broadcast use lemma_errs_concat_assoc, lemma_errs_concat_empty, lemma_parse_error_views_push, lemma_stmts_concat_assoc, lemma_stmts_concat_empty, crate::stmt::lemma_stmts_view_push;

        let expr = self.expression()?;
        match self.consume(
            TokenType::Semicolon,
            ParseErrorType::ExpectSemicolonAfterExpression,
        ) {
            Ok(_) => {},
            Err(e) => {
                return Err(e);
            },
        }
        Ok(Stmt::Expression { expression: expr })
    }

    /// Parses the whole token sequence into the statements that parsed
    /// successfully, every one well-formed; each malformed statement is
    /// skipped and leaves one diagnostic behind.
    #[verifier::spinoff_prover]
    #[verifier::rlimit(100)]
    pub fn parse(&mut self) -> (r: Vec<Stmt>)
        requires
            old(self).wf(),
        ensures
            final(self).tokens@ == old(self).tokens@,
            final(self).wf(),
            final(self).peek_type() == TokenType::EoF,
            forall|i: int| 0 <= i < r@.len() ==> wf_stmt(#[trigger] r@[i]),
            ({
                let (j, items, ds) = parse_program_items(
                    old(self).tokens@,
                    old(self).current as int,
                );
                &&& final(self).current as int == j
                &&& stmts_view(r@) == items
                &&& parse_error_views(final(self).errors@) == parse_error_views(old(self).errors@)
                    + ds
            }),
    {
        broadcast use lemma_errs_concat_assoc, lemma_errs_concat_empty, lemma_parse_error_views_push, lemma_stmts_concat_assoc, lemma_stmts_concat_empty, crate::stmt::lemma_stmts_view_push;

        let ghost toks = self.tokens@;
        let ghost i0 = old(self).current as int;
        let mut statements: Vec<Stmt> = Vec::new();
        proof {
            assert(stmts_view(statements@) =~= Seq::<StmtView>::empty());
        }
        while !self.is_at_end()
            invariant
                self.wf(),
                self.tokens@ == toks,
                toks == old(self).tokens@,
                i0 == old(self).current as int,
                0 <= i0 <= self.current,
                forall|i: int| 0 <= i < statements@.len() ==> wf_stmt(#[trigger] statements@[i]),
                parse_program_items(toks, i0).0 == parse_program_items(
                    toks,
                    self.current as int,
                ).0,
                parse_program_items(toks, i0).1 == stmts_view(statements@) + parse_program_items(
                    toks,
                    self.current as int,
                ).1,
                parse_error_views(old(self).errors@) + parse_program_items(toks, i0).2
                    == parse_error_views(self.errors@) + parse_program_items(
                    toks,
                    self.current as int,
                ).2,
            decreases toks.len() - self.current,
        {
            broadcast use lemma_errs_concat_assoc, lemma_errs_concat_empty, lemma_parse_error_views_push, lemma_stmts_concat_assoc, lemma_stmts_concat_empty, crate::stmt::lemma_stmts_view_push;

            let ghost cur0 = self.current as int;
            let ghost stmts0 = statements@;
            let d = self.declaration();
            match d {
                Some(v) => {
                    let ghost sv = stmt_view(v);
                    statements.push(v);
                    proof {
                        assert(stmts_view(stmts0).push(sv) =~= stmts_view(stmts0) + seq![sv]);
                    }
                },
                None => {},
            }
        }
        proof {
            assert(stmts_view(statements@) + Seq::<StmtView>::empty() =~= stmts_view(statements@));
        }
        statements
    }
}

} // verus!
