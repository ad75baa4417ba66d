//! The error taxonomy: run-time errors raised by the evaluator and scan
//! errors reported by the lexer, each with a verified textual rendering.
use crate::text::{append_chars, append_str, dec_int, i32_to_chars};
use vstd::prelude::*;

verus! {

/// A run-time error raised while evaluating, tagged with its source line.
#[derive(Debug, PartialEq)]
pub enum RuntimeError {
    /// Unary operator taking a non-number operand.
    OperandNotNumber(i32),
    /// Binary operator taking non-number operands.
    OperandsNotNumbers(i32),
    /// Plus operator taking operands that are neither numbers nor strings.
    OperandsNotNumbersOrStrings(i32),
    /// Division by zero.
    DivideByZero(i32),
    /// Variable is not defined in any enclosing scope.
    UndefinedVariable(Vec<char>, i32),
    /// Variable was declared without an initializer and read before assignment.
    UninitializedVariable(Vec<char>, i32),
}

/// The mathematical model of a [`RuntimeError`].
pub enum RuntimeErrorView {
    OperandNotNumber(i32),
    OperandsNotNumbers(i32),
    OperandsNotNumbersOrStrings(i32),
    DivideByZero(i32),
    UndefinedVariable(Seq<char>, i32),
    UninitializedVariable(Seq<char>, i32),
}

impl View for RuntimeError {
    type V = RuntimeErrorView;

    open spec fn view(&self) -> RuntimeErrorView {
        match self {
            RuntimeError::OperandNotNumber(l) => RuntimeErrorView::OperandNotNumber(*l),
            RuntimeError::OperandsNotNumbers(l) => RuntimeErrorView::OperandsNotNumbers(*l),
            RuntimeError::OperandsNotNumbersOrStrings(l) => RuntimeErrorView::OperandsNotNumbersOrStrings(*l),
            RuntimeError::DivideByZero(l) => RuntimeErrorView::DivideByZero(*l),
            RuntimeError::UndefinedVariable(n, l) => RuntimeErrorView::UndefinedVariable(n@, *l),
            RuntimeError::UninitializedVariable(n, l) => RuntimeErrorView::UninitializedVariable(
                n@,
                *l,
            ),
        }
    }
}

/// The diagnostic text of a run-time error.
pub open spec fn runtime_error_message(e: RuntimeErrorView) -> Seq<char> {
    match e {
        RuntimeErrorView::OperandNotNumber(l) => "Operand must be a number.\n[line "@ + dec_int(
            l as int,
        ) + "]"@,
        RuntimeErrorView::OperandsNotNumbers(l) => "Operands must be numbers.\n[line "@ + dec_int(
            l as int,
        ) + "]"@,
        RuntimeErrorView::OperandsNotNumbersOrStrings(l) =>
            "Operands must be two numbers or two strings.\n[line "@ + dec_int(l as int) + "]"@,
        RuntimeErrorView::DivideByZero(l) => "Division by zero\n[line "@ + dec_int(l as int)
            + "]"@,
        RuntimeErrorView::UndefinedVariable(n, l) => "Undefined variable "@ + n + ".\n[line "@
            + dec_int(l as int) + "]"@,
        RuntimeErrorView::UninitializedVariable(n, l) => "Variable "@ + n
            + " has not been initialized.\n[line "@ + dec_int(l as int) + "]"@,
    }
}

impl RuntimeError {
    /// Renders the diagnostic text the error displays as.
    pub fn message(&self) -> (r: Vec<char>)
        ensures
            r@ == runtime_error_message(self@),
    {
        let mut out: Vec<char> = Vec::new();
        match self {
            RuntimeError::OperandNotNumber(l) => {
                append_str(&mut out, "Operand must be a number.\n[line ");
                let digits = i32_to_chars(*l);
                append_chars(&mut out, &digits);
                append_str(&mut out, "]");
            },
            RuntimeError::OperandsNotNumbers(l) => {
                append_str(&mut out, "Operands must be numbers.\n[line ");
                let digits = i32_to_chars(*l);
                append_chars(&mut out, &digits);
                append_str(&mut out, "]");
            },
            RuntimeError::OperandsNotNumbersOrStrings(l) => {
                append_str(&mut out, "Operands must be two numbers or two strings.\n[line ");
                let digits = i32_to_chars(*l);
                append_chars(&mut out, &digits);
                append_str(&mut out, "]");
            },
            RuntimeError::DivideByZero(l) => {
                append_str(&mut out, "Division by zero\n[line ");
                let digits = i32_to_chars(*l);
                append_chars(&mut out, &digits);
                append_str(&mut out, "]");
            },
            RuntimeError::UndefinedVariable(n, l) => {
                append_str(&mut out, "Undefined variable ");
                append_chars(&mut out, n);
                append_str(&mut out, ".\n[line ");
                let digits = i32_to_chars(*l);
                append_chars(&mut out, &digits);
                append_str(&mut out, "]");
            },
            RuntimeError::UninitializedVariable(n, l) => {
                append_str(&mut out, "Variable ");
                append_chars(&mut out, n);
                append_str(&mut out, " has not been initialized.\n[line ");
                let digits = i32_to_chars(*l);
                append_chars(&mut out, &digits);
                append_str(&mut out, "]");
            },
        }
        out
    }
}

/// A scan error: the lexer reports it and keeps scanning.
#[derive(Debug, PartialEq, Eq, Structural, Clone, Copy)]
pub enum ScanError {
    /// A character outside the language's alphabet, with its line.
    UnexpectedCharacter(i32),
    /// The input ended inside a string literal, with the line reached.
    UnterminatedString(i32),
}

/// The diagnostic text of a scan error.
pub open spec fn scan_error_message(e: ScanError) -> Seq<char> {
    match e {
        ScanError::UnexpectedCharacter(l) => "[line "@ + dec_int(l as int)
            + "] Error: Unexpected character."@,
        ScanError::UnterminatedString(l) => "[line "@ + dec_int(l as int)
            + "] Error: Unterminated string."@,
    }
}

impl ScanError {
    /// Renders the diagnostic text the scan error displays as.
    pub fn message(&self) -> (r: Vec<char>)
        ensures
            r@ == scan_error_message(*self),
    {
        let mut out: Vec<char> = Vec::new();
        match self {
            ScanError::UnexpectedCharacter(l) => {
                append_str(&mut out, "[line ");
                let digits = i32_to_chars(*l);
                append_chars(&mut out, &digits);
                append_str(&mut out, "] Error: Unexpected character.");
            },
            ScanError::UnterminatedString(l) => {
                append_str(&mut out, "[line ");
                let digits = i32_to_chars(*l);
                append_chars(&mut out, &digits);
                append_str(&mut out, "] Error: Unterminated string.");
            },
        }
        out
    }
}

} // verus!
