//! Tokens and run-time values of the Lox language: the token kinds, the
//! tagged value union, and the keyword table that classifies identifier text.
use crate::text::{chars_eq_str, clone_chars, dec_int, i64_to_chars};
use vstd::prelude::*;

verus! {

/// Kind of a Lox token.
#[derive(Clone, Copy, Debug, PartialEq, Eq, Structural)]
pub enum TokenType {
    // Single-character tokens.
    LeftParen,
    RightParen,
    LeftBrace,
    RightBrace,
    Comma,
    Dot,
    Minus,
    Plus,
    Semicolon,
    Slash,
    Star,
    QuestionMark,
    Colon,
    // One or two character tokens.
    Bang,
    BangEqual,
    Equal,
    EqualEqual,
    Greater,
    GreaterEqual,
    Less,
    LessEqual,
    // Literals.
    Identifier,
    Str,
    Number,
    // Keywords.
    And,
    Class,
    Else,
    False,
    Fun,
    For,
    If,
    Nil,
    Or,
    Print,
    Return,
    Super,
    This,
    True,
    Var,
    While,
    EoF,
}

/// A run-time Lox value. Text is a character sequence; numbers are 64-bit
/// signed integers with wrapping arithmetic.
#[derive(Debug, PartialEq)]
pub enum Value {
    Str(Vec<char>),
    Number(i64),
    Boolean(bool),
    Null,
}

/// The mathematical model of a [`Value`].
pub enum ValueView {
    Str(Seq<char>),
    Number(i64),
    Boolean(bool),
    Null,
}

impl View for Value {
    type V = ValueView;

    open spec fn view(&self) -> ValueView {
        match self {
            Value::Str(s) => ValueView::Str(s@),
            Value::Number(n) => ValueView::Number(*n),
            Value::Boolean(b) => ValueView::Boolean(*b),
            Value::Null => ValueView::Null,
        }
    }
}

impl Clone for Value {
    fn clone(&self) -> (r: Self)
        ensures
            r@ == self@,
    {
        match self {
            Value::Str(s) => Value::Str(clone_chars(s)),
            Value::Number(n) => Value::Number(*n),
            Value::Boolean(b) => Value::Boolean(*b),
            Value::Null => Value::Null,
        }
    }
}

/// The text a value shows as: `print` output and stringified `+` operands.
/// `Null` shows as the word "null".
pub open spec fn display_of(v: ValueView) -> Seq<char> {
    match v {
        ValueView::Str(s) => s,
        ValueView::Number(n) => dec_int(n as int),
        ValueView::Boolean(b) => if b {
            "true"@
        } else {
            "false"@
        },
        ValueView::Null => "null"@,
    }
}

impl Value {
    /// Renders the value as the text its display form prescribes.
    pub fn display(&self) -> (r: Vec<char>)
        ensures
            r@ == display_of(self@),
    {
        match self {
            Value::Str(s) => clone_chars(s),
            Value::Number(n) => i64_to_chars(*n),
            Value::Boolean(b) => {
                if *b {
                    crate::text::chars_of_str("true")
                } else {
                    crate::text::chars_of_str("false")
                }
            },
            Value::Null => crate::text::chars_of_str("null"),
        }
    }
}

/// A scanned token: its kind, the exact source text it covers, the literal
/// value it carries (string and number literals only), and its source line.
#[derive(Debug)]
pub struct Token {
    pub token_type: TokenType,
    pub lexeme: Vec<char>,
    pub literal: Option<Value>,
    pub line: i32,
}

/// The mathematical model of a [`Token`].
pub struct TokenView {
    pub token_type: TokenType,
    pub lexeme: Seq<char>,
    pub literal: Option<ValueView>,
    pub line: i32,
}

/// The model of an optional value.
pub open spec fn opt_value_view(o: Option<Value>) -> Option<ValueView> {
    match o {
        Some(v) => Some(v@),
        None => None,
    }
}

impl View for Token {
    type V = TokenView;

    open spec fn view(&self) -> TokenView {
        TokenView {
            token_type: self.token_type,
            lexeme: self.lexeme@,
            literal: opt_value_view(self.literal),
            line: self.line,
        }
    }
}

impl Clone for Token {
    fn clone(&self) -> (r: Self)
        ensures
            r@ == self@,
    {
        Token {
            token_type: self.token_type,
            lexeme: clone_chars(&self.lexeme),
            literal: match &self.literal {
                Some(v) => Some(v.clone()),
                None => None,
            },
            line: self.line,
        }
    }
}

impl Token {
    pub fn new(token_type: TokenType, lexeme: Vec<char>, literal: Option<Value>, line: i32) -> (t:
        Self)
        ensures
            t@ == (TokenView { token_type, lexeme: lexeme@, literal: opt_value_view(literal), line }),
    {
        Token { token_type, lexeme, literal, line }
    }
}

/// The models of a sequence of tokens.
pub open spec fn token_views(ts: Seq<Token>) -> Seq<TokenView> {
    ts.map_values(|t: Token| t@)
}

/// Returned when identifier text matches no keyword.
#[derive(Debug, PartialEq, Eq, Structural)]
pub struct ParseTokenTypeError;

/// The keyword table: the token kind reserved for the given text, if any.
pub open spec fn keyword_type(s: Seq<char>) -> Option<TokenType> {
    if s == "and"@ {
        Some(TokenType::And)
    } else if s == "class"@ {
        Some(TokenType::Class)
    } else if s == "else"@ {
        Some(TokenType::Else)
    } else if s == "false"@ {
        Some(TokenType::False)
    } else if s == "for"@ {
        Some(TokenType::For)
    } else if s == "fun"@ {
        Some(TokenType::Fun)
    } else if s == "if"@ {
        Some(TokenType::If)
    } else if s == "nil"@ {
        Some(TokenType::Nil)
    } else if s == "or"@ {
        Some(TokenType::Or)
    } else if s == "print"@ {
        Some(TokenType::Print)
    } else if s == "return"@ {
        Some(TokenType::Return)
    } else if s == "super"@ {
        Some(TokenType::Super)
    } else if s == "this"@ {
        Some(TokenType::This)
    } else if s == "true"@ {
        Some(TokenType::True)
    } else if s == "var"@ {
        Some(TokenType::Var)
    } else if s == "while"@ {
        Some(TokenType::While)
    } else {
        None
    }
}

impl TokenType {
    /// Classifies identifier text against the fixed, case-sensitive keyword
    /// set; non-keyword text is reported as an error for the caller to treat
    /// as a plain identifier.
    pub fn from_str(s: &Vec<char>) -> (r: Result<TokenType, ParseTokenTypeError>)
        ensures
            match r {
                Ok(t) => keyword_type(s@) == Some(t),
                Err(_) => keyword_type(s@) is None,
            },
    {
        if chars_eq_str(s, "and") {
            Ok(TokenType::And)
        } else if chars_eq_str(s, "class") {
            Ok(TokenType::Class)
        } else if chars_eq_str(s, "else") {
            Ok(TokenType::Else)
        } else if chars_eq_str(s, "false") {
            Ok(TokenType::False)
        } else if chars_eq_str(s, "for") {
            Ok(TokenType::For)
        } else if chars_eq_str(s, "fun") {
            Ok(TokenType::Fun)
        } else if chars_eq_str(s, "if") {
            Ok(TokenType::If)
        } else if chars_eq_str(s, "nil") {
            Ok(TokenType::Nil)
        } else if chars_eq_str(s, "or") {
            Ok(TokenType::Or)
        } else if chars_eq_str(s, "print") {
            Ok(TokenType::Print)
        } else if chars_eq_str(s, "return") {
            Ok(TokenType::Return)
        } else if chars_eq_str(s, "super") {
            Ok(TokenType::Super)
        } else if chars_eq_str(s, "this") {
            Ok(TokenType::This)
        } else if chars_eq_str(s, "true") {
            Ok(TokenType::True)
        } else if chars_eq_str(s, "var") {
            Ok(TokenType::Var)
        } else if chars_eq_str(s, "while") {
            Ok(TokenType::While)
        } else {
            Err(ParseTokenTypeError)
        }
    }
}

} // verus!
