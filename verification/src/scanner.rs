//! The lexer: a single left-to-right pass turning source text into tokens.
//! The specification is a step function, [`scan_step`], giving the token or
//! diagnostic produced at a position together with the position and line
//! after it, and [`scan_from`], which folds the step function over the whole
//! input and always ends the token sequence with an end-of-input token.
//! Scanning never fails: unrecognized characters and unterminated strings
//! are reported as diagnostics and scanning continues.
use crate::error::ScanError;
use crate::text::subrange_chars;
use crate::token::{
    keyword_type, opt_value_view, token_views, Token, TokenType, TokenView, Value, ValueView,
};
use vstd::prelude::*;

verus! {

/// ASCII decimal digits.
pub open spec fn is_digit(c: char) -> bool {
    '0' as u32 <= c as u32 && c as u32 <= '9' as u32
}

/// ASCII letters.
pub open spec fn is_alpha(c: char) -> bool {
    ||| ('a' as u32 <= c as u32 && c as u32 <= 'z' as u32)
    ||| ('A' as u32 <= c as u32 && c as u32 <= 'Z' as u32)
}

/// Identifier continuation characters: ASCII letters and digits.
pub open spec fn is_alnum(c: char) -> bool {
    is_digit(c) || is_alpha(c)
}

fn is_digit_exec(c: char) -> (r: bool)
    ensures
        r == is_digit(c),
{
    let u = c as u32;
    48 <= u && u <= 57
}

fn is_alpha_exec(c: char) -> (r: bool)
    ensures
        r == is_alpha(c),
{
    let u = c as u32;
    (97 <= u && u <= 122) || (65 <= u && u <= 90)
}

fn is_alnum_exec(c: char) -> (r: bool)
    ensures
        r == is_alnum(c),
{
    is_digit_exec(c) || is_alpha_exec(c)
}

/// End of the maximal digit run starting at `j`.
pub open spec fn digits_end(src: Seq<char>, j: int) -> int
    decreases src.len() - j,
    when 0 <= j <= src.len()
{
    if j < src.len() && is_digit(src[j]) {
        digits_end(src, j + 1)
    } else {
        j
    }
}

/// End of the maximal letter-or-digit run starting at `j`.
pub open spec fn alnum_end(src: Seq<char>, j: int) -> int
    decreases src.len() - j,
    when 0 <= j <= src.len()
{
    if j < src.len() && is_alnum(src[j]) {
        alnum_end(src, j + 1)
    } else {
        j
    }
}

/// Position of the first '"' at or after `j`, or the input's end.
pub open spec fn string_end(src: Seq<char>, j: int) -> int
    decreases src.len() - j,
    when 0 <= j <= src.len()
{
    if j < src.len() && src[j] != '"' {
        string_end(src, j + 1)
    } else {
        j
    }
}

/// Position of the first newline at or after `j`, or the input's end: where
/// a line comment stops consuming.
pub open spec fn comment_end(src: Seq<char>, j: int) -> int
    decreases src.len() - j,
    when 0 <= j <= src.len()
{
    if j < src.len() && src[j] != '\n' {
        comment_end(src, j + 1)
    } else {
        j
    }
}

proof fn lemma_digits_end_bounds(src: Seq<char>, j: int)
    requires
        0 <= j <= src.len(),
    ensures
        j <= digits_end(src, j) <= src.len(),
    decreases src.len() - j,
{
    if j < src.len() && is_digit(src[j]) {
        lemma_digits_end_bounds(src, j + 1);
    }
}

proof fn lemma_alnum_end_bounds(src: Seq<char>, j: int)
    requires
        0 <= j <= src.len(),
    ensures
        j <= alnum_end(src, j) <= src.len(),
    decreases src.len() - j,
{
    if j < src.len() && is_alnum(src[j]) {
        lemma_alnum_end_bounds(src, j + 1);
    }
}

proof fn lemma_string_end_bounds(src: Seq<char>, j: int)
    requires
        0 <= j <= src.len(),
    ensures
        j <= string_end(src, j) <= src.len(),
    decreases src.len() - j,
{
    if j < src.len() && src[j] != '"' {
        lemma_string_end_bounds(src, j + 1);
    }
}

proof fn lemma_comment_end_bounds(src: Seq<char>, j: int)
    requires
        0 <= j <= src.len(),
    ensures
        j <= comment_end(src, j) <= src.len(),
    decreases src.len() - j,
{
    if j < src.len() && src[j] != '\n' {
        lemma_comment_end_bounds(src, j + 1);
    }
}

/// The line counter after one more line, saturating at the type's limit.
pub open spec fn next_line(l: i32) -> i32 {
    if l < i32::MAX {
        (l + 1) as i32
    } else {
        l
    }
}

/// The line counter after passing over `src[a..b]`, counting newlines.
pub open spec fn lines_through(src: Seq<char>, a: int, b: int, l: i32) -> i32
    decreases b - a,
    when a <= b
{
    if a >= b {
        l
    } else {
        lines_through(
            src,
            a + 1,
            b,
            if src[a] == '\n' {
                next_line(l)
            } else {
                l
            },
        )
    }
}

proof fn lemma_lines_through_snoc(src: Seq<char>, a: int, b: int, l: i32)
    requires
        a <= b,
    ensures
        lines_through(src, a, b + 1, l) == if src[b] == '\n' {
            next_line(lines_through(src, a, b, l))
        } else {
            lines_through(src, a, b, l)
        },
    decreases b - a,
{
    if a < b {
        lemma_lines_through_snoc(
            src,
            a + 1,
            b,
            if src[a] == '\n' {
                next_line(l)
            } else {
                l
            },
        );
    } else {
        assert(lines_through(src, a + 1, b + 1, next_line(l)) == next_line(l));
        assert(lines_through(src, a + 1, b + 1, l) == l);
    }
}

/// The numeric value of a digit character.
pub open spec fn digit_val(c: char) -> i64 {
    ((c as u32) as int - 48) as i64
}

/// The value of the digit run `src[a..b]`, read left to right with wrapping
/// 64-bit arithmetic.
pub open spec fn digits_val(src: Seq<char>, a: int, b: int) -> i64
    decreases b - a,
    when a <= b
{
    if a >= b {
        0
    } else {
        digits_val(src, a, b - 1).wrapping_mul(10).wrapping_add(digit_val(src[b - 1]))
    }
}

/// What one scan step at a position produces: the next position, the line
/// counter after the step, and at most one token or one diagnostic.
pub struct ScanStep {
    pub next: int,
    pub line: i32,
    pub token: Option<TokenView>,
    pub error: Option<ScanError>,
}

/// A token covering `src[i..end]` that carries no literal value.
pub open spec fn simple_token(src: Seq<char>, i: int, end: int, t: TokenType, line: i32) -> TokenView {
    TokenView { token_type: t, lexeme: src.subrange(i, end), literal: None, line }
}

/// A step producing one literal-less token that ends at `end`.
pub open spec fn token_step(src: Seq<char>, i: int, end: int, t: TokenType, line: i32) -> ScanStep {
    ScanStep { next: end, line, token: Some(simple_token(src, i, end, t, line)), error: None }
}

/// A step resolving a one-or-two-character operator by one-character lookahead.
pub open spec fn two_char_step(
    src: Seq<char>,
    i: int,
    line: i32,
    second: char,
    double_t: TokenType,
    single_t: TokenType,
) -> ScanStep {
    if i + 1 < src.len() && src[i + 1] == second {
        token_step(src, i, i + 2, double_t, line)
    } else {
        token_step(src, i, i + 1, single_t, line)
    }
}

/// One scan step at position `i` of the input (meaningful for positions
/// inside the input). Single characters map directly; `!` `=` `<` `>`
/// resolve compound forms by lookahead; `//` consumes a comment to the line's
/// end; whitespace is discarded and newlines count lines; `"` scans a string
/// literal whose value excludes the quotes; a digit scans a number whose
/// fractional digits join the lexeme only when a digit follows the dot, the
/// value being the integer part read with wrapping 64-bit arithmetic; a
/// letter or underscore scans an identifier or keyword; anything else is an
/// unexpected-character diagnostic.
pub open spec fn scan_step(src: Seq<char>, i: int, line: i32) -> ScanStep {
    let c = src[i];
    if c == '(' {
        token_step(src, i, i + 1, TokenType::LeftParen, line)
    } else if c == ')' {
        token_step(src, i, i + 1, TokenType::RightParen, line)
    } else if c == '{' {
        token_step(src, i, i + 1, TokenType::LeftBrace, line)
    } else if c == '}' {
        token_step(src, i, i + 1, TokenType::RightBrace, line)
    } else if c == ',' {
        token_step(src, i, i + 1, TokenType::Comma, line)
    } else if c == '.' {
        token_step(src, i, i + 1, TokenType::Dot, line)
    } else if c == '-' {
        token_step(src, i, i + 1, TokenType::Minus, line)
    } else if c == '+' {
        token_step(src, i, i + 1, TokenType::Plus, line)
    } else if c == ';' {
        token_step(src, i, i + 1, TokenType::Semicolon, line)
    } else if c == '*' {
        token_step(src, i, i + 1, TokenType::Star, line)
    } else if c == '?' {
        token_step(src, i, i + 1, TokenType::QuestionMark, line)
    } else if c == ':' {
        token_step(src, i, i + 1, TokenType::Colon, line)
    } else if c == '!' {
        two_char_step(src, i, line, '=', TokenType::BangEqual, TokenType::Bang)
    } else if c == '=' {
        two_char_step(src, i, line, '=', TokenType::EqualEqual, TokenType::Equal)
    } else if c == '<' {
        two_char_step(src, i, line, '=', TokenType::LessEqual, TokenType::Less)
    } else if c == '>' {
        two_char_step(src, i, line, '=', TokenType::GreaterEqual, TokenType::Greater)
    } else if c == '/' {
        if i + 1 < src.len() && src[i + 1] == '/' {
            ScanStep { next: comment_end(src, i + 2), line, token: None, error: None }
        } else {
            token_step(src, i, i + 1, TokenType::Slash, line)
        }
    } else if c == ' ' || c == '\r' || c == '\t' {
        ScanStep { next: i + 1, line, token: None, error: None }
    } else if c == '\n' {
        ScanStep { next: i + 1, line: next_line(line), token: None, error: None }
    } else if c == '"' {
        let e = string_end(src, i + 1);
        let l2 = lines_through(src, i + 1, e, line);
        if e < src.len() {
            ScanStep {
                next: e + 1,
                line: l2,
                token: Some(
                    TokenView {
                        token_type: TokenType::Str,
                        lexeme: src.subrange(i, e + 1),
                        literal: Some(ValueView::Str(src.subrange(i + 1, e))),
                        line: l2,
                    },
                ),
                error: None,
            }
        } else {
            ScanStep {
                next: src.len() as int,
                line: l2,
                token: None,
                error: Some(ScanError::UnterminatedString(l2)),
            }
        }
    } else if is_digit(c) {
        let d1 = digits_end(src, i + 1);
        let end = if d1 < src.len() && src[d1] == '.' && d1 + 1 < src.len() && is_digit(
            src[d1 + 1],
        ) {
            digits_end(src, d1 + 1)
        } else {
            d1
        };
        ScanStep {
            next: end,
            line,
            token: Some(
                TokenView {
                    token_type: TokenType::Number,
                    lexeme: src.subrange(i, end),
                    literal: Some(ValueView::Number(digits_val(src, i, d1))),
                    line,
                },
            ),
            error: None,
        }
    } else if is_alpha(c) || c == '_' {
        let end = alnum_end(src, i + 1);
        let text = src.subrange(i, end);
        let t = match keyword_type(text) {
            Some(k) => k,
            None => TokenType::Identifier,
        };
        ScanStep {
            next: end,
            line,
            token: Some(TokenView { token_type: t, lexeme: text, literal: None, line }),
            error: None,
        }
    } else {
        ScanStep { next: i + 1, line, token: None, error: Some(ScanError::UnexpectedCharacter(line)) }
    }
}

/// Every scan step inside the input makes progress and stays inside it.
pub proof fn lemma_scan_step_bounds(src: Seq<char>, i: int, line: i32)
    requires
        0 <= i < src.len(),
    ensures
        i < scan_step(src, i, line).next <= src.len(),
{
    let c = src[i];
    if c == '/' && i + 1 < src.len() && src[i + 1] == '/' {
        lemma_comment_end_bounds(src, i + 2);
    } else if c == '"' {
        lemma_string_end_bounds(src, i + 1);
    } else if is_digit(c) {
        lemma_digits_end_bounds(src, i + 1);
        let d1 = digits_end(src, i + 1);
        if d1 < src.len() && src[d1] == '.' && d1 + 1 < src.len() && is_digit(src[d1 + 1]) {
            lemma_digits_end_bounds(src, d1 + 1);
        }
    } else if is_alpha(c) || c == '_' {
        lemma_alnum_end_bounds(src, i + 1);
    }
}

/// The end-of-input token that terminates every scan.
pub open spec fn eof_token(line: i32) -> TokenView {
    TokenView { token_type: TokenType::EoF, lexeme: Seq::empty(), literal: None, line }
}

/// A sequence holding an option's content, if any.
pub open spec fn opt_seq<A>(o: Option<A>) -> Seq<A> {
    match o {
        Some(x) => seq![x],
        None => Seq::empty(),
    }
}

/// The tokens and diagnostics produced by scanning from position `i` with
/// line counter `line` to the input's end, ending with an end-of-input token.
pub open spec fn scan_from(src: Seq<char>, i: int, line: i32) -> (Seq<TokenView>, Seq<ScanError>)
    decreases src.len() - i,
    when 0 <= i
{
    if i >= src.len() {
        (seq![eof_token(line)], Seq::empty())
    } else {
        proof {
            lemma_scan_step_bounds(src, i, line);
        }
        let st = scan_step(src, i, line);
        let rest = scan_from(src, st.next, st.line);
        (opt_seq(st.token) + rest.0, opt_seq(st.error) + rest.1)
    }
}

/// A scan always delivers at least one token, and the last one marks the
/// end of the input.
pub proof fn lemma_scan_from_ends_eof(src: Seq<char>, i: int, line: i32)
    requires
        0 <= i,
    ensures
        scan_from(src, i, line).0.len() >= 1,
        scan_from(src, i, line).0.last().token_type == TokenType::EoF,
    decreases src.len() - i,
{
    if i >= src.len() {
    } else {
        lemma_scan_step_bounds(src, i, line);
        let st = scan_step(src, i, line);
        lemma_scan_from_ends_eof(src, st.next, st.line);
        let rest = scan_from(src, st.next, st.line).0;
        assert((opt_seq(st.token) + rest).last() == rest.last());
    }
}

/// The scanner's working state: the source characters, the tokens and
/// diagnostics produced so far, the start of the token being scanned, the
/// current position, and the current line.
pub struct Scanner {
    pub source: Vec<char>,
    pub tokens: Vec<Token>,
    pub errors: Vec<ScanError>,
    pub start: usize,
    pub current: usize,
    pub line: i32,
}

impl Scanner {
    /// A scanner at the start of the given source, on line 1.
    pub fn new(source: Vec<char>) -> (s: Scanner)
        ensures
            s.source@ == source@,
            s.tokens@.len() == 0,
            s.errors@.len() == 0,
            s.start == 0,
            s.current == 0,
            s.line == 1,
    {
        Scanner { source, tokens: Vec::new(), errors: Vec::new(), start: 0, current: 0, line: 1 }
    }

    /// Whether the whole input has been consumed.
    fn is_at_end(&self) -> (r: bool)
        ensures
            r == (self.current >= self.source@.len()),
    {
        self.current >= self.source.len()
    }

    /// Consumes and returns one character.
    fn advance(&mut self) -> (c: char)
        requires
            old(self).current < old(self).source@.len(),
        ensures
            final(self).current as int == old(self).current as int + 1,
            *final(self) == (Scanner { current: final(self).current, ..*old(self) }),
            c == old(self).source@[old(self).current as int],
    {
        let c = self.source[self.current];
        let n = self.source.len();
        assert(self.current < n);
        self.current = self.current + 1;
        c
    }

    /// Consumes the next character exactly when it matches `expected`.
    fn match_char(&mut self, expected: char) -> (r: bool)
        ensures
            r == (old(self).current < old(self).source@.len() && old(self).source@[old(
                self,
            ).current as int] == expected),
            final(self).current as int == if r {
                old(self).current as int + 1
            } else {
                old(self).current as int
            },
            *final(self) == (Scanner { current: final(self).current, ..*old(self) }),
    {
        let n = self.source.len();
        if self.current >= n {
            return false;
        }
        if self.source[self.current] != expected {
            return false;
        }
        self.current = self.current + 1;
        true
    }

    /// The next character without consuming it; a NUL stands for the end.
    fn peek(&self) -> (c: char)
        ensures
            c == if self.current < self.source@.len() {
                self.source@[self.current as int]
            } else {
                '\0'
            },
    {
        if self.is_at_end() {
            '\0'
        } else {
            self.source[self.current]
        }
    }

    /// Two characters of lookahead; a NUL stands for the end.
    fn peek_next(&self) -> (c: char)
        ensures
            c == if self.current + 1 < self.source@.len() {
                self.source@[self.current + 1]
            } else {
                '\0'
            },
    {
        let n = self.source.len();
        if self.current >= n {
            '\0'
        } else if self.current + 1 >= n {
            '\0'
        } else {
            self.source[self.current + 1]
        }
    }

    /// Pushes a token without a literal value covering the text scanned so far.
    fn add_token(&mut self, token_type: TokenType)
        requires
            old(self).start <= old(self).current <= old(self).source@.len(),
        ensures
            final(self).source@ == old(self).source@,
            final(self).errors@ == old(self).errors@,
            final(self).start == old(self).start,
            final(self).current == old(self).current,
            final(self).line == old(self).line,
            token_views(final(self).tokens@) == token_views(old(self).tokens@).push(
                simple_token(
                    old(self).source@,
                    old(self).start as int,
                    old(self).current as int,
                    token_type,
                    old(self).line,
                ),
            ),
    {
        self.add_token_literal(token_type, None)
    }

    /// Pushes a token carrying a literal value, covering the text scanned so
    /// far.
    fn add_token_literal(&mut self, token_type: TokenType, literal_value: Option<Value>)
        requires
            old(self).start <= old(self).current <= old(self).source@.len(),
        ensures
            final(self).source@ == old(self).source@,
            final(self).errors@ == old(self).errors@,
            final(self).start == old(self).start,
            final(self).current == old(self).current,
            final(self).line == old(self).line,
            token_views(final(self).tokens@) == token_views(old(self).tokens@).push(
                (TokenView {
                    token_type,
                    lexeme: old(self).source@.subrange(
                        old(self).start as int,
                        old(self).current as int,
                    ),
                    literal: opt_value_view(literal_value),
                    line: old(self).line,
                }),
            ),
    {
        let ghost literal_v = opt_value_view(literal_value);
        let lexeme = subrange_chars(&self.source, self.start, self.current);
        let t = Token::new(token_type, lexeme, literal_value, self.line);
        let ghost tokens0 = self.tokens@;
        let ghost tv = t@;
        self.tokens.push(t);
        proof {
            assert(token_views(self.tokens@) =~= token_views(tokens0).push(tv));
        }
    }

    /// Scans the remainder of a string literal, the opening quote consumed.
    fn string(&mut self)
        requires
            old(self).start < old(self).source@.len(),
            old(self).current == old(self).start + 1,
            old(self).source@[old(self).start as int] == '"',
        ensures
            ({
                let st = scan_step(old(self).source@, old(self).start as int, old(self).line);
                &&& final(self).source@ == old(self).source@
                &&& final(self).start == old(self).start
                &&& final(self).current == st.next
                &&& final(self).line == st.line
                &&& token_views(final(self).tokens@) == token_views(old(self).tokens@) + opt_seq(
                    st.token,
                )
                &&& final(self).errors@ == old(self).errors@ + opt_seq(st.error)
            }),
    {
        let ghost src = self.source@;
        let ghost i = self.start as int;
        let ghost line0 = self.line;
        let n = self.source.len();
        while self.current < n && self.source[self.current] != '"'
            invariant
                self.source@ == src,
                self.start == old(self).start,
                self.tokens@ == old(self).tokens@,
                self.errors@ == old(self).errors@,
                n == src.len(),
                i == self.start as int,
                i + 1 <= self.current as int <= src.len(),
                src[i] == '"',
                line0 == old(self).line,
                string_end(src, i + 1) == string_end(src, self.current as int),
                self.line == lines_through(src, i + 1, self.current as int, line0),
            decreases src.len() - self.current,
        {
            proof {
                lemma_lines_through_snoc(src, i + 1, self.current as int, line0);
            }
            if self.source[self.current] == '\n' {
                if self.line < i32::MAX {
                    self.line = self.line + 1;
                }
            }
            self.current = self.current + 1;
        }
        proof {
            assert(string_end(src, self.current as int) == self.current as int);
        }
        let ghost st = scan_step(src, i, line0);
        if self.current >= n {
            self.errors.push(ScanError::UnterminatedString(self.line));
            proof {
                assert(token_views(self.tokens@) =~= token_views(old(self).tokens@) + opt_seq(
                    st.token,
                ));
                assert(self.errors@ =~= old(self).errors@ + opt_seq(st.error));
            }
        } else {
            self.advance();
            let value = subrange_chars(&self.source, self.start + 1, self.current - 1);
            self.add_token_literal(TokenType::Str, Some(Value::Str(value)));
            proof {
                assert(token_views(self.tokens@) =~= token_views(old(self).tokens@) + opt_seq(
                    st.token,
                ));
                assert(self.errors@ =~= old(self).errors@ + opt_seq(st.error));
            }
        }
    }

    /// Scans the remainder of a number literal, the first digit consumed.
    fn number(&mut self)
        requires
            old(self).start < old(self).source@.len(),
            old(self).current == old(self).start + 1,
            is_digit(old(self).source@[old(self).start as int]),
        ensures
            ({
                let st = scan_step(old(self).source@, old(self).start as int, old(self).line);
                &&& final(self).source@ == old(self).source@
                &&& final(self).start == old(self).start
                &&& final(self).current == st.next
                &&& final(self).line == st.line
                &&& token_views(final(self).tokens@) == token_views(old(self).tokens@) + opt_seq(
                    st.token,
                )
                &&& final(self).errors@ == old(self).errors@ + opt_seq(st.error)
            }),
    {
        let ghost src = self.source@;
        let ghost i = self.start as int;
        let n = self.source.len();
        let c0 = self.source[self.start];
        let mut acc: i64 = ((c0 as u32) - 48) as i64;
        proof {
            assert(digits_val(src, i, i) == 0);
            assert(acc == digits_val(src, i, i + 1));
        }
        while self.current < n && is_digit_exec(self.source[self.current])
            invariant
                self.source@ == src,
                self.start == old(self).start,
                self.tokens@ == old(self).tokens@,
                self.errors@ == old(self).errors@,
                self.line == old(self).line,
                n == src.len(),
                i == self.start as int,
                i + 1 <= self.current as int <= src.len(),
                is_digit(src[i]),
                digits_end(src, i + 1) == digits_end(src, self.current as int),
                acc == digits_val(src, i, self.current as int),
            decreases src.len() - self.current,
        {
            let c = self.source[self.current];
            self.current = self.current + 1;
            acc = acc.wrapping_mul(10).wrapping_add(((c as u32) - 48) as i64);
        }
        let ghost d1 = self.current as int;
        proof {
            assert(digits_end(src, self.current as int) == self.current as int);
            assert(d1 == digits_end(src, i + 1));
        }
        let p = self.peek();
        if p == '.' {
            let pn = self.peek_next();
            if is_digit_exec(pn) {
                // consume the '.' only because a digit follows it
                self.current = self.current + 1;
                while self.current < n && is_digit_exec(self.source[self.current])
                    invariant
                        self.source@ == src,
                        self.start == old(self).start,
                        self.tokens@ == old(self).tokens@,
                        self.errors@ == old(self).errors@,
                        self.line == old(self).line,
                        n == src.len(),
                        i == self.start as int,
                        d1 + 1 <= self.current as int <= src.len(),
                        digits_end(src, d1 + 1) == digits_end(src, self.current as int),
                    decreases src.len() - self.current,
                {
                    self.current = self.current + 1;
                }
                proof {
                    assert(digits_end(src, self.current as int) == self.current as int);
                }
            }
        }
        let ghost st = scan_step(src, i, old(self).line);
        self.add_token_literal(TokenType::Number, Some(Value::Number(acc)));
        proof {
            assert(token_views(self.tokens@) =~= token_views(old(self).tokens@) + opt_seq(
                st.token,
            ));
            assert(self.errors@ =~= old(self).errors@ + opt_seq(st.error));
        }
    }

    /// Scans the remainder of an identifier or keyword, its first character
    /// consumed.
    fn identifier(&mut self)
        requires
            old(self).start < old(self).source@.len(),
            old(self).current == old(self).start + 1,
            is_alpha(old(self).source@[old(self).start as int]) || old(self).source@[old(
                self,
            ).start as int] == '_',
            !is_digit(old(self).source@[old(self).start as int]),
        ensures
            ({
                let st = scan_step(old(self).source@, old(self).start as int, old(self).line);
                &&& final(self).source@ == old(self).source@
                &&& final(self).start == old(self).start
                &&& final(self).current == st.next
                &&& final(self).line == st.line
                &&& token_views(final(self).tokens@) == token_views(old(self).tokens@) + opt_seq(
                    st.token,
                )
                &&& final(self).errors@ == old(self).errors@ + opt_seq(st.error)
            }),
    {
        let ghost src = self.source@;
        let ghost i = self.start as int;
        let n = self.source.len();
        while self.current < n && is_alnum_exec(self.source[self.current])
            invariant
                self.source@ == src,
                self.start == old(self).start,
                self.tokens@ == old(self).tokens@,
                self.errors@ == old(self).errors@,
                self.line == old(self).line,
                n == src.len(),
                i == self.start as int,
                i + 1 <= self.current as int <= src.len(),
                alnum_end(src, i + 1) == alnum_end(src, self.current as int),
            decreases src.len() - self.current,
        {
            self.current = self.current + 1;
        }
        proof {
            assert(alnum_end(src, self.current as int) == self.current as int);
        }
        let text = subrange_chars(&self.source, self.start, self.current);
        let token_type = match TokenType::from_str(&text) {
            Ok(v) => v,
            Err(_) => TokenType::Identifier,
        };
        let ghost st = scan_step(src, i, old(self).line);
        self.add_token(token_type);
        proof {
            assert(token_views(self.tokens@) =~= token_views(old(self).tokens@) + opt_seq(
                st.token,
            ));
            assert(self.errors@ =~= old(self).errors@ + opt_seq(st.error));
        }
    }

    /// Consumes one or more characters and produces at most one token or one
    /// diagnostic: exactly what one [`scan_step`] prescribes.
    fn scan_token(&mut self)
        requires
            old(self).current < old(self).source@.len(),
        ensures
            ({
                let st = scan_step(old(self).source@, old(self).current as int, old(self).line);
                &&& final(self).source@ == old(self).source@
                &&& final(self).current == st.next
                &&& final(self).line == st.line
                &&& token_views(final(self).tokens@) == token_views(old(self).tokens@) + opt_seq(
                    st.token,
                )
                &&& final(self).errors@ == old(self).errors@ + opt_seq(st.error)
            }),
    {
        let ghost src = self.source@;
        let ghost i = old(self).current as int;
        let ghost st = scan_step(src, i, old(self).line);
        self.start = self.current;
        let c = self.advance();
        if c == '(' {
            self.add_token(TokenType::LeftParen);
        } else if c == ')' {
            self.add_token(TokenType::RightParen);
        } else if c == '{' {
            self.add_token(TokenType::LeftBrace);
        } else if c == '}' {
            self.add_token(TokenType::RightBrace);
        } else if c == ',' {
            self.add_token(TokenType::Comma);
        } else if c == '.' {
            self.add_token(TokenType::Dot);
        } else if c == '-' {
            self.add_token(TokenType::Minus);
        } else if c == '+' {
            self.add_token(TokenType::Plus);
        } else if c == ';' {
            self.add_token(TokenType::Semicolon);
        } else if c == '*' {
            self.add_token(TokenType::Star);
        } else if c == '?' {
            self.add_token(TokenType::QuestionMark);
        } else if c == ':' {
            self.add_token(TokenType::Colon);
        } else if c == '!' {
            if self.match_char('=') {
                self.add_token(TokenType::BangEqual);
            } else {
                self.add_token(TokenType::Bang);
            }
        } else if c == '=' {
            if self.match_char('=') {
                self.add_token(TokenType::EqualEqual);
            } else {
                self.add_token(TokenType::Equal);
            }
        } else if c == '<' {
            if self.match_char('=') {
                self.add_token(TokenType::LessEqual);
            } else {
                self.add_token(TokenType::Less);
            }
        } else if c == '>' {
            if self.match_char('=') {
                self.add_token(TokenType::GreaterEqual);
            } else {
                self.add_token(TokenType::Greater);
            }
        } else if c == '/' {
            if self.match_char('/') {
                // a comment runs to the line's end and produces nothing
                let n = self.source.len();
                while self.current < n && self.source[self.current] != '\n'
                    invariant
                        self.source@ == src,
                        self.tokens@ == old(self).tokens@,
                        self.errors@ == old(self).errors@,
                        self.line == old(self).line,
                        n == src.len(),
                        i + 2 <= self.current as int <= src.len(),
                        comment_end(src, i + 2) == comment_end(src, self.current as int),
                    decreases src.len() - self.current,
                {
                    self.current = self.current + 1;
                }
                proof {
                    assert(comment_end(src, self.current as int) == self.current as int);
                }
            } else {
                self.add_token(TokenType::Slash);
            }
        } else if c == ' ' || c == '\r' || c == '\t' {
            // whitespace is discarded
        } else if c == '\n' {
            if self.line < i32::MAX {
                self.line = self.line + 1;
            }
        } else if c == '"' {
            self.string();
        } else if is_digit_exec(c) {
            self.number();
        } else if is_alpha_exec(c) || c == '_' {
            self.identifier();
        } else {
            self.errors.push(ScanError::UnexpectedCharacter(self.line));
        }
        proof {
            assert(token_views(self.tokens@) =~= token_views(old(self).tokens@) + opt_seq(
                st.token,
            ));
            assert(self.errors@ =~= old(self).errors@ + opt_seq(st.error));
        }
    }

    /// Scans the whole input into tokens, always terminated by an
    /// end-of-input token, handing back the tokens and the scan diagnostics.
    /// Scanning never fails.
    pub fn scan_tokens(&mut self) -> (r: (Vec<Token>, Vec<ScanError>))
        requires
            old(self).current == 0,
            old(self).line == 1,
            old(self).tokens@.len() == 0,
            old(self).errors@.len() == 0,
        ensures
            ({
                let res = scan_from(old(self).source@, 0, 1);
                &&& token_views(r.0@) == res.0
                &&& r.1@ == res.1
                &&& final(self).source@ == old(self).source@
            }),
    {
        let ghost src = self.source@;
        proof {
            assert(token_views(self.tokens@) =~= Seq::<TokenView>::empty());
            assert(Seq::<TokenView>::empty() + scan_from(src, 0, 1).0 =~= scan_from(src, 0, 1).0);
            assert(Seq::<ScanError>::empty() + scan_from(src, 0, 1).1 =~= scan_from(src, 0, 1).1);
        }
        while self.current < self.source.len()
            invariant
                self.source@ == src,
                self.current as int <= src.len(),
                scan_from(src, 0, 1).0 == token_views(self.tokens@) + scan_from(
                    src,
                    self.current as int,
                    self.line,
                ).0,
                scan_from(src, 0, 1).1 == self.errors@ + scan_from(
                    src,
                    self.current as int,
                    self.line,
                ).1,
            decreases src.len() - self.current,
        {
            let ghost cur0 = self.current as int;
            let ghost line0 = self.line;
            let ghost tokens0 = self.tokens@;
            let ghost errors0 = self.errors@;
            self.scan_token();
            proof {
                lemma_scan_step_bounds(src, cur0, line0);
                let st = scan_step(src, cur0, line0);
                assert(scan_from(src, cur0, line0).0 == opt_seq(st.token) + scan_from(
                    src,
                    st.next,
                    st.line,
                ).0);
                assert(scan_from(src, cur0, line0).1 == opt_seq(st.error) + scan_from(
                    src,
                    st.next,
                    st.line,
                ).1);
                assert((token_views(tokens0) + opt_seq(st.token)) + scan_from(
                    src,
                    st.next,
                    st.line,
                ).0 =~= token_views(tokens0) + (opt_seq(st.token) + scan_from(
                    src,
                    st.next,
                    st.line,
                ).0));
                assert((errors0 + opt_seq(st.error)) + scan_from(src, st.next, st.line).1
                    =~= errors0 + (opt_seq(st.error) + scan_from(src, st.next, st.line).1));
            }
        }
        let ghost tokens1 = self.tokens@;
        let ghost errors1 = self.errors@;
        let eof_tok = Token::new(TokenType::EoF, Vec::new(), None, self.line);
        let ghost eofv = eof_tok@;
        self.tokens.push(eof_tok);
        proof {
            assert(scan_from(src, self.current as int, self.line).0 == seq![eof_token(self.line)]);
            assert(scan_from(src, self.current as int, self.line).1 =~= Seq::<ScanError>::empty());
            assert(eofv.lexeme =~= Seq::<char>::empty());
            assert(eofv == eof_token(self.line));
            assert(token_views(self.tokens@) =~= token_views(tokens1).push(eofv));
            assert(token_views(tokens1).push(eofv) =~= token_views(tokens1) + seq![
                eof_token(self.line),
            ]);
            assert(token_views(self.tokens@) =~= scan_from(src, 0, 1).0);
            assert(errors1 + Seq::<ScanError>::empty() =~= errors1);
            assert(self.errors@ =~= scan_from(src, 0, 1).1);
        }
        let mut out_tokens: Vec<Token> = Vec::new();
        let mut out_errors: Vec<ScanError> = Vec::new();
        core::mem::swap(&mut out_tokens, &mut self.tokens);
        core::mem::swap(&mut out_errors, &mut self.errors);
        (out_tokens, out_errors)
    }
}

} // verus!
