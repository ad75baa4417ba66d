use lox::error::ScanError;
use lox::scanner::Scanner;
use lox::token::{Token, TokenType, Value};

fn scan(source: &str) -> (Vec<Token>, Vec<ScanError>) {
    let mut scanner = Scanner::new(source.chars().collect());
    scanner.scan_tokens()
}

fn kinds(tokens: &[Token]) -> Vec<TokenType> {
    tokens.iter().map(|t| t.token_type).collect()
}

fn lexeme(token: &Token) -> String {
    token.lexeme.iter().collect()
}

#[test]
fn scans_a_declaration() {
    let (tokens, errors) = scan("var x = 42;");
    assert!(errors.is_empty());
    assert_eq!(
        kinds(&tokens),
        [
            TokenType::Var,
            TokenType::Identifier,
            TokenType::Equal,
            TokenType::Number,
            TokenType::Semicolon,
            TokenType::EoF,
        ]
    );
    assert_eq!(lexeme(&tokens[1]), "x");
    assert_eq!(tokens[3].literal, Some(Value::Number(42)));
}

#[test]
fn always_ends_with_end_of_input() {
    let (tokens, _) = scan("");
    assert_eq!(kinds(&tokens), [TokenType::EoF]);
    assert_eq!(tokens[0].line, 1);
}

#[test]
fn resolves_compound_operators_by_lookahead() {
    let (tokens, errors) = scan("! != = == < <= > >=");
    assert!(errors.is_empty());
    assert_eq!(
        kinds(&tokens),
        [
            TokenType::Bang,
            TokenType::BangEqual,
            TokenType::Equal,
            TokenType::EqualEqual,
            TokenType::Less,
            TokenType::LessEqual,
            TokenType::Greater,
            TokenType::GreaterEqual,
            TokenType::EoF,
        ]
    );
}

#[test]
fn scans_single_character_tokens() {
    let (tokens, errors) = scan("(){},.-+;*?:/");
    assert!(errors.is_empty());
    assert_eq!(
        kinds(&tokens),
        [
            TokenType::LeftParen,
            TokenType::RightParen,
            TokenType::LeftBrace,
            TokenType::RightBrace,
            TokenType::Comma,
            TokenType::Dot,
            TokenType::Minus,
            TokenType::Plus,
            TokenType::Semicolon,
            TokenType::Star,
            TokenType::QuestionMark,
            TokenType::Colon,
            TokenType::Slash,
            TokenType::EoF,
        ]
    );
}

#[test]
fn comment_runs_to_end_of_line() {
    let (tokens, errors) = scan("1 // all of this vanishes * + \"\n2");
    assert!(errors.is_empty());
    assert_eq!(kinds(&tokens), [TokenType::Number, TokenType::Number, TokenType::EoF]);
    assert_eq!(tokens[0].line, 1);
    assert_eq!(tokens[1].line, 2);
}

#[test]
fn string_literal_excludes_quotes() {
    let (tokens, errors) = scan("\"hi there\"");
    assert!(errors.is_empty());
    assert_eq!(tokens[0].token_type, TokenType::Str);
    assert_eq!(lexeme(&tokens[0]), "\"hi there\"");
    assert_eq!(tokens[0].literal, Some(Value::Str("hi there".chars().collect())));
}

#[test]
fn string_literal_tracks_embedded_newlines() {
    let (tokens, errors) = scan("\"a\nb\" x");
    assert!(errors.is_empty());
    assert_eq!(tokens[0].token_type, TokenType::Str);
    assert_eq!(tokens[0].line, 2);
    assert_eq!(tokens[1].line, 2);
}

#[test]
fn unterminated_string_is_a_scan_error() {
    let (tokens, errors) = scan("\"never closed");
    assert_eq!(kinds(&tokens), [TokenType::EoF]);
    assert_eq!(errors, [ScanError::UnterminatedString(1)]);
}

#[test]
fn unexpected_character_is_reported_and_scanning_continues() {
    let (tokens, errors) = scan("1 @ 2");
    assert_eq!(kinds(&tokens), [TokenType::Number, TokenType::Number, TokenType::EoF]);
    assert_eq!(errors, [ScanError::UnexpectedCharacter(1)]);
}

#[test]
fn scan_error_messages() {
    let msg: String = ScanError::UnexpectedCharacter(4).message().iter().collect();
    assert_eq!(msg, "[line 4] Error: Unexpected character.");
    let msg: String = ScanError::UnterminatedString(2).message().iter().collect();
    assert_eq!(msg, "[line 2] Error: Unterminated string.");
}

#[test]
fn number_consumes_fraction_only_before_digit() {
    let (tokens, errors) = scan("3.14 5.");
    assert!(errors.is_empty());
    assert_eq!(
        kinds(&tokens),
        [TokenType::Number, TokenType::Number, TokenType::Dot, TokenType::EoF]
    );
    assert_eq!(lexeme(&tokens[0]), "3.14");
    assert_eq!(tokens[0].literal, Some(Value::Number(3)));
    assert_eq!(lexeme(&tokens[1]), "5");
}

#[test]
fn keywords_are_case_sensitive() {
    let (tokens, errors) = scan("and And while printx print");
    assert!(errors.is_empty());
    assert_eq!(
        kinds(&tokens),
        [
            TokenType::And,
            TokenType::Identifier,
            TokenType::While,
            TokenType::Identifier,
            TokenType::Print,
            TokenType::EoF,
        ]
    );
}

#[test]
fn all_keywords_scan_as_keywords() {
    let (tokens, errors) =
        scan("and class else false fun for if nil or print return super this true var while");
    assert!(errors.is_empty());
    assert_eq!(
        kinds(&tokens),
        [
            TokenType::And,
            TokenType::Class,
            TokenType::Else,
            TokenType::False,
            TokenType::Fun,
            TokenType::For,
            TokenType::If,
            TokenType::Nil,
            TokenType::Or,
            TokenType::Print,
            TokenType::Return,
            TokenType::Super,
            TokenType::This,
            TokenType::True,
            TokenType::Var,
            TokenType::While,
            TokenType::EoF,
        ]
    );
}

#[test]
fn identifier_may_start_with_underscore() {
    let (tokens, errors) = scan("_tmp1");
    assert!(errors.is_empty());
    assert_eq!(tokens[0].token_type, TokenType::Identifier);
    assert_eq!(lexeme(&tokens[0]), "_tmp1");
}

#[test]
fn newlines_advance_the_line_counter() {
    let (tokens, errors) = scan("1\n2\n\n3");
    assert!(errors.is_empty());
    assert_eq!(tokens[0].line, 1);
    assert_eq!(tokens[1].line, 2);
    assert_eq!(tokens[2].line, 4);
}
