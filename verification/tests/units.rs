use lox::environment::Environment;
use lox::error::RuntimeError;
use lox::text::{chars_eq, i64_to_chars};
use lox::token::{ParseTokenTypeError, Token, TokenType, Value};

fn chars(s: &str) -> Vec<char> {
    s.chars().collect()
}

fn name_token(name: &str, line: i32) -> Token {
    Token::new(TokenType::Identifier, chars(name), None, line)
}

#[test]
fn define_then_get() {
    let mut env = Environment::new(None);
    env.define(chars("a"), Some(Value::Number(1)));
    assert_eq!(env.get(&name_token("a", 1)), Ok(Value::Number(1)));
}

#[test]
fn get_of_undefined_name_fails() {
    let env = Environment::new(None);
    assert_eq!(
        env.get(&name_token("a", 3)),
        Err(RuntimeError::UndefinedVariable(chars("a"), 3))
    );
}

#[test]
fn get_of_uninitialized_name_fails() {
    let mut env = Environment::new(None);
    env.define(chars("a"), None);
    assert_eq!(
        env.get(&name_token("a", 2)),
        Err(RuntimeError::UninitializedVariable(chars("a"), 2))
    );
}

#[test]
fn redeclaration_in_same_scope_overwrites() {
    let mut env = Environment::new(None);
    env.define(chars("a"), Some(Value::Number(1)));
    env.define(chars("a"), Some(Value::Number(2)));
    assert_eq!(env.get(&name_token("a", 1)), Ok(Value::Number(2)));
}

#[test]
fn assign_walks_outward_and_mutates_in_place() {
    let mut outer = Environment::new(None);
    outer.define(chars("a"), Some(Value::Number(1)));
    let mut inner = Environment::new(Some(Box::new(outer)));
    assert_eq!(inner.assign(&name_token("a", 1), Some(Value::Number(5))), Ok(()));
    assert_eq!(inner.get(&name_token("a", 1)), Ok(Value::Number(5)));
}

#[test]
fn assign_never_creates_a_binding() {
    let mut env = Environment::new(None);
    assert_eq!(
        env.assign(&name_token("a", 4), Some(Value::Number(5))),
        Err(RuntimeError::UndefinedVariable(chars("a"), 4))
    );
    assert_eq!(
        env.get(&name_token("a", 4)),
        Err(RuntimeError::UndefinedVariable(chars("a"), 4))
    );
}

#[test]
fn shadowing_leaves_outer_binding_alone() {
    let mut outer = Environment::new(None);
    outer.define(chars("a"), Some(Value::Number(1)));
    let mut inner = Environment::new(Some(Box::new(outer)));
    inner.define(chars("a"), Some(Value::Number(2)));
    assert_eq!(inner.get(&name_token("a", 1)), Ok(Value::Number(2)));
}

#[test]
fn keyword_classification() {
    assert_eq!(TokenType::from_str(&chars("while")), Ok(TokenType::While));
    assert_eq!(TokenType::from_str(&chars("nil")), Ok(TokenType::Nil));
    assert!(matches!(
        TokenType::from_str(&chars("whale")),
        Err(ParseTokenTypeError)
    ));
}

#[test]
fn decimal_rendering() {
    let shown: String = i64_to_chars(0).iter().collect();
    assert_eq!(shown, "0");
    let shown: String = i64_to_chars(-42).iter().collect();
    assert_eq!(shown, "-42");
    let shown: String = i64_to_chars(i64::MIN).iter().collect();
    assert_eq!(shown, "-9223372036854775808");
    let shown: String = i64_to_chars(i64::MAX).iter().collect();
    assert_eq!(shown, "9223372036854775807");
}

#[test]
fn character_text_equality() {
    assert!(chars_eq(&chars("abc"), &chars("abc")));
    assert!(!chars_eq(&chars("abc"), &chars("abd")));
    assert!(!chars_eq(&chars("abc"), &chars("ab")));
}

#[test]
fn value_display_forms() {
    let shown: String = Value::Null.display().iter().collect();
    assert_eq!(shown, "null");
    let shown: String = Value::Boolean(true).display().iter().collect();
    assert_eq!(shown, "true");
    let shown: String = Value::Number(-7).display().iter().collect();
    assert_eq!(shown, "-7");
    let shown: String = Value::Str(chars("hey")).display().iter().collect();
    assert_eq!(shown, "hey");
}
