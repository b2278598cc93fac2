use jialox::environment::Environment;
use jialox::literal::Literal;
use jialox::rational::Rational;
use jialox::token::Token;
use jialox::token_type::TokenType;

fn name_token(name: &str) -> Token {
    Token::new(TokenType::Identifier, name.to_string(), None, 1)
}

#[test]
fn can_define_a_variable() {
    let mut e = Environment::new();
    e.define("one", Literal::Bool(true));
    let result = e.get(&name_token("one"));
    assert!(result.is_ok());
    assert_eq!(result.unwrap(), Literal::Bool(true));
}

#[test]
fn can_redefine_a_variable() {
    let mut e = Environment::new();
    e.define("one", Literal::Bool(true));
    e.define("one", Literal::Num(Rational::new(false, 128, 10)));
    let result = e.get(&name_token("one"));
    assert!(result.is_ok());
    assert_eq!(result.unwrap(), Literal::Num(Rational::new(false, 128, 10)));
}

#[test]
fn can_look_up_a_variable() {
    let mut e = Environment::new();
    e.define("three", Literal::Str("foo".to_string()));
    let tok = Token::new(TokenType::Identifier, "three".to_string(), None, 1);
    let result = e.get(&tok);
    assert!(result.is_ok());
    assert_eq!(result.unwrap(), Literal::Str("foo".to_string()));
}

#[test]
fn error_when_variable_undefined() {
    let e = Environment::new();
    let tok = Token::new(TokenType::Identifier, "three".to_string(), None, 1);
    assert!(e.get(&tok).is_err());
}

#[test]
fn undefined_variable_error_names_the_variable() {
    let e = Environment::new();
    let tok = Token::new(TokenType::Identifier, "missing".to_string(), None, 7);
    let err = e.get(&tok).unwrap_err();
    assert_eq!(err.line, 7);
    assert_eq!(err.message, "var missing is not defined.".to_string());
    assert!(err.token.is_some());
}
