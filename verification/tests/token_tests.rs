use monkey::parser::Precedence;
use monkey::token::{Token, TokenType};

#[test]
fn test_kind_literals() {
    assert_eq!(TokenType::Assign.get_literal(), "=");
    assert_eq!(TokenType::Equal.get_literal(), "==");
    assert_eq!(TokenType::NotEqual.get_literal(), "!=");
    assert_eq!(TokenType::Int.get_literal(), "int");
    assert_eq!(TokenType::Function.get_literal(), "function");
    assert_eq!(TokenType::Let.get_literal(), "let");
    assert_eq!(TokenType::Ident.get_literal(), "");
    assert_eq!(TokenType::Eof.get_literal(), "");
    assert_eq!(TokenType::Illegal.get_literal(), "");
}

#[test]
fn test_precedence_ladder_values() {
    assert_eq!(Precedence::Lowest.value(), 1);
    assert_eq!(Precedence::Equals.value(), 2);
    assert_eq!(Precedence::LessGreater.value(), 3);
    assert_eq!(Precedence::Sum.value(), 4);
    assert_eq!(Precedence::Product.value(), 5);
    assert_eq!(Precedence::Prefix.value(), 6);
    assert_eq!(Precedence::Call.value(), 7);
}

#[test]
fn test_infix_kind_precedences() {
    assert_eq!(TokenType::Plus.precedence(), Precedence::Sum);
    assert_eq!(TokenType::Minus.precedence(), Precedence::Sum);
    assert_eq!(TokenType::Asterisk.precedence(), Precedence::Product);
    assert_eq!(TokenType::Slash.precedence(), Precedence::Product);
    assert_eq!(TokenType::LessThan.precedence(), Precedence::LessGreater);
    assert_eq!(TokenType::GreaterThan.precedence(), Precedence::LessGreater);
    assert_eq!(TokenType::Equal.precedence(), Precedence::Equals);
    assert_eq!(TokenType::NotEqual.precedence(), Precedence::Equals);
    assert_eq!(TokenType::Let.precedence(), Precedence::Lowest);
    assert_eq!(TokenType::Semicolon.precedence(), Precedence::Lowest);
}

#[test]
fn test_is_infix_classification() {
    assert!(TokenType::Plus.is_infix());
    assert!(TokenType::Minus.is_infix());
    assert!(TokenType::Asterisk.is_infix());
    assert!(TokenType::Slash.is_infix());
    assert!(TokenType::LessThan.is_infix());
    assert!(TokenType::GreaterThan.is_infix());
    assert!(TokenType::Equal.is_infix());
    assert!(TokenType::NotEqual.is_infix());
    assert!(!TokenType::Bang.is_infix());
    assert!(!TokenType::Assign.is_infix());
    assert!(!TokenType::Semicolon.is_infix());
    assert!(!TokenType::Eof.is_infix());
}

#[test]
fn test_token_new_keeps_kind_and_literal() {
    let token = Token::new(TokenType::Ident, "five".to_string());
    assert_eq!(token.token_type, TokenType::Ident);
    assert_eq!(token.literal, "five");
    let copy = token.clone();
    assert_eq!(copy.token_type, TokenType::Ident);
    assert_eq!(copy.literal, "five");
}
