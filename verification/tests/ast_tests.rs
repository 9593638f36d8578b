use monkey::ast::{Expression, IdentExpression, IntegerLiteral, LetStatement, Program, Statement};
use monkey::token::{Token, TokenType};

#[test]
fn test_to_string() {
    let statements: Vec<Statement> = vec![Statement::Let(LetStatement {
        token: Token {
            token_type: TokenType::Let,
            literal: "let".to_string(),
        },
        name: IdentExpression {
            token: Token {
                token_type: TokenType::Ident,
                literal: "myVar".to_string(),
            },
            value: "myVar".to_string(),
        },
        value: Expression::Ident(IdentExpression {
            token: Token {
                token_type: TokenType::Ident,
                literal: "anotherVar".to_string(),
            },
            value: "anotherVar".to_string(),
        }),
    })];

    let program = Program { statements };
    assert_eq!(program.to_string(), "let myVar = anotherVar;");
}

#[test]
fn test_empty_program_to_string() {
    let program = Program::new();
    assert_eq!(program.to_string(), "");
}

#[test]
fn test_integer_rendering() {
    let zero = IntegerLiteral {
        token: Token::new(TokenType::Int, "0".to_string()),
        value: 0,
    };
    assert_eq!(zero.to_string(), "0");

    let positive = IntegerLiteral {
        token: Token::new(TokenType::Int, "838383".to_string()),
        value: 838383,
    };
    assert_eq!(positive.to_string(), "838383");

    let negative = IntegerLiteral {
        token: Token::new(TokenType::Int, "7".to_string()),
        value: -7,
    };
    assert_eq!(negative.to_string(), "-7");

    let max = IntegerLiteral {
        token: Token::new(TokenType::Int, "9223372036854775807".to_string()),
        value: i64::MAX,
    };
    assert_eq!(max.to_string(), "9223372036854775807");

    let min = IntegerLiteral {
        token: Token::new(TokenType::Int, "9223372036854775808".to_string()),
        value: i64::MIN,
    };
    assert_eq!(min.to_string(), "-9223372036854775808");
}
