use monkey::lexer::Lexer;
use monkey::token::TokenType;

#[test]
fn test_next_token() {
    let input = r#"
          let five = 5;
          let ten = 10;

          let add = fn(x, y) {
            x + y;
          };

          let result = add(five, ten);
          !-/*5;
          5 < 10 > 5;

          if (5 < 10) {
            return true;
          } else {
            return false;
          }

          10 == 10;
          10 != 9;
        "#;

    let expected_values = vec![
        (TokenType::Let, "let"),
        (TokenType::Ident, "five"),
        (TokenType::Assign, "="),
        (TokenType::Int, "5"),
        (TokenType::Semicolon, ";"),
        (TokenType::Let, "let"),
        (TokenType::Ident, "ten"),
        (TokenType::Assign, "="),
        (TokenType::Int, "10"),
        (TokenType::Semicolon, ";"),
        (TokenType::Let, "let"),
        (TokenType::Ident, "add"),
        (TokenType::Assign, "="),
        (TokenType::Function, "fn"),
        (TokenType::LeftParen, "("),
        (TokenType::Ident, "x"),
        (TokenType::Comma, ","),
        (TokenType::Ident, "y"),
        (TokenType::RightParen, ")"),
        (TokenType::LeftBrace, "{"),
        (TokenType::Ident, "x"),
        (TokenType::Plus, "+"),
        (TokenType::Ident, "y"),
        (TokenType::Semicolon, ";"),
        (TokenType::RightBrace, "}"),
        (TokenType::Semicolon, ";"),
        (TokenType::Let, "let"),
        (TokenType::Ident, "result"),
        (TokenType::Assign, "="),
        (TokenType::Ident, "add"),
        (TokenType::LeftParen, "("),
        (TokenType::Ident, "five"),
        (TokenType::Comma, ","),
        (TokenType::Ident, "ten"),
        (TokenType::RightParen, ")"),
        (TokenType::Semicolon, ";"),
        (TokenType::Bang, "!"),
        (TokenType::Minus, "-"),
        (TokenType::Slash, "/"),
        (TokenType::Asterisk, "*"),
        (TokenType::Int, "5"),
        (TokenType::Semicolon, ";"),
        (TokenType::Int, "5"),
        (TokenType::LessThan, "<"),
        (TokenType::Int, "10"),
        (TokenType::GreaterThan, ">"),
        (TokenType::Int, "5"),
        (TokenType::Semicolon, ";"),
        (TokenType::If, "if"),
        (TokenType::LeftParen, "("),
        (TokenType::Int, "5"),
        (TokenType::LessThan, "<"),
        (TokenType::Int, "10"),
        (TokenType::RightParen, ")"),
        (TokenType::LeftBrace, "{"),
        (TokenType::Return, "return"),
        (TokenType::True, "true"),
        (TokenType::Semicolon, ";"),
        (TokenType::RightBrace, "}"),
        (TokenType::Else, "else"),
        (TokenType::LeftBrace, "{"),
        (TokenType::Return, "return"),
        (TokenType::False, "false"),
        (TokenType::Semicolon, ";"),
        (TokenType::RightBrace, "}"),
        (TokenType::Int, "10"),
        (TokenType::Equal, "=="),
        (TokenType::Int, "10"),
        (TokenType::Semicolon, ";"),
        (TokenType::Int, "10"),
        (TokenType::NotEqual, "!="),
        (TokenType::Int, "9"),
        (TokenType::Semicolon, ";"),
        (TokenType::Eof, ""),
    ];

    let mut lexer = Lexer::new(&input);

    for expected in expected_values.iter() {
        let token = lexer.next_token();

        assert_eq!(token.token_type, expected.0);
        assert_eq!(token.literal, expected.1);
    }
}

#[test]
fn test_punctuation_only_one_token_per_character() {
    let input = "+-*/<>,;(){}";
    let expected = vec![
        (TokenType::Plus, "+"),
        (TokenType::Minus, "-"),
        (TokenType::Asterisk, "*"),
        (TokenType::Slash, "/"),
        (TokenType::LessThan, "<"),
        (TokenType::GreaterThan, ">"),
        (TokenType::Comma, ","),
        (TokenType::Semicolon, ";"),
        (TokenType::LeftParen, "("),
        (TokenType::RightParen, ")"),
        (TokenType::LeftBrace, "{"),
        (TokenType::RightBrace, "}"),
    ];

    let mut lexer = Lexer::new(input);
    for (kind, literal) in expected.iter() {
        let token = lexer.next_token();
        assert_eq!(token.token_type, *kind);
        assert_eq!(token.literal, *literal);
    }
    for _ in 0..3 {
        let token = lexer.next_token();
        assert_eq!(token.token_type, TokenType::Eof);
        assert_eq!(token.literal, "");
    }
}

#[test]
fn test_two_character_operators_scan_as_one_token() {
    let mut lexer = Lexer::new("10 == 10;");
    assert_eq!(lexer.next_token().token_type, TokenType::Int);
    let eq = lexer.next_token();
    assert_eq!(eq.token_type, TokenType::Equal);
    assert_eq!(eq.literal, "==");
    assert_eq!(lexer.next_token().token_type, TokenType::Int);
    assert_eq!(lexer.next_token().token_type, TokenType::Semicolon);
    assert_eq!(lexer.next_token().token_type, TokenType::Eof);

    let mut lexer = Lexer::new("10 != 9;");
    assert_eq!(lexer.next_token().token_type, TokenType::Int);
    let ne = lexer.next_token();
    assert_eq!(ne.token_type, TokenType::NotEqual);
    assert_eq!(ne.literal, "!=");
    assert_eq!(lexer.next_token().token_type, TokenType::Int);
    assert_eq!(lexer.next_token().token_type, TokenType::Semicolon);
    assert_eq!(lexer.next_token().token_type, TokenType::Eof);
}

#[test]
fn test_let_five_kind_sequence() {
    let mut lexer = Lexer::new("let five = 5;");
    let expected = vec![
        (TokenType::Let, "let"),
        (TokenType::Ident, "five"),
        (TokenType::Assign, "="),
        (TokenType::Int, "5"),
        (TokenType::Semicolon, ";"),
        (TokenType::Eof, ""),
    ];
    for (kind, literal) in expected.iter() {
        let token = lexer.next_token();
        assert_eq!(token.token_type, *kind);
        assert_eq!(token.literal, *literal);
    }
}

#[test]
fn test_illegal_character() {
    let mut lexer = Lexer::new("@");
    let token = lexer.next_token();
    assert_eq!(token.token_type, TokenType::Illegal);
    assert_eq!(token.literal, "@");
    assert_eq!(lexer.next_token().token_type, TokenType::Eof);
}

#[test]
fn test_empty_input_yields_eof() {
    let mut lexer = Lexer::new("");
    for _ in 0..3 {
        let token = lexer.next_token();
        assert_eq!(token.token_type, TokenType::Eof);
        assert_eq!(token.literal, "");
    }
}

#[test]
fn test_underscore_identifier() {
    let mut lexer = Lexer::new("_foo bar_baz");
    let first = lexer.next_token();
    assert_eq!(first.token_type, TokenType::Ident);
    assert_eq!(first.literal, "_foo");
    let second = lexer.next_token();
    assert_eq!(second.token_type, TokenType::Ident);
    assert_eq!(second.literal, "bar_baz");
    assert_eq!(lexer.next_token().token_type, TokenType::Eof);
}
