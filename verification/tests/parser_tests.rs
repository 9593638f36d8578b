use monkey::ast::{Expression, NodeTrait, Statement};
use monkey::lexer::Lexer;
use monkey::parser::Parser;

fn test_let_statement(statement: &Statement, name: &str) -> bool {
    let Statement::Let(statement) = statement else {
        panic!("Not a Let statement");
    };

    if statement.name.value != name {
        panic!("statement.name.value not {}", name);
    }

    if statement.name.token_literal() != name {
        panic!("statement.name.token_literal() not {}", name);
    }

    true
}

fn check_parser_errors(parser: &Parser) {
    let errors = parser.errors();
    if errors.len() == 0 {
        return;
    }

    println!("Parser has {} errors", errors.len());
    for error in errors.iter() {
        println!("Parser error: {}", error)
    }
    panic!()
}

fn test_integer_literal(expression: &Expression, value: &i64) -> bool {
    let Expression::Integer(int) = expression else {
        println!("Expression isn't an Integer, got {}", expression.to_string());
        return false;
    };

    if &int.value != value {
        println!("Integer value is not \"{}\", got \"{}\"", value, int.value);
        return false;
    }

    if int.token_literal() != value.to_string() {
        println!(
            "Integer token literal isn't \"{}\", got \"{}\"",
            value,
            int.token_literal()
        );
        return false;
    }

    true
}

#[test]
fn test_let_statements() {
    let input = r#"
          let x = 5;
          let y = 10;
          let foobar = 838383;
        "#;

    let lexer = Lexer::new(input);
    let mut parser = Parser::new(lexer);

    let program = parser.parse_program();
    check_parser_errors(&parser);

    assert_eq!(program.statements.len(), 3);
    assert!(test_let_statement(&program.statements[0], "x"));
    assert!(test_let_statement(&program.statements[1], "y"));
    assert!(test_let_statement(&program.statements[2], "foobar"));
}

#[test]
fn test_return_statements() {
    let input = r#"
          return 5;
          return 10;
          return 993322;
        "#;

    let lexer = Lexer::new(&input);
    let mut parser = Parser::new(lexer);

    let program = parser.parse_program();
    check_parser_errors(&parser);

    if program.statements.len() != 3 {
        panic!(
            "program.statements does not contain 3 statements. Got {}",
            program.statements.len()
        );
    }

    for stmt in program.statements.iter() {
        match stmt {
            Statement::Return(s) => {
                if s.token_literal() != "return" {
                    panic!(
                        "ReturnStatement literal is not \"return\", got \"{}\"",
                        s.token_literal()
                    )
                }
            }
            _ => panic!("stmt is not a ReturnStatement. Got {}", stmt.token_literal()),
        }
    }
}

#[test]
fn test_identifier_expression() {
    let input = "foobar;";

    let lexer = Lexer::new(&input);
    let mut parser = Parser::new(lexer);
    let program = parser.parse_program();
    check_parser_errors(&parser);

    assert_eq!(
        program.statements.len(),
        1,
        "The program should contain 1 statement"
    );

    let Statement::Expression(stmt) = &program.statements[0] else {
        panic!("Statement isn't an expression");
    };

    let Expression::Ident(ident) = &stmt.expression else {
        panic!("Expression isn't an identifier");
    };

    assert_eq!(ident.token_literal(), "foobar");
}

#[test]
fn test_integer_literal_expression() {
    let input = "5;";

    let lexer = Lexer::new(&input);
    let mut parser = Parser::new(lexer);
    let program = parser.parse_program();
    check_parser_errors(&parser);

    assert_eq!(
        program.statements.len(),
        1,
        "The program should contain 1 statement"
    );

    let Statement::Expression(stmt) = &program.statements[0] else {
        panic!("Statement isn't an expression");
    };

    let Expression::Integer(integer_literal) = &stmt.expression else {
        panic!("Expression isn't an Integer");
    };

    assert_eq!(integer_literal.value, 5);
    assert_eq!(integer_literal.token_literal(), "5");
}

#[test]
fn test_parsing_prefix_expressions() {
    let tests: Vec<(&str, &str, i64)> = vec![("!5;", "!", 5), ("-15;", "-", 15)];

    for (input, operator, value) in tests.iter() {
        let lexer = Lexer::new(input);
        let mut parser = Parser::new(lexer);
        let program = parser.parse_program();
        check_parser_errors(&parser);

        assert_eq!(
            program.statements.len(),
            1,
            "The program should have 1 statement"
        );

        let Statement::Expression(stmt) = &program.statements[0] else {
            panic!("Statement isn't an expression");
        };

        let Expression::Prefix(prefix) = &stmt.expression else {
            panic!("Statement isn't a prefix expression");
        };

        assert_eq!(
            &prefix.operator, operator,
            "Operator is not \"{}\", got \"{}\"",
            operator, prefix.operator
        );

        assert!(test_integer_literal(prefix.right.as_ref(), value));
    }
}

#[test]
fn test_parsing_infix_expressions() {
    let tests: Vec<(&str, i64, &str, i64)> = vec![
        ("5 + 5", 5, "+", 5),
        ("5 - 5", 5, "-", 5),
        ("5 * 5", 5, "*", 5),
        ("5 / 5", 5, "/", 5),
        ("5 > 5", 5, ">", 5),
        ("5 < 5", 5, "<", 5),
        ("5 == 5", 5, "==", 5),
        ("5 != 5", 5, "!=", 5),
    ];

    for (input, left_value, operator, right_value) in tests.iter() {
        let lexer = Lexer::new(input);
        let mut parser = Parser::new(lexer);
        let program = parser.parse_program();
        check_parser_errors(&parser);

        assert_eq!(
            program.statements.len(),
            1,
            "The program should have 1 statement"
        );

        let Statement::Expression(stmt) = &program.statements[0] else {
            panic!("Statement isn't an expression");
        };

        let Expression::Infix(infix) = &stmt.expression else {
            panic!("Statement isn't a prefix expression");
        };

        assert!(test_integer_literal(infix.left.as_ref(), left_value));

        assert_eq!(
            &infix.operator, operator,
            "Operator is not \"{}\", got \"{}\"",
            operator, infix.operator
        );

        assert!(test_integer_literal(infix.right.as_ref(), right_value));
    }
}

#[test]
fn test_operator_precedence_parsing() {
    let tests: Vec<(&str, &str)> = vec![
        ("-a * b", "((-a) * b)"),
        ("!-a", "(!(-a))"),
        ("a + b + c", "((a + b) + c)"),
        ("a + b - c", "((a + b) - c)"),
        ("a * b * c", "((a * b) * c)"),
        ("a * b / c", "((a * b) / c)"),
        ("a + b / c", "(a + (b / c))"),
        ("a + b * c + d / e - f", "(((a + (b * c)) + (d / e)) - f)"),
        ("3 + 4; -5 * 5", "(3 + 4)((-5) * 5)"),
        ("5 > 4 == 3 < 4", "((5 > 4) == (3 < 4))"),
        ("5 < 4 != 3 > 4", "((5 < 4) != (3 > 4))"),
        (
            "3 + 4 * 5 == 3 * 1 + 4 * 5",
            "((3 + (4 * 5)) == ((3 * 1) + (4 * 5)))",
        ),
    ];

    for (input, expected) in tests.iter() {
        let lexer = Lexer::new(input);
        let mut parser = Parser::new(lexer);
        let program = parser.parse_program();
        check_parser_errors(&parser);

        assert_eq!(&program.to_string(), expected);
    }
}

#[test]
fn test_malformed_let_missing_assign_reports_error() {
    let input = "let x 5;";

    let lexer = Lexer::new(input);
    let mut parser = Parser::new(lexer);
    let program = parser.parse_program();

    let errors = parser.errors();
    assert_eq!(errors.len(), 1);
    assert_eq!(errors[0], "expected next token to be \"=\", got \"int\" instead");
    assert_eq!(program.statements.len(), 1);
}

#[test]
fn test_malformed_let_missing_name_reports_error() {
    let input = "let = 5;";

    let lexer = Lexer::new(input);
    let mut parser = Parser::new(lexer);
    let program = parser.parse_program();

    let errors = parser.errors();
    assert_eq!(errors.len(), 1);
    assert_eq!(errors[0], "expected next token to be \"\", got \"=\" instead");
    assert_eq!(program.statements.len(), 1);
}

#[test]
fn test_integer_literal_too_large_reports_error() {
    let input = "92233720368547758089;";

    let lexer = Lexer::new(input);
    let mut parser = Parser::new(lexer);
    let program = parser.parse_program();

    let errors = parser.errors();
    assert_eq!(errors.len(), 1);
    assert_eq!(
        errors[0],
        "Could not parse 92233720368547758089 as integer"
    );
    assert_eq!(program.statements.len(), 0);
}

#[test]
fn test_largest_integer_literal_parses() {
    let input = "9223372036854775807;";

    let lexer = Lexer::new(input);
    let mut parser = Parser::new(lexer);
    let program = parser.parse_program();
    check_parser_errors(&parser);

    assert_eq!(program.statements.len(), 1);
    let Statement::Expression(stmt) = &program.statements[0] else {
        panic!("Statement isn't an expression");
    };
    assert!(test_integer_literal(&stmt.expression, &i64::MAX));
}

#[test]
fn test_let_without_trailing_semicolon_terminates() {
    let input = "let x = 5";

    let lexer = Lexer::new(input);
    let mut parser = Parser::new(lexer);
    let program = parser.parse_program();
    check_parser_errors(&parser);

    assert_eq!(program.statements.len(), 1);
    assert!(test_let_statement(&program.statements[0], "x"));
}

#[test]
fn test_expression_without_trailing_semicolon() {
    let input = "foobar";

    let lexer = Lexer::new(input);
    let mut parser = Parser::new(lexer);
    let program = parser.parse_program();
    check_parser_errors(&parser);

    assert_eq!(program.statements.len(), 1);
    let Statement::Expression(stmt) = &program.statements[0] else {
        panic!("Statement isn't an expression");
    };
    let Expression::Ident(ident) = &stmt.expression else {
        panic!("Expression isn't an identifier");
    };
    assert_eq!(ident.value, "foobar");
}

#[test]
fn test_empty_input_parses_to_empty_program() {
    let input = "";

    let lexer = Lexer::new(input);
    let mut parser = Parser::new(lexer);
    let program = parser.parse_program();
    check_parser_errors(&parser);

    assert_eq!(program.statements.len(), 0);
}
