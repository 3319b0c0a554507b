use monkey::ast;
use monkey::ast::AST;
use monkey::lexer::Lexer;
use monkey::parse::Parser;

type ParseResult = Result<(), monkey::parse::error::Error>;

#[test]
fn parse_tests_test_let_statements() -> ParseResult {
        let tests = [
            ("let x = 5;", "x", "5"),
            ("let y = 10;", "y", "10"),
            ("let foobar = y;", "foobar", "y"),
        ];

        for (input, expected_name, expected_expr) in tests {
            let program = Parser::new(Lexer::new(input)).parse_program()?;

            assert_eq!(program.statements.len(), 1);

            let ast::Statement::Let { name, value } = &program.statements[0] else {
                panic!("Expected let statement, got: {:?}", program.statements[0]);
            };

            assert_eq!(name, expected_name);
            assert_eq!(value.debug_str(), expected_expr);
        }

        Ok(())
    }

#[test]
fn parse_tests_test_invalid_let_statement() {
        let inputs = ["let x 5;", "let = 10;", "let 838383;"];

        for (index, input) in inputs.iter().enumerate() {
            let program = Parser::new(Lexer::new(input)).parse_program();

            assert!(program.is_err(), "test case {} should have failed", index);
        }
    }

#[test]
fn parse_tests_test_return_statements() -> ParseResult {
        let tests = [
            ("return 5;", "5"),
            ("return 10;", "10"),
            ("return 5 * y", "(5 * y)"),
        ];

        for (input, expected_expr) in tests {
            let program = Parser::new(Lexer::new(input)).parse_program()?;

            assert_eq!(program.statements.len(), 1);

            let ast::Statement::Return(value) = &program.statements[0] else {
                panic!(
                    "Expected return statement, got: {:?}",
                    program.statements[0]
                );
            };

            assert_eq!(value.debug_str(), expected_expr);
        }

        Ok(())
    }

#[test]
fn parse_tests_test_identifier_expression() -> ParseResult {
        let input = "foobar;";

        let program = Parser::new(Lexer::new(input)).parse_program()?;

        assert_eq!(program.statements.len(), 1);

        let ast::Statement::Expression(ast::Expression::Identifier(ref name)) =
            program.statements[0]
        else {
            panic!(
                "Expected identifier expression statement, got: {:?}",
                program.statements[0]
            );
        };

        assert_eq!(name, "foobar");
        Ok(())
    }

#[test]
fn parse_tests_test_integer_literal_expression() -> ParseResult {
        let input = "5;";

        let program = Parser::new(Lexer::new(input)).parse_program()?;

        assert_eq!(program.statements.len(), 1);

        let ast::Statement::Expression(ast::Expression::IntegerLiteral(literal)) =
            program.statements[0]
        else {
            panic!("Expected integer literal, got: {:?}", program.statements[0]);
        };

        assert_eq!(literal, 5);
        Ok(())
    }

#[test]
fn parse_tests_test_string_literal_expression() -> ParseResult {
        let input = "\"hello world\";";

        let program = Parser::new(Lexer::new(input)).parse_program()?;
        assert_eq!(program.statements.len(), 1);

        let ast::Statement::Expression(ast::Expression::StringLiteral(ref literal)) =
            program.statements[0]
        else {
            panic!("Expected string literal, got: {:?}", program.statements[0])
        };

        assert_eq!(literal, "hello world");
        Ok(())
    }

#[test]
fn parse_tests_test_boolean_literal_expression() -> ParseResult {
        let tests = [("true;", true), ("false", false)];

        for (input, expected) in tests {
            let program = Parser::new(Lexer::new(input)).parse_program()?;

            let ast::Statement::Expression(ast::Expression::BooleanLiteral(literal)) =
                program.statements[0]
            else {
                panic!("Expected boolean literal, got: {:?}", program.statements[0]);
            };

            assert_eq!(literal, expected);
        }

        Ok(())
    }

#[test]
fn parse_tests_test_prefix_expressions() -> ParseResult {
        let tests = [
            (
                "!5;",
                ast::Expression::PrefixOperator {
                    operator: ast::PrefixOperatorKind::Not,
                    right: Box::new(ast::Expression::IntegerLiteral(5)),
                },
            ),
            (
                "-15;",
                ast::Expression::PrefixOperator {
                    operator: ast::PrefixOperatorKind::Negative,
                    right: Box::new(ast::Expression::IntegerLiteral(15)),
                },
            ),
            (
                "!false",
                ast::Expression::PrefixOperator {
                    operator: ast::PrefixOperatorKind::Not,
                    right: Box::new(ast::Expression::BooleanLiteral(false)),
                },
            ),
            (
                "!true",
                ast::Expression::PrefixOperator {
                    operator: ast::PrefixOperatorKind::Not,
                    right: Box::new(ast::Expression::BooleanLiteral(true)),
                },
            ),
        ];

        for (input, expected) in tests {
            let program = Parser::new(Lexer::new(input)).parse_program()?;

            assert_eq!(program.statements.len(), 1);
            let stmt = &program.statements[0];
            let ast::Statement::Expression(expr) = stmt else {
                panic!("Expected prefix operator expression, got: {:?}", stmt);
            };

            assert_eq!(*expr, expected);
        }

        Ok(())
    }

#[test]
fn parse_tests_test_infix_expressions() -> ParseResult {
        let tests = [
            ("5 + 5;", 5, ast::InfixOperatorKind::Add, 5),
            ("5 - 5", 5, ast::InfixOperatorKind::Subtract, 5),
            ("5 * 5", 5, ast::InfixOperatorKind::Multiply, 5),
            ("5 / 5", 5, ast::InfixOperatorKind::Divide, 5),
            ("5 == 5", 5, ast::InfixOperatorKind::Equal, 5),
            ("5 != 5", 5, ast::InfixOperatorKind::NotEqual, 5),
            ("5 > 5", 5, ast::InfixOperatorKind::GreaterThan, 5),
            ("5 < 5", 5, ast::InfixOperatorKind::LessThan, 5),
        ];

        for (input, expected_left, expected_operator, expected_right) in tests {
            let program = Parser::new(Lexer::new(input)).parse_program()?;

            assert_eq!(program.statements.len(), 1);

            let stmt = &program.statements[0];
            let ast::Statement::Expression(ast::Expression::InfixOperator {
                operator,
                left,
                right,
            }) = stmt
            else {
                panic!("Expected infix operator expression, got: {:?}", stmt);
            };

            let ast::Expression::IntegerLiteral(left_val) = **left else {
                panic!(
                    "Expected left expression to be an integer literal, got: {:?}",
                    left
                );
            };

            let ast::Expression::IntegerLiteral(right_val) = **right else {
                panic!(
                    "Expected right expression to be an integer literal, got: {:?}",
                    right
                );
            };

            assert_eq!(*operator, expected_operator);
            assert_eq!(left_val, expected_left);
            assert_eq!(right_val, expected_right);
        }

        Ok(())
    }

#[test]
fn parse_tests_test_operator_precedence_parsing() -> ParseResult {
    let tests = [
        ("-a * b", "((-a) * b)"),
        ("!-a", "(!(-a))"),
        ("a + b + c", "((a + b) + c)"),
        ("a + b - c", "((a + b) - c)"),
        ("a * b * c", "((a * b) * c)"),
        ("a * b / c", "((a * b) / c)"),
        ("a + b / c", "(a + (b / c))"),
        ("a + b * c + d / e -f", "(((a + (b * c)) + (d / e)) - f)"),
        ("3 + 4; -5 * 5", "(3 + 4)((-5) * 5)"),
        ("5 > 4 == 3 < 4", "((5 > 4) == (3 < 4))"),
        ("5 < 4 != 3 > 4", "((5 < 4) != (3 > 4))"),
        (
            "3 + 4 * 5 == 3 * 1 + 4 * 5",
            "((3 + (4 * 5)) == ((3 * 1) + (4 * 5)))",
        ),
        ("true", "true"),
        ("false", "false"),
        ("3 > 5 == false", "((3 > 5) == false)"),
        ("3 < 5 == true", "((3 < 5) == true)"),
        ("1 + (2 + 3) + 4", "((1 + (2 + 3)) + 4)"),
        ("(5 + 5) * 2", "((5 + 5) * 2)"),
        ("2 / (5 + 5)", "(2 / (5 + 5))"),
        ("-(5 + 5)", "(-(5 + 5))"),
        ("!(true == true)", "(!(true == true))"),
        ("a + add(b*c) + d", "((a + add((b * c))) + d)"),
        (
            "add(a, b, 1, 2 * 3, 4 + 5, add(6, 7 * 8))",
            "add(a, b, 1, (2 * 3), (4 + 5), add(6, (7 * 8)))",
        ),
        (
            "add(a + b + c * d / f + g)",
            "add((((a + b) + ((c * d) / f)) + g))",
        ),
        (
            "a * [1, 2, 3, 4][b * c] * d",
            "((a * ([1, 2, 3, 4][(b * c)])) * d)",
        ),
        (
            "add(a * b[2], b[1], 2 * [1, 2][1])",
            "add((a * (b[2])), (b[1]), (2 * ([1, 2][1])))",
        ),
    ];

    for (input, expected) in tests {
        let lexer = Lexer::new(input);
        let mut parser = Parser::new(lexer);

        let program = parser.parse_program()?;

        assert_eq!(AST { statements: program.statements }.debug_str(), expected);
    }

    Ok(())
}

#[test]
fn parse_tests_test_if_expression() -> ParseResult {
        let input = "if (x < y) {x}";

        let program = Parser::new(Lexer::new(input)).parse_program()?;

        assert_eq!(program.statements.len(), 1);

        let ast::Statement::Expression(ast::Expression::If {
            condition,
            consequence,
            alternative,
        }) = &program.statements[0]
        else {
            panic!("Expected if expression, got: {:?}", program.statements[0]);
        };

        assert_eq!(condition.debug_str(), "(x < y)");
        assert_eq!(consequence.statements.len(), 1);
        assert_eq!(alternative.statements.len(), 0);

        let ast::Statement::Expression(ast::Expression::Identifier(ref ident)) =
            consequence.statements[0]
        else {
            panic!(
                "Expected identifier statement, got: {:?}",
                consequence.statements[0]
            );
        };
        assert_eq!(ident, "x");

        Ok(())
    }

#[test]
fn parse_tests_test_if_else_expression() -> ParseResult {
        let input = "if (x < y) {x} else {y}";

        let program = Parser::new(Lexer::new(input)).parse_program()?;

        assert_eq!(program.statements.len(), 1);

        let ast::Statement::Expression(ast::Expression::If {
            condition,
            consequence,
            alternative,
        }) = &program.statements[0]
        else {
            panic!("Expected if expression, got: {:?}", program.statements[0]);
        };

        assert_eq!(condition.debug_str(), "(x < y)");
        assert_eq!(consequence.statements.len(), 1);
        assert_eq!(alternative.statements.len(), 1);

        let ast::Statement::Expression(ast::Expression::Identifier(ref ident)) =
            consequence.statements[0]
        else {
            panic!(
                "Expected identifier statement, got: {:?}",
                consequence.statements[0]
            );
        };
        assert_eq!(ident, "x");

        let ast::Statement::Expression(ast::Expression::Identifier(ref ident)) =
            alternative.statements[0]
        else {
            panic!(
                "Expected identifier statement, got: {:?}",
                alternative.statements[0]
            );
        };
        assert_eq!(ident, "y");

        Ok(())
    }

#[test]
fn parse_tests_test_function_literal_parsing() -> ParseResult {
        let input = "fn(x, y) {x + y;}";

        let program = Parser::new(Lexer::new(input)).parse_program()?;

        assert_eq!(program.statements.len(), 1);

        let ast::Statement::Expression(ast::Expression::FunctionLiteral { parameters, body }) =
            &program.statements[0]
        else {
            panic!(
                "Expected function literal, got: {:?}",
                program.statements[0]
            );
        };

        assert_eq!(parameters.len(), 2);
        assert_eq!(parameters[0], "x");
        assert_eq!(parameters[1], "y");

        assert_eq!(body.statements.len(), 1);
        assert_eq!(body.statements[0].debug_str(), "(x + y)");

        Ok(())
    }

#[test]
fn parse_tests_test_function_parameters_parsing() -> ParseResult {
        let tests = [
            ("fn() {}", vec![]),
            ("fn(x) {}", vec!["x"]),
            ("fn(x, y, z) {}", vec!["x", "y", "z"]),
        ];

        for (input, expected) in tests {
            let program = Parser::new(Lexer::new(input)).parse_program()?;

            assert_eq!(program.statements.len(), 1);

            let ast::Statement::Expression(ast::Expression::FunctionLiteral {
                parameters,
                body: _,
            }) = &program.statements[0]
            else {
                panic!(
                    "Expected function literal, got: {:?}",
                    program.statements[0]
                );
            };

            assert_eq!(*parameters, expected);
        }

        Ok(())
    }

#[test]
fn parse_tests_test_function_call_expression() -> ParseResult {
        let input = "add(1, 2*3, 4 + 5);";

        let program = Parser::new(Lexer::new(input)).parse_program()?;

        assert_eq!(program.statements.len(), 1);

        let ast::Statement::Expression(ast::Expression::FunctionCall {
            function,
            arguments,
        }) = &program.statements[0]
        else {
            panic!("Expected call expression, got: {:?}", program.statements[0]);
        };

        assert_eq!(function.debug_str(), "add");
        assert_eq!(arguments.len(), 3);
        assert_eq!(arguments[0].debug_str(), "1");
        assert_eq!(arguments[1].debug_str(), "(2 * 3)");
        assert_eq!(arguments[2].debug_str(), "(4 + 5)");

        Ok(())
    }

#[test]
fn parse_tests_test_function_arguments_parsing() -> ParseResult {
        let tests = [
            ("add();", vec![]),
            ("add(1);", vec!["1"]),
            ("add(1, 2 * 3, 4 + 5);", vec!["1", "(2 * 3)", "(4 + 5)"]),
        ];

        for (input, expected) in tests {
            let program = Parser::new(Lexer::new(input)).parse_program()?;

            assert_eq!(program.statements.len(), 1);

            let ast::Statement::Expression(ast::Expression::FunctionCall {
                function: _,
                arguments,
            }) = &program.statements[0]
            else {
                panic!(
                    "Expected function call expression, got: {:?}",
                    program.statements[0]
                );
            };

            assert_eq!(
                arguments
                    .iter()
                    .map(|arg| arg.debug_str())
                    .collect::<Vec<String>>(),
                expected
            );
        }

        Ok(())
    }

#[test]
fn test_array_literal_parsing() -> ParseResult {
        let input = "[1, 2 * 2, 3 + 3]";

        let program = Parser::new(Lexer::new(input)).parse_program()?;
        assert_eq!(program.statements.len(), 1);

        let ast::Statement::Expression(ast::Expression::ArrayLiteral(ref arr)) =
            program.statements[0]
        else {
            panic!("Expected array literal, got {:?}", program.statements[0])
        };

        assert_eq!(arr.len(), 3);
        assert_eq!(arr[0].debug_str(), "1");
        assert_eq!(arr[1].debug_str(), "(2 * 2)");
        assert_eq!(arr[2].debug_str(), "(3 + 3)");

        Ok(())
    }

#[test]
fn test_index_expression_parsing() -> ParseResult {
        let input = "myArray[1 + 1]";

        let program = Parser::new(Lexer::new(input)).parse_program()?;
        assert_eq!(program.statements.len(), 1);

        let ast::Statement::Expression(ast::Expression::Index { left, index }) =
            &program.statements[0]
        else {
            panic!("Expected index expression, got {:?}", program.statements[0])
        };

        assert_eq!(**left, ast::Expression::Identifier("myArray".to_string()));
        assert_eq!(
            **index,
            ast::Expression::InfixOperator {
                operator: ast::InfixOperatorKind::Add,
                left: Box::new(ast::Expression::IntegerLiteral(1)),
                right: Box::new(ast::Expression::IntegerLiteral(1))
            }
        );

        Ok(())
    }

