use monkey_core::lexer::Lexer;
use monkey_core::parser::ast;
use monkey_core::parser::Parser;

#[test]
fn mod_test_let_statements() {
    let tests = vec![
        ("let x = 5;", "x", ast::Expression::Integer(5)),
        ("let y = true;", "y", ast::Expression::Boolean(true)),
        (
            "let foobar = y;",
            "foobar",
            ast::Expression::Identifier("y".to_string()),
        ),
    ];

    for test in tests.iter() {
        let l = Lexer::new(test.0.to_string());
        let mut p = Parser::new(l);
        let program = p.parse_program().unwrap();
        assert_eq!(program.statements.len(), 1);
        let stmt = &program.statements[0];
        if let ast::Statement::Let { identifier, .. } = stmt {
            if let ast::Expression::Identifier(identifier) = identifier {
                assert_eq!(identifier, test.1)
            } else {
                panic!("expected ast::Statement::Let, but got {:?}", stmt);
            }
        }
        if let ast::Statement::Let { identifier: _, value } = stmt {
            match value {
                ast::Expression::Integer(v) => assert_eq!(ast::Expression::Integer(*v), test.2),
                ast::Expression::Boolean(v) => assert_eq!(ast::Expression::Boolean(*v), test.2),
                ast::Expression::Identifier(v) => {
                    assert_eq!(ast::Expression::Identifier(v.to_string()), test.2)
                }
                err_expr => panic!(
                    "expected ast::Expression::(Integer|Boolean|Identifier), but got {:?}",
                    err_expr
                ),
            }
        }
    }
}

#[test]
fn mod_test_return_statements() {
    let input = "
        return 5;
        return 10;
        return 993322;
        ";
    let l = Lexer::new(input.to_string());
    let mut p = Parser::new(l);
    let program = p.parse_program().unwrap();
    assert_eq!(program.statements.len(), 3);
    for stmt in program.statements.iter() {
        if let ast::Statement::Return(_) = stmt {
        } else {
            panic!("expected ast::Statement::Return, but got {:?}", stmt);
        }
    }
}

#[test]
fn test_identifier_expresion() {
    let input = "foobar;";
    let l = Lexer::new(input.to_string());
    let mut p = Parser::new(l);
    let program = p.parse_program().unwrap();

    assert_eq!(program.statements.len(), 1);
    let stmt = &program.statements[0];
    if let ast::Statement::Expression(expr) = stmt {
        if let ast::Expression::Identifier(ident) = expr {
            assert_eq!(ident, "foobar")
        } else {
            panic!("Incorrect expression");
        }
    } else {
        panic!("Incorrect statement");
    }
}

#[test]
fn test_integer_literal_expression() {
    let input = "5;";
    let l = Lexer::new(input.to_string());
    let mut p = Parser::new(l);
    let program = p.parse_program().unwrap();
    assert_eq!(program.statements.len(), 1);
    let stmt = &program.statements[0];
    if let ast::Statement::Expression(expr) = stmt {
        if let ast::Expression::Integer(ident) = expr {
            assert_eq!(ident, &5);
        } else {
            panic!("Incorrect expression");
        }
    } else {
        panic!("Incorrect statement");
    }
}

#[test]
fn test_parse_prefix_expressions() {
    struct PrefixExpressionTest {
        input: String,
        operator: ast::Prefix,
        right: ast::Expression,
    }
    let prefix_tests = vec![
        PrefixExpressionTest {
            input: "!5;".to_string(),
            operator: ast::Prefix::Bang,
            right: ast::Expression::Integer(5),
        },
        PrefixExpressionTest {
            input: "-15;".to_string(),
            operator: ast::Prefix::Minus,
            right: ast::Expression::Integer(15),
        },
    ];
    for test in prefix_tests.iter() {
        let l = Lexer::new(test.input.clone());
        let mut p = Parser::new(l);
        let program = p.parse_program().unwrap();
        assert_eq!(program.statements.len(), 1);
    }
}

#[test]
fn test_parse_infix_expressions() {
    struct InfixExpressionTest {
        input: String,
        left: ast::Expression,
        operator: ast::Infix,
        right: ast::Expression,
    }
    let infix_tests = vec![
        InfixExpressionTest {
            input: "5+5;".to_string(),
            left: ast::Expression::Integer(5),
            operator: ast::Infix::Plus,
            right: ast::Expression::Integer(5),
        },
        InfixExpressionTest {
            input: "5-5;".to_string(),
            left: ast::Expression::Integer(5),
            operator: ast::Infix::Minus,
            right: ast::Expression::Integer(5),
        },
        InfixExpressionTest {
            input: "5*5;".to_string(),
            left: ast::Expression::Integer(5),
            operator: ast::Infix::Asterisk,
            right: ast::Expression::Integer(5),
        },
        InfixExpressionTest {
            input: "5/5;".to_string(),
            left: ast::Expression::Integer(5),
            operator: ast::Infix::Slash,
            right: ast::Expression::Integer(5),
        },
        InfixExpressionTest {
            input: "5>5;".to_string(),
            left: ast::Expression::Integer(5),
            operator: ast::Infix::GT,
            right: ast::Expression::Integer(5),
        },
        InfixExpressionTest {
            input: "5<5;".to_string(),
            left: ast::Expression::Integer(5),
            operator: ast::Infix::LT,
            right: ast::Expression::Integer(5),
        },
        InfixExpressionTest {
            input: "5==5;".to_string(),
            left: ast::Expression::Integer(5),
            operator: ast::Infix::Eq,
            right: ast::Expression::Integer(5),
        },
        InfixExpressionTest {
            input: "5!=5;".to_string(),
            left: ast::Expression::Integer(5),
            operator: ast::Infix::NotEq,
            right: ast::Expression::Integer(5),
        },
        InfixExpressionTest {
            input: "true==true;".to_string(),
            left: ast::Expression::Boolean(true),
            operator: ast::Infix::Eq,
            right: ast::Expression::Boolean(true),
        },
        InfixExpressionTest {
            input: "true!=false;".to_string(),
            left: ast::Expression::Boolean(false),
            operator: ast::Infix::NotEq,
            right: ast::Expression::Boolean(false),
        },
        InfixExpressionTest {
            input: "false==false;".to_string(),
            left: ast::Expression::Boolean(false),
            operator: ast::Infix::Eq,
            right: ast::Expression::Boolean(false),
        },
    ];
    for test in infix_tests.iter() {
        let l = Lexer::new(test.input.clone());
        let mut p = Parser::new(l);
        let program = p.parse_program().unwrap();
        assert_eq!(program.statements.len(), 1);
    }
}

#[test]
fn test_operator_precedence_parsing() {
    let tests = vec![
        ("-a*b", "((-a)*b)"),
        ("5+5*10", "(5+(5*10))"),
        ("1+(2+3)+4", "((1+(2+3))+4)"),
        ("(5+5)*2", "((5+5)*2)"),
        ("2/(5+5)", "(2/(5+5))"),
        ("-(5+5)", "(-(5+5))"),
        ("!(true==true)", "(!(true==true))"),
        ("a+add(b*c)+d", "((a+add((b*c)))+d)"),
        (
            "add(a,b,1,2*3,4+5,add(6,7*8))",
            "add(a,b,1,(2*3),(4+5),add(6,(7*8)))",
        ),
        ("add(a+b+c*d/f+g)", "add((((a+b)+((c*d)/f))+g))"),
    ];
    for (input, expected) in tests {
        let l = Lexer::new(input.to_string());
        let mut p = Parser::new(l);
        let program = p.parse_program().unwrap();
        assert_eq!(program.statements.len(), 1);
        let stmt = &program.statements[0];
        if let ast::Statement::Expression(expr) = stmt {
            assert_eq!(expr.display_string(), expected);
        } else {
            panic!("Incorrect statement")
        }
    }
}

#[test]
fn test_if_expression() {
    let input = "if (x < y) { x } else { y }";
    let l = Lexer::new(input.to_string());
    let mut p = Parser::new(l);
    let program = p.parse_program().unwrap();
    assert_eq!(program.statements.len(), 1);
    let stmt = &program.statements[0];
    if let ast::Statement::Expression(expr) = stmt {
        if let ast::Expression::If { condition, consequence: _, alternative: _ } = expr {
            assert_eq!(condition.display_string(), "(x<y)");
        } else {
            panic!("Incorrect expression");
        }
    } else {
        panic!("Incorrect statement");
    }
}

#[test]
fn test_function_literal_parsing() {
    let input = "fn(x, y) { x + y }";
    let l = Lexer::new(input.to_string());
    let mut p = Parser::new(l);
    let program = p.parse_program().unwrap();
    assert_eq!(program.statements.len(), 1);
    let stmt = &program.statements[0];
    if let ast::Statement::Expression(expr) = stmt {
        if let ast::Expression::Function { parameters, body: _ } = expr {
            assert_eq!(parameters.len(), 2);
            assert_eq!(parameters[0].display_string(), "x");
            assert_eq!(parameters[1].display_string(), "y");
        } else {
            panic!("Incorrect expression")
        }
    } else {
        panic!("Incorrect statement")
    }
}

#[test]
fn test_function_parameter_parsing() {
    struct FunctionalParameterTest {
        input: String,
        expected_params: Vec<String>,
    }
    let tests = vec![
        FunctionalParameterTest {
            input: "fn() {}".to_string(),
            expected_params: vec![],
        },
        FunctionalParameterTest {
            input: "fn(x) {}".to_string(),
            expected_params: vec!["x".to_string()],
        },
        FunctionalParameterTest {
            input: "fn(x,y,z) {}".to_string(),
            expected_params: vec!["x".to_string(), "y".to_string(), "z".to_string()],
        },
    ];
    for test in tests {
        let l = Lexer::new(test.input);
        let mut p = Parser::new(l);
        let program = p.parse_program().unwrap();
        let stmt = &program.statements[0];
        if let ast::Statement::Expression(expr) = stmt {
            match expr {
                ast::Expression::Function { parameters, body: _ } => {
                    assert_eq!(parameters.len(), test.expected_params.len());
                    for (idx, expected) in test.expected_params.iter().enumerate() {
                        assert_eq!(parameters[idx].display_string(), *expected)
                    }
                }
                _ => panic!("Incorrect expression."),
            }
        } else {
            panic!("Incorrect statements.")
        }
    }
}

#[test]
fn test_call_expression_parameter_parsing() {
    let input = "add(1, 2 * 3, 4 + 5)".to_string();
    let l = Lexer::new(input);
    let mut p = Parser::new(l);
    let program = p.parse_program().unwrap();
    assert_eq!(program.statements.len(), 1);
    let stmt = &program.statements[0];
    if let ast::Statement::Expression(expr) = stmt {
        match expr {
            ast::Expression::Call { function, arguments } => {
                assert_eq!(function.display_string(), "add");
                assert_eq!(arguments.len(), 3);
            }
            _ => panic!("Incorrect expressions"),
        }
    } else {
        panic!("Incorrect statements")
    }
}

#[test]
fn test_string_literal_expression() {
    let input = r#""hello world""#.to_string();
    let l = Lexer::new(input.clone());
    let mut p = Parser::new(l);
    let program = p.parse_program().unwrap();
    assert_eq!(program.statements.len(), 1);
    let stmt = &program.statements[0];
    if let ast::Statement::Expression(expr) = stmt {
        match expr {
            ast::Expression::String(body) => {
                assert_eq!("hello world", body)
            }
            _ => panic!("Incorrect expressions"),
        }
    } else {
        panic!("Incorrect statements")
    }
}
