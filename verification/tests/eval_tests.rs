use monkey_core::error::MonkeyError;
use monkey_core::eval::object::{Object, ObjectType};
use monkey_core::eval::Evaluator;
use monkey_core::lexer::Lexer;
use monkey_core::parser::ast;
use monkey_core::parser::Parser;

fn generate_program(input: &str) -> ast::Program {
    let l = Lexer::new(input.to_string());
    let mut p = Parser::new(l);
    let program = p.parse_program().unwrap();
    program
}

fn evaluate_program(input: &str) -> Object {
    let program = generate_program(input);
    let mut eval = Evaluator::new();
    eval.evaluate(&program).unwrap()
}

fn evaluate_error_program(input: &str) -> MonkeyError {
    let program = generate_program(input);
    let mut eval = Evaluator::new();
    match eval.evaluate(&program) {
        Ok(_) => panic!("Expected error."),
        Err(err) => err,
    }
}

#[test]
fn test_eval_expressions() {
    let tests = [
        ("5", Object::Integer(5)),
        ("10", Object::Integer(10)),
        ("true", Object::Bool(true)),
        ("false", Object::Bool(false)),
        ("-5", Object::Integer(-5)),
        ("-10", Object::Integer(-10)),
        ("5 + 5 + 5 + 5 - 10", Object::Integer(10)),
        ("2 * 2 * 2 * 2 * 2", Object::Integer(32)),
        ("-50 + 100 + -50", Object::Integer(0)),
        ("5 * 2 + 10", Object::Integer(20)),
        ("5 + 2 * 10", Object::Integer(25)),
        ("20 + 2 * -10", Object::Integer(0)),
        ("50 / 2 * 2 + 10", Object::Integer(60)),
        ("2 * (5 + 10)", Object::Integer(30)),
        ("3 * 3 * 3 + 10", Object::Integer(37)),
        ("3 * (3 * 3) + 10", Object::Integer(37)),
        ("(5 + 10 * 2 + 15 / 3) * 2 + -10", Object::Integer(50)),
        ("true == true", Object::Bool(true)),
        ("false == false", Object::Bool(true)),
        ("true == false", Object::Bool(false)),
        ("true != false", Object::Bool(true)),
        ("false != true", Object::Bool(true)),
        ("(1 < 2) == true", Object::Bool(true)),
        ("(1 < 2) == false", Object::Bool(false)),
        ("(1 > 2) == true", Object::Bool(false)),
        ("(1 > 2) == false", Object::Bool(true)),
    ];

    for (input, expected) in tests {
        let actual = evaluate_program(input);
        assert_eq!(actual, expected)
    }
}

#[test]
fn test_bang_operator() {
    let tests = [
        ("!true", Object::Bool(false)),
        ("!false", Object::Bool(true)),
        ("!5", Object::Bool(false)),
        ("!!true", Object::Bool(true)),
        ("!!false", Object::Bool(false)),
        ("!!5", Object::Bool(true)),
        ("5", Object::Integer(5)),
        ("10", Object::Integer(10)),
        ("-5", Object::Integer(-5)),
        ("-10", Object::Integer(-10)),
        ("1 < 2", Object::Bool(true)),
        ("1 > 2", Object::Bool(false)),
        ("1 < 1", Object::Bool(false)),
        ("1 > 1", Object::Bool(false)),
        ("1 == 1", Object::Bool(true)),
        ("1 == 2", Object::Bool(false)),
        ("1 != 2", Object::Bool(true)),
        (
            r#""Hello World!""#,
            Object::String("Hello World!".to_string()),
        ),
    ];
    for (input, expected) in tests {
        let actual = evaluate_program(input);
        assert_eq!(actual, expected)
    }
}

#[test]
fn test_if_else_expression() {
    let tests = [
        ("if (true) { 10 }", Object::Integer(10)),
        ("if (false) { 10 }", Object::Null),
        ("if (1) { 10 }", Object::Integer(10)),
        ("if (1 < 2) { 10 }", Object::Integer(10)),
        ("if (1 > 2) { 10 }", Object::Null),
        ("if (1 > 2) { 10 } else { 20 }", Object::Integer(20)),
        ("if (1 < 2) { 10 } else { 20 }", Object::Integer(10)),
    ];

    for (input, expected) in tests {
        let actual = evaluate_program(input);
        assert_eq!(actual, expected)
    }
}

#[test]
fn test_let_statements() {
    let tests = [
        ("let a = 5; a;", Object::Integer(5)),
        ("let a = 5 * 5; a;", Object::Integer(25)),
        ("let a = 5; let b = a; b;", Object::Integer(5)),
        (
            "let a = 5; let b = a; let c = a + b + 5; c;",
            Object::Integer(15),
        ),
    ];
    for (input, expected) in tests {
        let actual = evaluate_program(input);
        assert_eq!(actual, expected)
    }
}

#[test]
fn test_return_statements() {
    let tests = [
        ("return 10;", Object::Integer(10)),
        ("return 10; 9;", Object::Integer(10)),
        ("return 2 * 5; 9;", Object::Integer(10)),
        ("9; return 2 * 5; 9;", Object::Integer(10)),
        (
            "if (10 > 1) {
                if (10 > 1) {
                    return 10;
                }
                return 1;
            }
            ",
            Object::Integer(10),
        ),
    ];

    for (input, expected) in tests {
        let actual = evaluate_program(input);
        assert_eq!(actual, expected)
    }
}

#[test]
fn test_error_handling() {
    let tests = [
        (
            "5 + true;",
            MonkeyError::TypeMismatch {
                operator: ast::Infix::Plus,
                left: ObjectType::Integer,
                right: ObjectType::Bool,
            },
        ),
        (
            "5 + true; 5",
            MonkeyError::TypeMismatch {
                operator: ast::Infix::Plus,
                left: ObjectType::Integer,
                right: ObjectType::Bool,
            },
        ),
        ("foobar", MonkeyError::IdentifierNotFound),
    ];
    for (input, expected) in tests {
        let actual = evaluate_error_program(input);
        assert_eq!(actual, expected)
    }
}

#[test]
fn test_function_object() {
    let tests = ["fn(x) { x + 2;};"];
    for input in tests {
        let actual = evaluate_program(input);
        if let Object::Function { parameters, body: _, env: _ } = actual {
            assert_eq!(parameters.len(), 1);
            assert_eq!(parameters[0].display_string(), "x".to_string());
        }
    }
}

#[test]
fn test_function_application() {
    let tests = [
        (
            "let identity = fn(x) {x;}; identity(5);",
            Object::Integer(5),
        ),
        (
            "let identity = fn(x) { return x; }; identity(5);",
            Object::Integer(5),
        ),
        (
            "let double = fn(x) {x * 2}; double(5);",
            Object::Integer(10),
        ),
        ("let add = fn(x,y) {x + y}; add(5, 5);", Object::Integer(10)),
        (
            "let add = fn(x,y) {x + y}; add(5+5, add(5,5));",
            Object::Integer(20),
        ),
        ("fn(x) {x;}(5)", Object::Integer(5)),
    ];

    for (input, expected) in tests {
        let actual = evaluate_program(input);
        assert_eq!(actual, expected);
    }
}
