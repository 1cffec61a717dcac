use monkey_core::error::MonkeyError;
use monkey_core::eval::environment::Environment;
use monkey_core::eval::object::Object;
use monkey_core::eval::Evaluator;
use monkey_core::interpret;
use monkey_core::lexer::token::Token;
use monkey_core::lexer::Lexer;
use monkey_core::parser::ast;
use monkey_core::parser::Parser;

fn parse(input: &str) -> ast::Program {
    let l = Lexer::new(input.to_string());
    let mut p = Parser::new(l);
    p.parse_program().unwrap()
}

fn run(input: &str) -> Object {
    interpret(input.to_string()).unwrap()
}

fn run_err(input: &str) -> MonkeyError {
    interpret(input.to_string()).unwrap_err()
}

#[test]
fn lexer_reaches_eof_and_stays_there() {
    let mut l = Lexer::new("let x = 1;".to_string());
    let mut steps = 0usize;
    loop {
        let t = l.next_token();
        if t == Token::EOF {
            break;
        }
        steps += 1;
        assert!(steps <= 10, "the lexer must reach EOF within one token per character");
    }
    for _ in 0..5 {
        assert_eq!(l.next_token(), Token::EOF);
    }
}

#[test]
fn lexer_rejects_oversized_integers() {
    let mut l = Lexer::new("9223372036854775807".to_string());
    assert_eq!(l.next_token(), Token::IntLiteral(i64::MAX));
    let mut l2 = Lexer::new("9223372036854775808".to_string());
    assert_eq!(l2.next_token(), Token::Illegal);
    assert_eq!(l2.next_token(), Token::EOF);
}

#[test]
fn parser_is_deterministic() {
    let input = "let a = 1 + 2 * 3; if (a > 2) { a } else { 0 }";
    let p1 = parse(input);
    let p2 = parse(input);
    assert_eq!(p1.statements, p2.statements);
}

#[test]
fn parser_reports_unexpected_token() {
    let l = Lexer::new("let x 5;".to_string());
    let mut p = Parser::new(l);
    match p.parse_program() {
        Err(MonkeyError::UnexpectedToken { expected, actual }) => {
            assert_eq!(expected, Token::Assign);
            assert_eq!(actual, Token::IntLiteral(5));
        }
        other => panic!("expected an unexpected-token error, got {:?}", other),
    }
}

#[test]
fn parser_reports_invalid_token() {
    let l = Lexer::new("*5;".to_string());
    let mut p = Parser::new(l);
    match p.parse_program() {
        Err(MonkeyError::InvalidToken(t)) => assert_eq!(t, Token::Asterisk),
        other => panic!("expected an invalid-token error, got {:?}", other),
    }
}

#[test]
fn empty_input_parses_to_empty_program() {
    let program = parse("");
    assert_eq!(program.statements.len(), 0);
    assert_eq!(program.display_string(), "");
}

#[test]
fn display_round_trips_through_the_parser() {
    let inputs = [
        "-a*b",
        "a+add(b*c)+d",
        "add(1, 2*3, 4+5)",
        "!(true==true)",
        "2/(5+5)",
        "let x = 1+2*3;",
    ];
    for input in inputs {
        let once = parse(input);
        let shown = once.display_string();
        let twice = parse(&shown);
        assert_eq!(once.statements, twice.statements, "printing {:?} must reparse", input);
        assert_eq!(twice.display_string(), shown, "printing is a fixed point after one pass");
    }
}

#[test]
fn evaluator_is_pure_across_fresh_environments() {
    let input = "let newAdder = fn(x){fn(y){x+y}}; let addTwo = newAdder(2); addTwo(3);";
    assert_eq!(run(input), Object::Integer(5));
    assert_eq!(run(input), Object::Integer(5));
}

#[test]
fn truthiness_follows_each_variant() {
    assert!(!Object::Null.is_truthy());
    assert!(!Object::Bool(false).is_truthy());
    assert!(Object::Bool(true).is_truthy());
    assert!(Object::Integer(0).is_truthy());
    assert!(Object::Integer(-1).is_truthy());
    assert!(Object::String(String::new()).is_truthy());
    assert!(Object::Return(Box::new(Object::Null)).is_truthy());
    let f = run("fn(x){x}");
    assert!(f.is_truthy());
}

#[test]
fn return_ends_exactly_the_enclosing_function() {
    // The inner return ends the inner call alone; the outer function goes on.
    let input = "
        let inner = fn() { if (true) { if (true) { return 1; } return 2; } return 3; };
        let outer = fn() { let a = inner(); a + 10 };
        outer();
        ";
    assert_eq!(run(input), Object::Integer(11));
    // At the top level a return ends the program with the wrapped value.
    assert_eq!(run("9; return 2 * 5; 9;"), Object::Integer(10));
}

#[test]
fn unknown_operator_on_booleans() {
    assert_eq!(
        run_err("true + false;"),
        MonkeyError::UnknownOperator {
            operator: ast::Infix::Plus,
            left: monkey_core::eval::object::ObjectType::Bool,
            right: monkey_core::eval::object::ObjectType::Bool,
        }
    );
}

#[test]
fn wrong_argument_count_names_expected_and_actual() {
    assert_eq!(
        run_err("let f = fn(x){x}; f(1, 2);"),
        MonkeyError::IncorrectNumberOfArguments { expected: 1, actual: 2 }
    );
    assert_eq!(
        run_err("let f = fn(x, y){x}; f(1);"),
        MonkeyError::IncorrectNumberOfArguments { expected: 2, actual: 1 }
    );
}

#[test]
fn string_concatenation_is_left_undefined() {
    assert_eq!(run(r#""hello" + " world""#), Object::Null);
}

#[test]
fn negative_grouping_evaluates() {
    assert_eq!(run("-(5+5)"), Object::Integer(-10));
}

#[test]
fn rebinding_a_name_shadows_in_the_same_scope() {
    assert_eq!(run("let a = 1; let a = 2; a;"), Object::Integer(2));
}

#[test]
fn closures_observe_later_bindings_of_their_scope() {
    // Capture is by reference to the scope, not a snapshot: a later `let` in
    // the defining scope is visible through the closure.
    let input = "let f = fn() { g() }; let g = fn() { 41 + 1 }; f();";
    assert_eq!(run(input), Object::Integer(42));
}

#[test]
fn values_and_program_display() {
    assert_eq!(run("5 - 8").display_string(), "-3");
    assert_eq!(run("true").display_string(), "true");
    assert_eq!(run(r#""raw text""#).display_string(), "raw text");
    assert_eq!(run("if (false) { 1 }").display_string(), "null");
    assert_eq!(run("fn(a,b){a+b;}").display_string(), "fn(a,b){(a+b);}");
    let program = parse("1+2; 3;");
    assert_eq!(program.display_string(), "(1+2);\n3;\n");
}

#[test]
fn error_messages_name_the_kind() {
    assert_eq!(run_err("foobar").message(), "identifier not found");
    assert_eq!(run_err("5 + true;").message(), "type mismatch");
    assert_eq!(run_err("true + false;").message(), "unknown operator");
}

#[test]
fn evaluator_get_and_set_reach_the_environment() {
    let mut eval = Evaluator::new();
    assert_eq!(eval.get("x"), None);
    assert_eq!(eval.set("x".to_string(), Object::Integer(7)), None);
    assert_eq!(eval.get("x"), Some(Object::Integer(7)));
    assert_eq!(
        eval.set("x".to_string(), Object::Integer(9)),
        Some(Object::Integer(7))
    );
    assert_eq!(eval.get("x"), Some(Object::Integer(9)));
    let program = parse("x + 1");
    assert_eq!(eval.evaluate(&program), Ok(Object::Integer(10)));
}

#[test]
fn environment_chain_looks_outward() {
    let mut outer = Environment::new();
    outer.set("a".to_string(), Object::Integer(1));
    let mut inner = Environment::new_enclosed(outer);
    inner.set("b".to_string(), Object::Integer(2));
    assert_eq!(inner.get("a"), Some(Object::Integer(1)));
    assert_eq!(inner.get("b"), Some(Object::Integer(2)));
    assert_eq!(inner.get("c"), None);
}

#[test]
fn recursion_works_through_the_scope_chain() {
    let input = "let fact = fn(n){ if (n < 2) { 1 } else { n * fact(n - 1) } }; fact(5);";
    assert_eq!(run(input), Object::Integer(120));
}

#[test]
fn let_without_a_semicolon_still_binds() {
    assert_eq!(run("let a = 41"), Object::Null);
    assert_eq!(run("let a = 41; a + 1"), Object::Integer(42));
}

#[test]
fn integer_arithmetic_wraps() {
    assert_eq!(
        run("9223372036854775807 + 1"),
        Object::Integer(i64::MIN),
    );
    assert_eq!(run("0 - 9223372036854775807 - 1"), Object::Integer(i64::MIN));
}

#[test]
fn division_truncates_toward_zero() {
    assert_eq!(run("7 / 2"), Object::Integer(3));
    assert_eq!(run("-7 / 2"), Object::Integer(-3));
    assert_eq!(run("7 / -2"), Object::Integer(-3));
    assert_eq!(run("5 / 0"), Object::Null);
}
