use monkey_core::lexer::Lexer;
use monkey_core::lexer::token::Token;

#[test]
fn next_token() {
    let input = r#"let five = 5;
        let ten = 10;

        let add = fn(x, y) {
            x + y;
        };
        let result = add(five, ten);
        !-/*5;
        5 < 10 > 5;
        "foobar"
        "foo bar"
        "#;
    let expected_tokens = vec![
        Token::Let,
        Token::Identifier(String::from("five")),
        Token::Assign,
        Token::IntLiteral(5),
        Token::SemiColon,
        Token::Let,
        Token::Identifier(String::from("ten")),
        Token::Assign,
        Token::IntLiteral(10),
        Token::SemiColon,
        Token::Let,
        Token::Identifier(String::from("add")),
        Token::Assign,
        Token::Function,
        Token::LParen,
        Token::Identifier(String::from("x")),
        Token::Comma,
        Token::Identifier(String::from("y")),
        Token::RParen,
        Token::LBrace,
        Token::Identifier(String::from("x")),
        Token::Plus,
        Token::Identifier(String::from("y")),
        Token::SemiColon,
        Token::RBrace,
        Token::SemiColon,
        Token::Let,
        Token::Identifier(String::from("result")),
        Token::Assign,
        Token::Identifier(String::from("add")),
        Token::LParen,
        Token::Identifier(String::from("five")),
        Token::Comma,
        Token::Identifier(String::from("ten")),
        Token::RParen,
        Token::SemiColon,
        Token::Bang,
        Token::Minus,
        Token::Slash,
        Token::Asterisk,
        Token::IntLiteral(5),
        Token::SemiColon,
        Token::IntLiteral(5),
        Token::LT,
        Token::IntLiteral(10),
        Token::GT,
        Token::IntLiteral(5),
        Token::SemiColon,
        Token::StringLiteral(String::from("foobar")),
        Token::StringLiteral(String::from("foo bar")),
        Token::EOF,
    ];

    let mut l = Lexer::new(input.to_string());

    for expected in expected_tokens {
        let actual = l.next_token();
        assert_eq!(
            expected, actual,
            "tests - token type wrong. expected={:?}, actual={:?}",
            expected, actual,
        )
    }
}
