//! Tokens of the source language and their mathematical view.

use vstd::prelude::*;
use crate::parser::ast::Precedence;

verus! {

/// A lexical token. Identifier, string and integer literals carry their payload.
#[derive(Debug, Clone, PartialEq, Eq)]
pub enum Token {
    Illegal,
    EOF,
    Identifier(String),
    StringLiteral(String),
    IntLiteral(i64),
    /// `=`
    Assign,
    /// `+`
    Plus,
    /// `-`
    Minus,
    /// `!`
    Bang,
    /// `*`
    Asterisk,
    /// `/`
    Slash,
    /// `<`
    LT,
    /// `>`
    GT,
    /// `,`
    Comma,
    /// `:`
    Colon,
    /// `;`
    SemiColon,
    /// `(`
    LParen,
    /// `)`
    RParen,
    /// `{`
    LBrace,
    /// `}`
    RBrace,
    /// `fn`
    Function,
    /// `let`
    Let,
    /// `return`
    Return,
    /// `true`
    True,
    /// `false`
    False,
    /// `if`
    If,
    /// `else`
    Else,
    /// `==`
    Eq,
    /// `!=`
    NotEq,
}

/// Mathematical image of a token: string payloads become character sequences.
pub enum TokenView {
    Illegal,
    EOF,
    Identifier(Seq<char>),
    StringLiteral(Seq<char>),
    IntLiteral(i64),
    Assign,
    Plus,
    Minus,
    Bang,
    Asterisk,
    Slash,
    LT,
    GT,
    Comma,
    Colon,
    SemiColon,
    LParen,
    RParen,
    LBrace,
    RBrace,
    Function,
    Let,
    Return,
    True,
    False,
    If,
    Else,
    Eq,
    NotEq,
}

impl View for Token {
    type V = TokenView;

    open spec fn view(&self) -> TokenView {
        match self {
            Token::Illegal => TokenView::Illegal,
            Token::EOF => TokenView::EOF,
            Token::Identifier(s) => TokenView::Identifier(s@),
            Token::StringLiteral(s) => TokenView::StringLiteral(s@),
            Token::IntLiteral(n) => TokenView::IntLiteral(*n),
            Token::Assign => TokenView::Assign,
            Token::Plus => TokenView::Plus,
            Token::Minus => TokenView::Minus,
            Token::Bang => TokenView::Bang,
            Token::Asterisk => TokenView::Asterisk,
            Token::Slash => TokenView::Slash,
            Token::LT => TokenView::LT,
            Token::GT => TokenView::GT,
            Token::Comma => TokenView::Comma,
            Token::Colon => TokenView::Colon,
            Token::SemiColon => TokenView::SemiColon,
            Token::LParen => TokenView::LParen,
            Token::RParen => TokenView::RParen,
            Token::LBrace => TokenView::LBrace,
            Token::RBrace => TokenView::RBrace,
            Token::Function => TokenView::Function,
            Token::Let => TokenView::Let,
            Token::Return => TokenView::Return,
            Token::True => TokenView::True,
            Token::False => TokenView::False,
            Token::If => TokenView::If,
            Token::Else => TokenView::Else,
            Token::Eq => TokenView::Eq,
            Token::NotEq => TokenView::NotEq,
        }
    }
}

impl DeepView for Token {
    type V = TokenView;

    open spec fn deep_view(&self) -> TokenView {
        self.view()
    }
}

/// Precedence a token has when it stands in infix position; tokens that are
/// never infix rank lowest.
pub open spec fn spec_precedence(t: TokenView) -> Precedence {
    match t {
        TokenView::Eq => Precedence::Equals,
        TokenView::NotEq => Precedence::Equals,
        TokenView::LT => Precedence::LessGreater,
        TokenView::GT => Precedence::LessGreater,
        TokenView::Plus => Precedence::Sum,
        TokenView::Minus => Precedence::Sum,
        TokenView::Asterisk => Precedence::Product,
        TokenView::Slash => Precedence::Product,
        TokenView::LParen => Precedence::Call,
        _ => Precedence::Lowest,
    }
}

impl Token {
    /// The precedence this token has as an infix operator.
    pub fn precedence(&self) -> (r: Precedence)
        ensures
            r == spec_precedence(self@),
    {
        match self {
            Token::Eq => Precedence::Equals,
            Token::NotEq => Precedence::Equals,
            Token::LT => Precedence::LessGreater,
            Token::GT => Precedence::LessGreater,
            Token::Plus => Precedence::Sum,
            Token::Minus => Precedence::Sum,
            Token::Asterisk => Precedence::Product,
            Token::Slash => Precedence::Product,
            Token::LParen => Precedence::Call,
            _ => Precedence::Lowest,
        }
    }
}

/// A borrowed run of tokens, kept for callers that hold token slices.
#[derive(Clone, Copy, PartialEq, Debug)]
pub struct Tokens<'a> {
    pub tok: &'a [Token],
}

/// Copy of a token; the copy has the same view.
pub fn clone_token(t: &Token) -> (r: Token)
    ensures
        r@ == t@,
{
    match t {
        Token::Illegal => Token::Illegal,
        Token::EOF => Token::EOF,
        Token::Identifier(s) => Token::Identifier(s.clone()),
        Token::StringLiteral(s) => Token::StringLiteral(s.clone()),
        Token::IntLiteral(n) => Token::IntLiteral(*n),
        Token::Assign => Token::Assign,
        Token::Plus => Token::Plus,
        Token::Minus => Token::Minus,
        Token::Bang => Token::Bang,
        Token::Asterisk => Token::Asterisk,
        Token::Slash => Token::Slash,
        Token::LT => Token::LT,
        Token::GT => Token::GT,
        Token::Comma => Token::Comma,
        Token::Colon => Token::Colon,
        Token::SemiColon => Token::SemiColon,
        Token::LParen => Token::LParen,
        Token::RParen => Token::RParen,
        Token::LBrace => Token::LBrace,
        Token::RBrace => Token::RBrace,
        Token::Function => Token::Function,
        Token::Let => Token::Let,
        Token::Return => Token::Return,
        Token::True => Token::True,
        Token::False => Token::False,
        Token::If => Token::If,
        Token::Else => Token::Else,
        Token::Eq => Token::Eq,
        Token::NotEq => Token::NotEq,
    }
}

/// Decides view equality of two tokens.
pub fn token_eq(a: &Token, b: &Token) -> (r: bool)
    ensures
        r == (a@ == b@),
{
    match a {
        Token::Identifier(x) => match b {
            Token::Identifier(y) => *x == *y,
            _ => false,
        },
        Token::StringLiteral(x) => match b {
            Token::StringLiteral(y) => *x == *y,
            _ => false,
        },
        Token::IntLiteral(x) => match b {
            Token::IntLiteral(y) => *x == *y,
            _ => false,
        },
        Token::Illegal => matches!(b, Token::Illegal),
        Token::EOF => matches!(b, Token::EOF),
        Token::Assign => matches!(b, Token::Assign),
        Token::Plus => matches!(b, Token::Plus),
        Token::Minus => matches!(b, Token::Minus),
        Token::Bang => matches!(b, Token::Bang),
        Token::Asterisk => matches!(b, Token::Asterisk),
        Token::Slash => matches!(b, Token::Slash),
        Token::LT => matches!(b, Token::LT),
        Token::GT => matches!(b, Token::GT),
        Token::Comma => matches!(b, Token::Comma),
        Token::Colon => matches!(b, Token::Colon),
        Token::SemiColon => matches!(b, Token::SemiColon),
        Token::LParen => matches!(b, Token::LParen),
        Token::RParen => matches!(b, Token::RParen),
        Token::LBrace => matches!(b, Token::LBrace),
        Token::RBrace => matches!(b, Token::RBrace),
        Token::Function => matches!(b, Token::Function),
        Token::Let => matches!(b, Token::Let),
        Token::Return => matches!(b, Token::Return),
        Token::True => matches!(b, Token::True),
        Token::False => matches!(b, Token::False),
        Token::If => matches!(b, Token::If),
        Token::Else => matches!(b, Token::Else),
        Token::Eq => matches!(b, Token::Eq),
        Token::NotEq => matches!(b, Token::NotEq),
    }
}

} // verus!
