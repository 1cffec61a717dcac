//! The interpreter's error taxonomy and its mathematical view.

use vstd::prelude::*;
use crate::lexer::token::{Token, TokenView};
use crate::parser::ast::Infix;
use crate::eval::object::ObjectType;

verus! {

/// Everything that can go wrong while parsing or evaluating. Errors are
/// values: the first one aborts the surrounding parse or evaluation and is
/// handed to the caller.
#[derive(Debug, PartialEq, Eq)]
pub enum MonkeyError {
    /// The parser demanded a specific token and saw another.
    UnexpectedToken { expected: Token, actual: Token },
    /// The current token cannot begin an expression.
    InvalidToken(Token),
    /// Reserved; no path raises it.
    InvalidIdentifier,
    /// An identifier was looked up and not found.
    IdentifierNotFound,
    /// Reserved for integer parse failures surfaced as errors.
    InvalidInteger,
    /// Catch-all for paths outside the defined semantics.
    Unknown,
    /// A boolean operand pair met an operator defined only on integers.
    UnknownOperator { operator: Infix, left: ObjectType, right: ObjectType },
    /// An integer operand was mixed with a boolean one.
    TypeMismatch { operator: Infix, left: ObjectType, right: ObjectType },
    /// A call handed a function the wrong number of arguments.
    IncorrectNumberOfArguments { expected: usize, actual: usize },
}

/// Mathematical image of an error.
pub enum ErrView {
    UnexpectedToken { expected: TokenView, actual: TokenView },
    InvalidToken(TokenView),
    InvalidIdentifier,
    IdentifierNotFound,
    InvalidInteger,
    Unknown,
    UnknownOperator { operator: Infix, left: ObjectType, right: ObjectType },
    TypeMismatch { operator: Infix, left: ObjectType, right: ObjectType },
    IncorrectNumberOfArguments { expected: int, actual: int },
}

impl View for MonkeyError {
    type V = ErrView;

    open spec fn view(&self) -> ErrView {
        match self {
            MonkeyError::UnexpectedToken { expected, actual } => ErrView::UnexpectedToken {
                expected: expected@,
                actual: actual@,
            },
            MonkeyError::InvalidToken(t) => ErrView::InvalidToken(t@),
            MonkeyError::InvalidIdentifier => ErrView::InvalidIdentifier,
            MonkeyError::IdentifierNotFound => ErrView::IdentifierNotFound,
            MonkeyError::InvalidInteger => ErrView::InvalidInteger,
            MonkeyError::Unknown => ErrView::Unknown,
            MonkeyError::UnknownOperator { operator, left, right } => ErrView::UnknownOperator {
                operator: *operator,
                left: *left,
                right: *right,
            },
            MonkeyError::TypeMismatch { operator, left, right } => ErrView::TypeMismatch {
                operator: *operator,
                left: *left,
                right: *right,
            },
            MonkeyError::IncorrectNumberOfArguments { expected, actual } => {
                ErrView::IncorrectNumberOfArguments {
                    expected: *expected as int,
                    actual: *actual as int,
                }
            },
        }
    }
}

impl DeepView for MonkeyError {
    type V = ErrView;

    open spec fn deep_view(&self) -> ErrView {
        self.view()
    }
}

/// The fixed text naming each error kind.
pub open spec fn err_message(e: ErrView) -> Seq<char> {
    match e {
        ErrView::UnexpectedToken { expected, actual } => "unexpected token"@,
        ErrView::InvalidToken(t) => "invalid token"@,
        ErrView::InvalidIdentifier => "invalid identifier"@,
        ErrView::IdentifierNotFound => "identifier not found"@,
        ErrView::InvalidInteger => "invalid integer"@,
        ErrView::Unknown => "unknown error"@,
        ErrView::UnknownOperator { operator, left, right } => "unknown operator"@,
        ErrView::TypeMismatch { operator, left, right } => "type mismatch"@,
        ErrView::IncorrectNumberOfArguments { expected, actual } => {
            "incorrect number of arguments"@
        },
    }
}

impl MonkeyError {
    /// The fixed text naming this error's kind.
    pub fn message(&self) -> (r: String)
        ensures
            r@ == err_message(self@),
    {
        match self {
            MonkeyError::UnexpectedToken { expected, actual } => "unexpected token".to_owned(),
            MonkeyError::InvalidToken(t) => "invalid token".to_owned(),
            MonkeyError::InvalidIdentifier => "invalid identifier".to_owned(),
            MonkeyError::IdentifierNotFound => "identifier not found".to_owned(),
            MonkeyError::InvalidInteger => "invalid integer".to_owned(),
            MonkeyError::Unknown => "unknown error".to_owned(),
            MonkeyError::UnknownOperator { operator, left, right } => "unknown operator".to_owned(),
            MonkeyError::TypeMismatch { operator, left, right } => "type mismatch".to_owned(),
            MonkeyError::IncorrectNumberOfArguments { expected, actual } => {
                "incorrect number of arguments".to_owned()
            },
        }
    }
}

} // verus!
