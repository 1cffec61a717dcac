//! Core of a tree-walking interpreter for a small, dynamically typed,
//! expression-oriented language: a lexer, a Pratt parser and an evaluator,
//! each specified against a mathematical model of the same pipeline and
//! proved to follow it exactly.

pub mod error;
pub mod eval;
pub mod lexer;
pub mod parser;
pub mod text;

use vstd::prelude::*;
use crate::error::{MonkeyError, ErrView};
use crate::eval::object::{Object, ObjView};
use crate::eval::{Evaluator, se_program, init_store};
use crate::lexer::{Lexer, tokens_of};
use crate::parser::{Parser, sp_program};

verus! {

/// What running a source text yields: its tokens parsed, and on success the
/// program evaluated from a fresh environment; otherwise the first error of
/// whichever stage failed.
pub open spec fn interpret_result(src: Seq<char>) -> Result<ObjView, ErrView> {
    match sp_program(tokens_of(src)) {
        Ok(ss) => se_program(ss, init_store(), 0).1,
        Err(e) => Err(e),
    }
}

/// Runs a source text through the whole pipeline: lexer, parser, evaluator
/// over a fresh environment; the result is exactly what `interpret_result`
/// says of the text.
pub fn interpret(source: String) -> (r: Result<Object, MonkeyError>)
    ensures
        match (r, interpret_result(source@)) {
            (Ok(o), Ok(ov)) => o@ == ov,
            (Err(e), Err(ev)) => e@ == ev,
            _ => false,
        },
{
    let l = Lexer::new(source);
    let mut p = Parser::new(l);
    let program = match p.parse_program() {
        Ok(prog) => prog,
        Err(e) => {
            return Err(e);
        },
    };
    let mut eval = Evaluator::new();
    eval.evaluate(&program)
}

} // verus!
