//! Syntactic analysis: a Pratt parser from tokens to the abstract syntax tree.
//!
//! The parser is specified against a family of `sp_` functions: a
//! mathematical recursive-descent parser over the token stream the lexer
//! model yields. Each executable parsing function is proved to return
//! exactly what its mathematical counterpart returns and to stand exactly
//! where it stands. Parsing is deterministic by construction: the result is
//! a function of the token stream alone.
//!
//! Positions index the stream; reading past its end answers `EOF`. A
//! function's position result names the last token of what it parsed. The
//! `next_pos` clamp on continuation positions records that parsing only
//! moves forward; on every run reached from the executable parser the clamp
//! leaves its argument unchanged.

pub mod ast;

use vstd::prelude::*;
use crate::lexer::token::{Token, TokenView, token_eq, clone_token, spec_precedence};
use crate::lexer::{Lexer, toks_from, tokens_of, lex_step, lemma_lex_step_range, lemma_integer_relex, lemma_boolean_relex};
use crate::parser::ast::{
    Expression, Statement, Program, ExprView, StmtView, Precedence, Prefix, Infix, prec_rank,
    prec_lt, exprs_view, stmts_view, expr_display,
};
use crate::error::{MonkeyError, ErrView};

verus! {

broadcast use vstd::std_specs::vec::group_vec_axioms, vstd::seq::group_seq_axioms;

/// The token at position `i`; past the end of the stream there is `EOF`.
pub open spec fn sp_tok(s: Seq<TokenView>, i: int) -> TokenView {
    if 0 <= i < s.len() {
        s[i]
    } else {
        TokenView::EOF
    }
}

/// Termination measure over stream positions: how much could still be read.
pub open spec fn pmeasure(s: Seq<TokenView>, pos: int) -> int {
    if pos < 0 {
        s.len() as int + 3
    } else if pos > s.len() + 2 {
        0
    } else {
        s.len() as int + 2 - pos
    }
}

/// The continuation position after a sub-parse that began at or after `low`:
/// its result `p`, held to at least `low`. On a run of the executable parser
/// the clamp never bites.
pub open spec fn next_pos(p: int, low: int, s: Seq<TokenView>) -> int {
    let lo = if low < 0 {
        0
    } else {
        low
    };
    if p < lo {
        lo
    } else {
        p
    }
}

/// A prefix operator expression: the operator at `pos`, its operand parsed
/// at prefix precedence.
pub open spec fn sp_prefix(s: Seq<TokenView>, pos: int) -> (Result<ExprView, ErrView>, int)
    decreases pmeasure(s, pos), 4int,
{
    match sp_tok(s, pos) {
        TokenView::Bang => {
            let (r, p2) = sp_expr(s, pos + 1, Precedence::Prefix);
            match r {
                Ok(e) => (
                    Ok(ExprView::Prefix { operator: Prefix::Bang, right: Box::new(e) }),
                    p2,
                ),
                Err(e) => (Err(e), p2),
            }
        },
        TokenView::Minus => {
            let (r, p2) = sp_expr(s, pos + 1, Precedence::Prefix);
            match r {
                Ok(e) => (
                    Ok(ExprView::Prefix { operator: Prefix::Minus, right: Box::new(e) }),
                    p2,
                ),
                Err(e) => (Err(e), p2),
            }
        },
        t => (Err(ErrView::InvalidToken(t)), pos),
    }
}

/// A parenthesized expression: `(` at `pos`, an expression, then `)`.
pub open spec fn sp_group(s: Seq<TokenView>, pos: int) -> (Result<ExprView, ErrView>, int)
    decreases pmeasure(s, pos), 4int,
{
    if sp_tok(s, pos) is LParen {
        let (r, p2) = sp_expr(s, pos + 1, Precedence::Lowest);
        match r {
            Ok(e) => if sp_tok(s, p2 + 1) is RParen {
                (Ok(e), p2 + 1)
            } else {
                (
                    Err(
                        ErrView::UnexpectedToken {
                            expected: TokenView::RParen,
                            actual: sp_tok(s, p2 + 1),
                        },
                    ),
                    p2,
                )
            },
            Err(e) => (Err(e), p2),
        }
    } else {
        // the parser only reads a group at a parenthesis
        (Err(ErrView::InvalidToken(sp_tok(s, pos))), pos)
    }
}

/// An `if` expression: condition in parentheses, consequence block, and an
/// optional `else` block.
pub open spec fn sp_if(s: Seq<TokenView>, pos: int) -> (Result<ExprView, ErrView>, int)
    decreases pmeasure(s, pos), 4int,
{
    if !(sp_tok(s, pos + 1) is LParen) {
        (
            Err(ErrView::UnexpectedToken { expected: TokenView::LParen, actual: sp_tok(s, pos + 1) }),
            pos,
        )
    } else {
        let (rc, p1) = sp_expr(s, pos + 1, Precedence::Lowest);
        match rc {
            Err(e) => (Err(e), p1),
            Ok(cond) => if !(sp_tok(s, p1) is RParen) {
                (
                    Err(ErrView::UnexpectedToken { expected: TokenView::RParen, actual: sp_tok(s, p1) }),
                    p1,
                )
            } else if !(sp_tok(s, p1 + 1) is LBrace) {
                (
                    Err(
                        ErrView::UnexpectedToken {
                            expected: TokenView::LBrace,
                            actual: sp_tok(s, p1 + 1),
                        },
                    ),
                    p1,
                )
            } else {
                let (rb, p2) = sp_block(s, next_pos(p1 + 1, pos + 2, s));
                match rb {
                    Err(e) => (Err(e), p2),
                    Ok(cons) => if sp_tok(s, p2 + 1) is Else {
                        if !(sp_tok(s, p2 + 2) is LBrace) {
                            (
                                Err(
                                    ErrView::UnexpectedToken {
                                        expected: TokenView::LBrace,
                                        actual: sp_tok(s, p2 + 2),
                                    },
                                ),
                                p2 + 1,
                            )
                        } else {
                            let (ra, p3) = sp_block(s, next_pos(p2 + 2, pos + 3, s));
                            match ra {
                                Err(e) => (Err(e), p3),
                                Ok(alt) => (
                                    Ok(
                                        ExprView::If {
                                            condition: Box::new(cond),
                                            consequence: Box::new(cons),
                                            alternative: Some(Box::new(alt)),
                                        },
                                    ),
                                    p3,
                                ),
                            }
                        }
                    } else {
                        (
                            Ok(
                                ExprView::If {
                                    condition: Box::new(cond),
                                    consequence: Box::new(cons),
                                    alternative: None,
                                },
                            ),
                            p2,
                        )
                    },
                }
            },
        }
    }
}

/// A function literal: parameter list in parentheses, then the body block.
pub open spec fn sp_fn(s: Seq<TokenView>, pos: int) -> (Result<ExprView, ErrView>, int)
    decreases pmeasure(s, pos), 4int,
{
    if !(sp_tok(s, pos + 1) is LParen) {
        (
            Err(ErrView::UnexpectedToken { expected: TokenView::LParen, actual: sp_tok(s, pos + 1) }),
            pos,
        )
    } else {
        let (rp, p1) = sp_params(s, next_pos(pos + 1, pos + 1, s));
        match rp {
            Err(e) => (Err(e), p1),
            Ok(ps) => if !(sp_tok(s, p1 + 1) is LBrace) {
                (
                    Err(
                        ErrView::UnexpectedToken {
                            expected: TokenView::LBrace,
                            actual: sp_tok(s, p1 + 1),
                        },
                    ),
                    p1,
                )
            } else {
                let (rb, p2) = sp_block(s, next_pos(p1 + 1, pos + 2, s));
                match rb {
                    Err(e) => (Err(e), p2),
                    Ok(body) => (
                        Ok(ExprView::Function { parameters: ps, body: Box::new(body) }),
                        p2,
                    ),
                }
            },
        }
    }
}

/// The parameter list of a function literal, entered on its `(`: a possibly
/// empty comma-separated list of identifiers, closed by `)`.
pub open spec fn sp_params(s: Seq<TokenView>, pos: int) -> (Result<Seq<ExprView>, ErrView>, int)
    decreases pmeasure(s, pos), 3int,
{
    if sp_tok(s, pos + 1) is RParen {
        (Ok(Seq::empty()), pos + 1)
    } else {
        match sp_tok(s, pos + 1) {
            TokenView::Identifier(name) => sp_params_rec(
                s,
                next_pos(pos + 1, pos + 1, s),
                seq![ExprView::Identifier(name)],
            ),
            t => (Err(ErrView::InvalidToken(t)), pos + 1),
        }
    }
}

/// The rest of a parameter list, standing on the identifier last read.
pub open spec fn sp_params_rec(s: Seq<TokenView>, pos: int, acc: Seq<ExprView>) -> (
    Result<Seq<ExprView>, ErrView>,
    int,
)
    decreases pmeasure(s, pos), 2int,
{
    if sp_tok(s, pos + 1) is Comma {
        match sp_tok(s, pos + 2) {
            TokenView::Identifier(name) => sp_params_rec(
                s,
                next_pos(pos + 2, pos + 2, s),
                acc.push(ExprView::Identifier(name)),
            ),
            t => (Err(ErrView::InvalidToken(t)), pos + 2),
        }
    } else if sp_tok(s, pos + 1) is RParen {
        (Ok(acc), pos + 1)
    } else {
        (
            Err(
                ErrView::UnexpectedToken { expected: TokenView::RParen, actual: sp_tok(s, pos + 1) },
            ),
            pos,
        )
    }
}

/// The argument list of a call, entered on its `(`: a possibly empty
/// comma-separated list of expressions, closed by `)`.
pub open spec fn sp_args(s: Seq<TokenView>, pos: int) -> (Result<Seq<ExprView>, ErrView>, int)
    decreases pmeasure(s, pos), 3int,
{
    if !(sp_tok(s, pos) is LParen) {
        // the parser only reads arguments at a parenthesis
        (Err(ErrView::InvalidToken(sp_tok(s, pos))), pos)
    } else if sp_tok(s, pos + 1) is RParen {
        (Ok(Seq::empty()), pos + 1)
    } else {
        let (r, p2) = sp_expr(s, next_pos(pos + 1, pos + 1, s), Precedence::Lowest);
        match r {
            Ok(e) => sp_args_rec(s, next_pos(p2, pos + 1, s), seq![e]),
            Err(e) => (Err(e), p2),
        }
    }
}

/// The rest of an argument list, standing on the last token of the argument
/// last read.
pub open spec fn sp_args_rec(s: Seq<TokenView>, pos: int, acc: Seq<ExprView>) -> (
    Result<Seq<ExprView>, ErrView>,
    int,
)
    decreases pmeasure(s, pos), 2int,
{
    if sp_tok(s, pos + 1) is Comma {
        let (r, p2) = sp_expr(s, next_pos(pos + 2, pos + 2, s), Precedence::Lowest);
        match r {
            Ok(e) => sp_args_rec(s, next_pos(p2, pos + 1, s), acc.push(e)),
            Err(e) => (Err(e), p2),
        }
    } else if sp_tok(s, pos + 1) is RParen {
        (Ok(acc), pos + 1)
    } else {
        (
            Err(
                ErrView::UnexpectedToken { expected: TokenView::RParen, actual: sp_tok(s, pos + 1) },
            ),
            pos,
        )
    }
}

/// The infix operator the token denotes, where it denotes one.
pub open spec fn infix_of(t: TokenView) -> Option<Infix> {
    match t {
        TokenView::Plus => Some(Infix::Plus),
        TokenView::Minus => Some(Infix::Minus),
        TokenView::Asterisk => Some(Infix::Asterisk),
        TokenView::Slash => Some(Infix::Slash),
        TokenView::Eq => Some(Infix::Eq),
        TokenView::NotEq => Some(Infix::NotEq),
        TokenView::LT => Some(Infix::LT),
        TokenView::GT => Some(Infix::GT),
        _ => None,
    }
}

/// An infix expression: the operator at `pos`, the given left operand, and a
/// right operand parsed at the operator's own precedence, which makes the
/// operator left-associative.
pub open spec fn sp_infix(s: Seq<TokenView>, left: ExprView, pos: int) -> (
    Result<ExprView, ErrView>,
    int,
)
    decreases pmeasure(s, pos), 4int,
{
    match infix_of(sp_tok(s, pos)) {
        Some(op) => {
            let (r, p2) = sp_expr(s, pos + 1, spec_precedence(sp_tok(s, pos)));
            match r {
                Ok(right) => (
                    Ok(
                        ExprView::Infix {
                            operator: op,
                            left: Box::new(left),
                            right: Box::new(right),
                        },
                    ),
                    p2,
                ),
                Err(e) => (Err(e), p2),
            }
        },
        None => (Err(ErrView::InvalidToken(sp_tok(s, pos))), pos),
    }
}

/// A call expression: the callee already parsed, the `(` at `pos`, then the
/// arguments.
pub open spec fn sp_call(s: Seq<TokenView>, left: ExprView, pos: int) -> (
    Result<ExprView, ErrView>,
    int,
)
    decreases pmeasure(s, pos), 4int,
{
    let (r, p2) = sp_args(s, pos);
    match r {
        Ok(args) => (
            Ok(ExprView::Call { function: Box::new(left), arguments: args }),
            p2,
        ),
        Err(e) => (Err(e), p2),
    }
}

/// The infix loop: standing on the last token of `left` at `pos`, extend
/// `left` while the token after it binds tighter than `minp` and is not a
/// semicolon.
pub open spec fn sp_infix_loop(s: Seq<TokenView>, left: ExprView, pos: int, minp: Precedence) -> (
    Result<ExprView, ErrView>,
    int,
)
    decreases pmeasure(s, pos), 3int,
{
    let pk = sp_tok(s, pos + 1);
    if pk is SemiColon || !(prec_rank(minp) < prec_rank(spec_precedence(pk))) {
        (Ok(left), pos)
    } else if infix_of(pk) is Some {
        let (r, p2) = sp_infix(s, left, pos + 1);
        match r {
            Ok(e) => sp_infix_loop(s, e, next_pos(p2, pos + 2, s), minp),
            Err(e) => (Err(e), p2),
        }
    } else if pk is LParen {
        let (r, p2) = sp_call(s, left, pos + 1);
        match r {
            Ok(e) => sp_infix_loop(s, e, next_pos(p2, pos + 2, s), minp),
            Err(e) => (Err(e), p2),
        }
    } else {
        (Ok(left), pos)
    }
}

/// An expression at minimum precedence `minp`, beginning at `pos`: a prefix
/// form, then the infix loop.
pub open spec fn sp_expr(s: Seq<TokenView>, pos: int, minp: Precedence) -> (
    Result<ExprView, ErrView>,
    int,
)
    decreases pmeasure(s, pos), 5int,
{
    let (d, dp): (Result<ExprView, ErrView>, int) = match sp_tok(s, pos) {
        TokenView::Identifier(name) => (Ok(ExprView::Identifier(name)), pos),
        TokenView::StringLiteral(body) => (Ok(ExprView::String(body)), pos),
        TokenView::IntLiteral(n) => (Ok(ExprView::Integer(n)), pos),
        TokenView::True => (Ok(ExprView::Boolean(true)), pos),
        TokenView::False => (Ok(ExprView::Boolean(false)), pos),
        TokenView::Bang => sp_prefix(s, pos),
        TokenView::Minus => sp_prefix(s, pos),
        TokenView::LParen => sp_group(s, pos),
        TokenView::If => sp_if(s, pos),
        TokenView::Function => sp_fn(s, pos),
        t => (Err(ErrView::InvalidToken(t)), pos),
    };
    match d {
        Ok(left) => sp_infix_loop(s, left, next_pos(dp, pos, s), minp),
        Err(e) => (Err(e), dp),
    }
}

/// A block: the `{` at `pos`, then statements until `}` or the end of input.
pub open spec fn sp_block(s: Seq<TokenView>, pos: int) -> (Result<StmtView, ErrView>, int)
    decreases pmeasure(s, pos), 1int,
{
    if sp_tok(s, pos) is LBrace {
        let (r, p2) = sp_block_rec(s, next_pos(pos + 1, pos + 1, s), Seq::empty());
        match r {
            Ok(ss) => (Ok(StmtView::Block(ss)), p2),
            Err(e) => (Err(e), p2),
        }
    } else {
        // the parser only enters a block on a brace
        (Err(ErrView::InvalidToken(sp_tok(s, pos))), pos)
    }
}

/// The statements of a block from `pos` on, stopping on `}` or the end of
/// input.
pub open spec fn sp_block_rec(s: Seq<TokenView>, pos: int, acc: Seq<StmtView>) -> (
    Result<Seq<StmtView>, ErrView>,
    int,
)
    decreases pmeasure(s, pos), 7int,
{
    let c = sp_tok(s, pos);
    if c is RBrace || c is EOF {
        (Ok(acc), pos)
    } else {
        let (r, p2) = sp_stmt(s, pos);
        match r {
            Ok(st) => sp_block_rec(s, next_pos(p2 + 1, pos + 1, s), acc.push(st)),
            Err(e) => (Err(e), p2),
        }
    }
}

/// One statement beginning at `pos`: a `let` statement, a `return`
/// statement, or an expression statement with an optional closing semicolon.
pub open spec fn sp_stmt(s: Seq<TokenView>, pos: int) -> (Result<StmtView, ErrView>, int)
    decreases pmeasure(s, pos), 6int,
{
    match sp_tok(s, pos) {
        TokenView::Let => {
            match sp_tok(s, pos + 1) {
                TokenView::Identifier(name) => if !(sp_tok(s, pos + 2) is Assign) {
                    (
                        Err(
                            ErrView::UnexpectedToken {
                                expected: TokenView::Assign,
                                actual: sp_tok(s, pos + 2),
                            },
                        ),
                        pos + 1,
                    )
                } else {
                    let (rv, p2) = sp_expr(s, pos + 3, Precedence::Lowest);
                    match rv {
                        Ok(v) => {
                            let fin = if sp_tok(s, p2) is SemiColon {
                                p2
                            } else {
                                p2 + 1
                            };
                            (
                                Ok(
                                    StmtView::Let {
                                        identifier: ExprView::Identifier(name),
                                        value: v,
                                    },
                                ),
                                fin,
                            )
                        },
                        Err(e) => (Err(e), p2),
                    }
                },
                t => (
                    Err(
                        ErrView::UnexpectedToken { expected: TokenView::Identifier(""@), actual: t },
                    ),
                    pos + 1,
                ),
            }
        },
        TokenView::Return => {
            let (rv, p2) = sp_expr(s, pos + 1, Precedence::Lowest);
            match rv {
                Ok(v) => if sp_tok(s, p2 + 1) is SemiColon {
                    (Ok(StmtView::Return(v)), p2 + 1)
                } else {
                    (
                        Err(
                            ErrView::UnexpectedToken {
                                expected: TokenView::SemiColon,
                                actual: sp_tok(s, p2 + 1),
                            },
                        ),
                        p2,
                    )
                },
                Err(e) => (Err(e), p2),
            }
        },
        _ => {
            let (re, p2) = sp_expr(s, pos, Precedence::Lowest);
            match re {
                Ok(e) => if sp_tok(s, p2 + 1) is SemiColon {
                    (Ok(StmtView::Expression(e)), p2 + 1)
                } else {
                    (Ok(StmtView::Expression(e)), p2)
                },
                Err(e) => (Err(e), p2),
            }
        },
    }
}

/// The statements of a program from `pos` on, stopping at `EOF`.
pub open spec fn sp_program_rec(s: Seq<TokenView>, pos: int, acc: Seq<StmtView>) -> (
    Result<Seq<StmtView>, ErrView>,
    int,
)
    decreases pmeasure(s, pos), 8int,
{
    if sp_tok(s, pos) is EOF {
        (Ok(acc), pos)
    } else {
        let (r, p2) = sp_stmt(s, pos);
        match r {
            Ok(st) => sp_program_rec(s, next_pos(p2 + 1, pos + 1, s), acc.push(st)),
            Err(e) => (Err(e), p2),
        }
    }
}

/// What parsing a whole token stream yields: the program's statements, or
/// the first error.
pub open spec fn sp_program(s: Seq<TokenView>) -> Result<Seq<StmtView>, ErrView> {
    sp_program_rec(s, 0, Seq::empty()).0
}

/// The tokens of the stream `s` from position `k` on.
pub open spec fn suffix_from(s: Seq<TokenView>, k: int) -> Seq<TokenView> {
    if k < 0 {
        s
    } else if k > s.len() {
        Seq::empty()
    } else {
        s.skip(k)
    }
}

/// The parser: the lexer it pulls from, the current and the peeked token,
/// and, for specification, the whole token stream with the current token's
/// position in it.
pub struct Parser {
    pub l: Lexer,
    pub current_token: Token,
    pub peek_token: Token,
    /// The whole token stream, fixed when the parser is made.
    pub stream: Ghost<Seq<TokenView>>,
    /// The position of the current token in the stream.
    pub pos: Ghost<int>,
}

impl Parser {
    /// The parser's state agrees with the stream: the current and peeked
    /// token stand at `pos` and after it, and the lexer holds exactly the
    /// tokens beyond the peeked one.
    pub open spec fn wf(self) -> bool {
        &&& self.l.wf()
        &&& 0 <= self.pos@
        &&& self.current_token@ == sp_tok(self.stream@, self.pos@)
        &&& self.peek_token@ == sp_tok(self.stream@, self.pos@ + 1)
        &&& toks_from(self.l.text(), self.l.pos()) == suffix_from(self.stream@, self.pos@ + 2)
    }

    /// A parser over the given lexer, primed with its first two tokens.
    pub fn new(l: Lexer) -> (p: Parser)
        requires
            l.wf(),
        ensures
            p.wf(),
            p.stream@ == toks_from(l.text(), l.pos()),
            p.pos@ == 0,
    {
        let ghost gs = toks_from(l.text(), l.pos());
        let mut p = Parser {
            l,
            current_token: Token::Illegal,
            peek_token: Token::Illegal,
            stream: Ghost(gs),
            pos: Ghost(0),
        };
        let ghost text = p.l.text();
        let ghost pos0 = p.l.pos();
        let t1 = p.l.next_token();
        proof {
            lemma_lex_step_range(text, pos0);
            if gs.len() == 0 {
                assert(t1@ == TokenView::EOF);
            } else {
                assert(gs == seq![lex_step(text, pos0).0] + toks_from(text, lex_step(text, pos0).1));
                assert(t1@ == gs[0]);
                assert(toks_from(text, p.l.pos()) =~= gs.skip(1));
            }
        }
        p.current_token = t1;
        let ghost pos1 = p.l.pos();
        let t2 = p.l.next_token();
        proof {
            lemma_lex_step_range(text, pos1);
            if gs.len() == 0 {
                assert(toks_from(text, pos1) =~= Seq::<TokenView>::empty());
                assert(t2@ == TokenView::EOF);
                assert(toks_from(text, p.l.pos()) =~= suffix_from(gs, 2));
            } else if gs.len() == 1 {
                assert(toks_from(text, pos1) =~= gs.skip(1));
                assert(gs.skip(1) =~= Seq::<TokenView>::empty());
                assert(t2@ == TokenView::EOF);
                assert(toks_from(text, p.l.pos()) =~= suffix_from(gs, 2));
            } else {
                let rest = toks_from(text, pos1);
                assert(rest =~= gs.skip(1));
                assert(rest.len() > 0);
                assert(rest == seq![lex_step(text, pos1).0] + toks_from(text, lex_step(text, pos1).1));
                assert(t2@ == rest[0]);
                assert(rest[0] == gs[1]);
                assert(toks_from(text, p.l.pos()) =~= rest.skip(1));
                assert(rest.skip(1) =~= gs.skip(2));
            }
        }
        p.peek_token = t2;
        proof {
            assert(p.current_token@ == sp_tok(gs, 0));
            assert(p.peek_token@ == sp_tok(gs, 1));
        }
        p
    }

    /// Shifts one token: the peeked token becomes current and the lexer
    /// yields the next one. Past the end of the stream both stay `EOF`.
    fn next_token(&mut self)
        requires
            old(self).wf(),
        ensures
            final(self).wf(),
            final(self).stream@ == old(self).stream@,
            final(self).pos@ == old(self).pos@ + 1,
    {
        self.current_token = clone_token(&self.peek_token);
        let ghost gs = self.stream@;
        let ghost k = self.pos@ + 2;
        let ghost text = self.l.text();
        let ghost lpos = self.l.pos();
        let t = self.l.next_token();
        proof {
            lemma_lex_step_range(text, lpos);
            if k < gs.len() {
                let rest = suffix_from(gs, k);
                assert(rest.len() > 0);
                assert(rest == seq![lex_step(text, lpos).0] + toks_from(text, lex_step(text, lpos).1));
                assert(t@ == rest[0]);
                assert(rest[0] == gs[k]);
                assert(toks_from(text, self.l.pos()) =~= rest.skip(1));
                assert(rest.skip(1) =~= suffix_from(gs, k + 1));
            } else {
                assert(suffix_from(gs, k) =~= Seq::<TokenView>::empty());
                assert(toks_from(text, lpos).len() == 0);
                assert(t@ == TokenView::EOF);
                assert(toks_from(text, self.l.pos()) =~= suffix_from(gs, k + 1));
            }
        }
        self.peek_token = t;
        self.pos = Ghost(self.pos@ + 1);
    }

    /// Whether the current token's view equals the given token's.
    fn is_current_token(&self, token: Token) -> (r: bool)
        ensures
            r == (self.current_token@ == token@),
    {
        token_eq(&self.current_token, &token)
    }

    /// Whether the peeked token's view equals the given token's.
    fn is_peek_token(&self, token: Token) -> (r: bool)
        ensures
            r == (self.peek_token@ == token@),
    {
        token_eq(&self.peek_token, &token)
    }

    /// The current token's infix precedence.
    fn current_precedence(&self) -> (r: Precedence)
        ensures
            r == spec_precedence(self.current_token@),
    {
        self.current_token.precedence()
    }

    /// The peeked token's infix precedence.
    fn peek_precedence(&self) -> (r: Precedence)
        ensures
            r == spec_precedence(self.peek_token@),
    {
        self.peek_token.precedence()
    }

    /// Demands the given token next: if the peeked token matches, it becomes
    /// current; otherwise nothing moves and the mismatch is the error.
    fn expect_peek(&mut self, token: Token) -> (r: Result<(), MonkeyError>)
        requires
            old(self).wf(),
            !(token@ is EOF),
        ensures
            final(self).wf(),
            final(self).stream@ == old(self).stream@,
            match r {
                Ok(_) => old(self).peek_token@ == token@ && final(self).pos@ == old(self).pos@ + 1,
                Err(e) => *final(self) == *old(self) && old(self).peek_token@ != token@ && e@
                    == ErrView::UnexpectedToken {
                    expected: token@,
                    actual: old(self).peek_token@,
                },
            },
    {
        if self.is_peek_token(clone_token(&token)) {
            self.next_token();
            Ok(())
        } else {
            Err(
                MonkeyError::UnexpectedToken {
                    expected: token,
                    actual: clone_token(&self.peek_token),
                },
            )
        }
    }

    /// Parses the whole stream: statements up to `EOF`, or the first error.
    /// The result is exactly what the mathematical parser `sp_program_rec`
    /// yields on the stream, so parsing is deterministic.
    #[verifier::loop_isolation(false)]
    pub fn parse_program(&mut self) -> (r: Result<Program, MonkeyError>)
        requires
            old(self).wf(),
        ensures
            final(self).wf(),
            final(self).stream@ == old(self).stream@,
            match r {
                Ok(prog) => sp_program_rec(old(self).stream@, old(self).pos@, Seq::empty()).0
                    == Ok::<Seq<StmtView>, ErrView>(prog@),
                Err(e) => sp_program_rec(old(self).stream@, old(self).pos@, Seq::empty()).0
                    == Err::<Seq<StmtView>, ErrView>(e@),
            },
    {
        let mut program = Program::new();
        let ghost gs = self.stream@;
        let ghost pos0 = self.pos@;
        proof {
            assert(program@ =~= Seq::<StmtView>::empty());
        }
        while !self.is_current_token(Token::EOF)
            invariant
                self.wf(),
                self.stream@ == gs,
                self.pos@ >= pos0,
                sp_program_rec(gs, self.pos@, program@) == sp_program_rec(gs, pos0, Seq::empty()),
            decreases pmeasure(gs, self.pos@),
        {
            let ghost posi = self.pos@;
            let ghost acc = program@;
            let stmt = self.parse_statement()?;
            proof {
                let (sr, sp) = sp_stmt(gs, posi);
                assert(next_pos(sp + 1, posi + 1, gs) == sp + 1);
                assert(stmts_view(program.statements@.push(stmt)) =~= acc.push(stmt@));
            }
            program.statements.push(stmt);
            self.next_token();
        }
        proof {
            assert(sp_program_rec(gs, self.pos@, program@) == (
                Ok::<Seq<StmtView>, ErrView>(program@),
                self.pos@,
            ));
        }
        Ok(program)
    }

    /// One statement, dispatched on the current token.
    fn parse_statement(&mut self) -> (r: Result<Statement, MonkeyError>)
        requires
            old(self).wf(),
        ensures
            final(self).wf(),
            final(self).stream@ == old(self).stream@,
            final(self).pos@ >= old(self).pos@,
            match r {
                Ok(st) => ({
                    let (sr, sp) = sp_stmt(old(self).stream@, old(self).pos@);
                    sr == Ok::<StmtView, ErrView>(st@) && final(self).pos@ == sp
                }),
                Err(e) => sp_stmt(old(self).stream@, old(self).pos@).0 == Err::<
                    StmtView,
                    ErrView,
                >(e@),
            },
        decreases pmeasure(old(self).stream@, old(self).pos@), 7int,
    {
        match &self.current_token {
            Token::Let => self.parse_let_statement(),
            Token::Return => self.parse_return_statement(),
            _ => self.parse_expression_statement(),
        }
    }

    /// A `let` statement: `let`, an identifier, `=`, the bound expression,
    /// and its closing token.
    fn parse_let_statement(&mut self) -> (r: Result<Statement, MonkeyError>)
        requires
            old(self).wf(),
            old(self).current_token@ is Let,
        ensures
            final(self).wf(),
            final(self).stream@ == old(self).stream@,
            final(self).pos@ >= old(self).pos@,
            match r {
                Ok(st) => ({
                    let (sr, sp) = sp_stmt(old(self).stream@, old(self).pos@);
                    sr == Ok::<StmtView, ErrView>(st@) && final(self).pos@ == sp
                }),
                Err(e) => sp_stmt(old(self).stream@, old(self).pos@).0 == Err::<
                    StmtView,
                    ErrView,
                >(e@),
            },
        decreases pmeasure(old(self).stream@, old(self).pos@), 6int,
    {
        self.next_token();
        let identifier = if let Token::Identifier(ident) = &self.current_token {
            Expression::Identifier(ident.clone())
        } else {
            return Err(
                MonkeyError::UnexpectedToken {
                    expected: Token::Identifier("".to_owned()),
                    actual: clone_token(&self.current_token),
                },
            );
        };
        self.expect_peek(Token::Assign)?;
        self.next_token();
        let value = self.parse_expression(Precedence::Lowest)?;
        if !self.is_current_token(Token::SemiColon) {
            self.next_token();
        }
        Ok(Statement::Let { identifier, value })
    }

    /// A `return` statement: `return`, the returned expression, `;`.
    fn parse_return_statement(&mut self) -> (r: Result<Statement, MonkeyError>)
        requires
            old(self).wf(),
            old(self).current_token@ is Return,
        ensures
            final(self).wf(),
            final(self).stream@ == old(self).stream@,
            final(self).pos@ >= old(self).pos@,
            match r {
                Ok(st) => ({
                    let (sr, sp) = sp_stmt(old(self).stream@, old(self).pos@);
                    sr == Ok::<StmtView, ErrView>(st@) && final(self).pos@ == sp
                }),
                Err(e) => sp_stmt(old(self).stream@, old(self).pos@).0 == Err::<
                    StmtView,
                    ErrView,
                >(e@),
            },
        decreases pmeasure(old(self).stream@, old(self).pos@), 6int,
    {
        self.next_token();
        let value = self.parse_expression(Precedence::Lowest)?;
        self.expect_peek(Token::SemiColon)?;
        Ok(Statement::Return(value))
    }

    /// An expression standing as a statement, with an optional `;`.
    fn parse_expression_statement(&mut self) -> (r: Result<Statement, MonkeyError>)
        requires
            old(self).wf(),
            !(old(self).current_token@ is Let),
            !(old(self).current_token@ is Return),
        ensures
            final(self).wf(),
            final(self).stream@ == old(self).stream@,
            final(self).pos@ >= old(self).pos@,
            match r {
                Ok(st) => ({
                    let (sr, sp) = sp_stmt(old(self).stream@, old(self).pos@);
                    sr == Ok::<StmtView, ErrView>(st@) && final(self).pos@ == sp
                }),
                Err(e) => sp_stmt(old(self).stream@, old(self).pos@).0 == Err::<
                    StmtView,
                    ErrView,
                >(e@),
            },
        decreases pmeasure(old(self).stream@, old(self).pos@), 6int,
    {
        let expr = self.parse_expression(Precedence::Lowest)?;
        if self.is_peek_token(Token::SemiColon) {
            self.next_token();
        }
        Ok(Statement::Expression(expr))
    }

    /// An expression at the given minimum precedence: a prefix form, then
    /// the infix loop, which extends it while the next operator binds
    /// tighter.
    #[verifier::loop_isolation(false)]
    fn parse_expression(&mut self, precedence: Precedence) -> (r: Result<Expression, MonkeyError>)
        requires
            old(self).wf(),
        ensures
            final(self).wf(),
            final(self).stream@ == old(self).stream@,
            final(self).pos@ >= old(self).pos@,
            match r {
                Ok(e) => ({
                    let (sr, sp) = sp_expr(old(self).stream@, old(self).pos@, precedence);
                    sr == Ok::<ExprView, ErrView>(e@) && final(self).pos@ == sp
                }),
                Err(e) => sp_expr(old(self).stream@, old(self).pos@, precedence).0 == Err::<
                    ExprView,
                    ErrView,
                >(e@),
            },
        decreases pmeasure(old(self).stream@, old(self).pos@), 5int,
    {
        let ghost gs = self.stream@;
        let ghost pos0 = self.pos@;
        let mut left: Expression = match &self.current_token {
            Token::Identifier(ident) => Expression::Identifier(ident.clone()),
            Token::StringLiteral(body) => Expression::String(body.clone()),
            Token::IntLiteral(n) => Expression::Integer(*n),
            Token::True => Expression::Boolean(true),
            Token::False => Expression::Boolean(false),
            Token::Bang => self.parse_prefix_expression()?,
            Token::Minus => self.parse_prefix_expression()?,
            Token::LParen => self.parse_grouped_expression()?,
            Token::If => self.parse_if_expression()?,
            Token::Function => self.parse_function_expression()?,
            t => {
                return Err(MonkeyError::InvalidToken(clone_token(t)));
            },
        };
        proof {
            assert(sp_infix_loop(gs, left@, self.pos@, precedence) == sp_expr(gs, pos0, precedence));
        }
        while !self.is_peek_token(Token::SemiColon) && prec_lt(precedence, self.peek_precedence())
            invariant
                self.wf(),
                self.stream@ == gs,
                self.pos@ >= pos0,
                0 <= pos0,
                sp_infix_loop(gs, left@, self.pos@, precedence) == sp_expr(gs, pos0, precedence),
            decreases pmeasure(gs, self.pos@),
        {
            let ghost posi = self.pos@;
            let ghost lefti = left@;
            match &self.peek_token {
                Token::Plus | Token::Minus | Token::Slash | Token::Asterisk | Token::Eq
                    | Token::NotEq | Token::LT | Token::GT => {
                    self.next_token();
                    left = self.parse_infix_expression(left)?;
                    proof {
                        let (sr, sp) = sp_infix(gs, lefti, posi + 1);
                        assert(next_pos(sp, posi + 2, gs) == sp);
                        assert(sp_infix_loop(gs, left@, self.pos@, precedence) == sp_infix_loop(
                            gs,
                            lefti,
                            posi,
                            precedence,
                        ));
                    }
                },
                Token::LParen => {
                    self.next_token();
                    left = self.parse_call_expression(left)?;
                    proof {
                        let (sr, sp) = sp_call(gs, lefti, posi + 1);
                        assert(next_pos(sp, posi + 2, gs) == sp);
                        assert(sp_infix_loop(gs, left@, self.pos@, precedence) == sp_infix_loop(
                            gs,
                            lefti,
                            posi,
                            precedence,
                        ));
                    }
                },
                _ => {
                    return Ok(left);
                },
            }
        }
        proof {
            assert(sp_infix_loop(gs, left@, self.pos@, precedence) == (
                Ok::<ExprView, ErrView>(left@),
                self.pos@,
            ));
        }
        Ok(left)
    }

    /// A prefix operator expression: the operator, then its operand at
    /// prefix precedence.
    fn parse_prefix_expression(&mut self) -> (r: Result<Expression, MonkeyError>)
        requires
            old(self).wf(),
        ensures
            final(self).wf(),
            final(self).stream@ == old(self).stream@,
            final(self).pos@ >= old(self).pos@,
            match r {
                Ok(e) => ({
                    let (sr, sp) = sp_prefix(old(self).stream@, old(self).pos@);
                    sr == Ok::<ExprView, ErrView>(e@) && final(self).pos@ == sp && final(self).pos@
                        >= old(self).pos@ + 1
                }),
                Err(e) => sp_prefix(old(self).stream@, old(self).pos@).0 == Err::<
                    ExprView,
                    ErrView,
                >(e@),
            },
        decreases pmeasure(old(self).stream@, old(self).pos@), 4int,
    {
        let operator = match &self.current_token {
            Token::Bang => Prefix::Bang,
            Token::Minus => Prefix::Minus,
            t => {
                return Err(MonkeyError::InvalidToken(clone_token(t)));
            },
        };
        self.next_token();
        let right = self.parse_expression(Precedence::Prefix)?;
        Ok(Expression::Prefix { operator, right: Box::new(right) })
    }

    /// An infix expression: the operator as current token, the given left
    /// operand, and a right operand at the operator's own precedence.
    fn parse_infix_expression(&mut self, left_expression: Expression) -> (r: Result<
        Expression,
        MonkeyError,
    >)
        requires
            old(self).wf(),
        ensures
            final(self).wf(),
            final(self).stream@ == old(self).stream@,
            final(self).pos@ >= old(self).pos@,
            match r {
                Ok(e) => ({
                    let (sr, sp) = sp_infix(old(self).stream@, left_expression@, old(self).pos@);
                    sr == Ok::<ExprView, ErrView>(e@) && final(self).pos@ == sp && final(self).pos@
                        >= old(self).pos@ + 1
                }),
                Err(e) => sp_infix(old(self).stream@, left_expression@, old(self).pos@).0 == Err::<
                    ExprView,
                    ErrView,
                >(e@),
            },
        decreases pmeasure(old(self).stream@, old(self).pos@), 4int,
    {
        let operator = match &self.current_token {
            Token::Plus => Infix::Plus,
            Token::Minus => Infix::Minus,
            Token::Asterisk => Infix::Asterisk,
            Token::Slash => Infix::Slash,
            Token::Eq => Infix::Eq,
            Token::NotEq => Infix::NotEq,
            Token::LT => Infix::LT,
            Token::GT => Infix::GT,
            t => {
                return Err(MonkeyError::InvalidToken(clone_token(t)));
            },
        };
        let precedence = self.current_precedence();
        self.next_token();
        let right_expression = self.parse_expression(precedence)?;
        Ok(
            Expression::Infix {
                operator,
                left: Box::new(left_expression),
                right: Box::new(right_expression),
            },
        )
    }

    /// A parenthesized expression: the expression after `(`, closed by `)`.
    fn parse_grouped_expression(&mut self) -> (r: Result<Expression, MonkeyError>)
        requires
            old(self).wf(),
            old(self).current_token@ is LParen,
        ensures
            final(self).wf(),
            final(self).stream@ == old(self).stream@,
            final(self).pos@ >= old(self).pos@,
            match r {
                Ok(e) => ({
                    let (sr, sp) = sp_group(old(self).stream@, old(self).pos@);
                    sr == Ok::<ExprView, ErrView>(e@) && final(self).pos@ == sp && final(self).pos@
                        >= old(self).pos@ + 1
                }),
                Err(e) => sp_group(old(self).stream@, old(self).pos@).0 == Err::<
                    ExprView,
                    ErrView,
                >(e@),
            },
        decreases pmeasure(old(self).stream@, old(self).pos@), 4int,
    {
        self.next_token();
        let expr = self.parse_expression(Precedence::Lowest)?;
        self.expect_peek(Token::RParen)?;
        Ok(expr)
    }

    /// An `if` expression: parenthesized condition, consequence block, and
    /// an optional `else` block.
    fn parse_if_expression(&mut self) -> (r: Result<Expression, MonkeyError>)
        requires
            old(self).wf(),
        ensures
            final(self).wf(),
            final(self).stream@ == old(self).stream@,
            final(self).pos@ >= old(self).pos@,
            match r {
                Ok(e) => ({
                    let (sr, sp) = sp_if(old(self).stream@, old(self).pos@);
                    sr == Ok::<ExprView, ErrView>(e@) && final(self).pos@ == sp && final(self).pos@
                        >= old(self).pos@ + 1
                }),
                Err(e) => sp_if(old(self).stream@, old(self).pos@).0 == Err::<ExprView, ErrView>(
                    e@,
                ),
            },
        decreases pmeasure(old(self).stream@, old(self).pos@), 4int,
    {
        let ghost gs = self.stream@;
        let ghost pos0 = self.pos@;
        self.expect_peek(Token::LParen)?;
        let condition = Box::new(self.parse_expression(Precedence::Lowest)?);
        if !self.is_current_token(Token::RParen) {
            return Err(
                MonkeyError::UnexpectedToken {
                    expected: Token::RParen,
                    actual: clone_token(&self.current_token),
                },
            );
        }
        self.expect_peek(Token::LBrace)?;
        proof {
            assert(next_pos(self.pos@, pos0 + 2, gs) == self.pos@);
        }
        let consequence = Box::new(self.parse_block_statement()?);
        let alternative = if self.is_peek_token(Token::Else) {
            self.next_token();
            self.expect_peek(Token::LBrace)?;
            proof {
                assert(next_pos(self.pos@, pos0 + 3, gs) == self.pos@);
            }
            let stmt = self.parse_block_statement()?;
            Some(Box::new(stmt))
        } else {
            None
        };
        Ok(Expression::If { condition, consequence, alternative })
    }

    /// A function literal: parameter list in parentheses, then the body
    /// block.
    fn parse_function_expression(&mut self) -> (r: Result<Expression, MonkeyError>)
        requires
            old(self).wf(),
        ensures
            final(self).wf(),
            final(self).stream@ == old(self).stream@,
            final(self).pos@ >= old(self).pos@,
            match r {
                Ok(e) => ({
                    let (sr, sp) = sp_fn(old(self).stream@, old(self).pos@);
                    sr == Ok::<ExprView, ErrView>(e@) && final(self).pos@ == sp && final(self).pos@
                        >= old(self).pos@ + 1
                }),
                Err(e) => sp_fn(old(self).stream@, old(self).pos@).0 == Err::<ExprView, ErrView>(
                    e@,
                ),
            },
        decreases pmeasure(old(self).stream@, old(self).pos@), 4int,
    {
        let ghost gs = self.stream@;
        let ghost pos0 = self.pos@;
        self.expect_peek(Token::LParen)?;
        let parameters = self.parse_function_parameters()?;
        self.expect_peek(Token::LBrace)?;
        proof {
            assert(next_pos(self.pos@, pos0 + 2, gs) == self.pos@);
        }
        let body = self.parse_block_statement()?;
        Ok(Expression::Function { parameters, body: Box::new(body) })
    }

    /// The parameter list of a function literal: possibly empty, each item
    /// an identifier, closed by `)`.
    #[verifier::loop_isolation(false)]
    fn parse_function_parameters(&mut self) -> (r: Result<Vec<Expression>, MonkeyError>)
        requires
            old(self).wf(),
            old(self).current_token@ is LParen,
        ensures
            final(self).wf(),
            final(self).stream@ == old(self).stream@,
            final(self).pos@ >= old(self).pos@,
            match r {
                Ok(v) => ({
                    let (sr, sp) = sp_params(old(self).stream@, old(self).pos@);
                    sr == Ok::<Seq<ExprView>, ErrView>(exprs_view(v@)) && final(self).pos@ == sp
                        && final(self).pos@ >= old(self).pos@ + 1
                }),
                Err(e) => sp_params(old(self).stream@, old(self).pos@).0 == Err::<
                    Seq<ExprView>,
                    ErrView,
                >(e@),
            },
        decreases pmeasure(old(self).stream@, old(self).pos@), 3int,
    {
        let ghost gs = self.stream@;
        let ghost pos0 = self.pos@;
        let mut identifiers: Vec<Expression> = Vec::new();
        let no_arguments = self.is_peek_token(Token::RParen);
        if no_arguments {
            self.next_token();
            proof {
                assert(exprs_view(identifiers@) =~= Seq::<ExprView>::empty());
            }
            return Ok(identifiers);
        }
        self.next_token();
        if let Token::Identifier(ident) = &self.current_token {
            identifiers.push(Expression::Identifier(ident.clone()));
        } else {
            return Err(MonkeyError::InvalidToken(clone_token(&self.current_token)));
        }
        proof {
            assert(next_pos(pos0 + 1, pos0 + 1, gs) == pos0 + 1);
            assert(exprs_view(identifiers@) =~= seq![
                ExprView::Identifier(sp_tok(gs, pos0 + 1)->Identifier_0),
            ]);
            assert(sp_params_rec(gs, self.pos@, exprs_view(identifiers@)) == sp_params(gs, pos0));
        }
        while self.is_peek_token(Token::Comma)
            invariant
                self.wf(),
                self.stream@ == gs,
                self.pos@ >= pos0 + 1,
                sp_params_rec(gs, self.pos@, exprs_view(identifiers@)) == sp_params(gs, pos0),
            decreases pmeasure(gs, self.pos@),
        {
            let ghost posi = self.pos@;
            let ghost acc = exprs_view(identifiers@);
            self.next_token();
            self.next_token();
            if let Token::Identifier(ident) = &self.current_token {
                identifiers.push(Expression::Identifier(ident.clone()));
            } else {
                return Err(MonkeyError::InvalidToken(clone_token(&self.current_token)));
            }
            proof {
                assert(next_pos(posi + 2, posi + 2, gs) == posi + 2);
                assert(exprs_view(identifiers@) =~= acc.push(
                    ExprView::Identifier(sp_tok(gs, posi + 2)->Identifier_0),
                ));
                assert(sp_params_rec(gs, self.pos@, exprs_view(identifiers@)) == sp_params_rec(
                    gs,
                    posi,
                    acc,
                ));
            }
        }
        self.expect_peek(Token::RParen)?;
        Ok(identifiers)
    }

    /// A call expression: the callee already parsed, then the arguments in
    /// parentheses.
    fn parse_call_expression(&mut self, function: Expression) -> (r: Result<
        Expression,
        MonkeyError,
    >)
        requires
            old(self).wf(),
            old(self).current_token@ is LParen,
        ensures
            final(self).wf(),
            final(self).stream@ == old(self).stream@,
            final(self).pos@ >= old(self).pos@,
            match r {
                Ok(e) => ({
                    let (sr, sp) = sp_call(old(self).stream@, function@, old(self).pos@);
                    sr == Ok::<ExprView, ErrView>(e@) && final(self).pos@ == sp && final(self).pos@
                        >= old(self).pos@ + 1
                }),
                Err(e) => sp_call(old(self).stream@, function@, old(self).pos@).0 == Err::<
                    ExprView,
                    ErrView,
                >(e@),
            },
        decreases pmeasure(old(self).stream@, old(self).pos@), 4int,
    {
        let arguments = self.parse_call_arguments()?;
        let expr = Expression::Call { function: Box::new(function), arguments };
        Ok(expr)
    }

    /// The argument list of a call: possibly empty, comma-separated
    /// expressions, closed by `)`.
    #[verifier::loop_isolation(false)]
    fn parse_call_arguments(&mut self) -> (r: Result<Vec<Expression>, MonkeyError>)
        requires
            old(self).wf(),
            old(self).current_token@ is LParen,
        ensures
            final(self).wf(),
            final(self).stream@ == old(self).stream@,
            final(self).pos@ >= old(self).pos@,
            match r {
                Ok(v) => ({
                    let (sr, sp) = sp_args(old(self).stream@, old(self).pos@);
                    sr == Ok::<Seq<ExprView>, ErrView>(exprs_view(v@)) && final(self).pos@ == sp
                        && final(self).pos@ >= old(self).pos@ + 1
                }),
                Err(e) => sp_args(old(self).stream@, old(self).pos@).0 == Err::<
                    Seq<ExprView>,
                    ErrView,
                >(e@),
            },
        decreases pmeasure(old(self).stream@, old(self).pos@), 3int,
    {
        let ghost gs = self.stream@;
        let ghost pos0 = self.pos@;
        let mut arguments: Vec<Expression> = Vec::new();
        if self.is_peek_token(Token::RParen) {
            self.next_token();
            proof {
                assert(exprs_view(arguments@) =~= Seq::<ExprView>::empty());
            }
            return Ok(arguments);
        }
        self.next_token();
        proof {
            assert(next_pos(pos0 + 1, pos0 + 1, gs) == pos0 + 1);
        }
        let first = self.parse_expression(Precedence::Lowest)?;
        arguments.push(first);
        proof {
            let (sr, sp) = sp_expr(gs, pos0 + 1, Precedence::Lowest);
            assert(next_pos(sp, pos0 + 1, gs) == sp);
            assert(exprs_view(arguments@) =~= seq![arguments@[0]@]);
            assert(sp_args_rec(gs, self.pos@, exprs_view(arguments@)) == sp_args(gs, pos0));
        }
        while self.is_peek_token(Token::Comma)
            invariant
                self.wf(),
                self.stream@ == gs,
                self.pos@ >= pos0 + 1,
                sp_args_rec(gs, self.pos@, exprs_view(arguments@)) == sp_args(gs, pos0),
            decreases pmeasure(gs, self.pos@),
        {
            let ghost posi = self.pos@;
            let ghost acc = exprs_view(arguments@);
            self.next_token();
            self.next_token();
            proof {
                assert(next_pos(posi + 2, posi + 2, gs) == posi + 2);
            }
            let e = self.parse_expression(Precedence::Lowest)?;
            arguments.push(e);
            proof {
                let (sr, sp) = sp_expr(gs, posi + 2, Precedence::Lowest);
                assert(next_pos(sp, posi + 1, gs) == sp);
                assert(exprs_view(arguments@) =~= acc.push(arguments@[arguments@.len() - 1]@));
                assert(sp_args_rec(gs, self.pos@, exprs_view(arguments@)) == sp_args_rec(
                    gs,
                    posi,
                    acc,
                ));
            }
        }
        self.expect_peek(Token::RParen)?;
        Ok(arguments)
    }

    /// A block statement: statements between `{` and `}`.
    #[verifier::loop_isolation(false)]
    fn parse_block_statement(&mut self) -> (r: Result<Statement, MonkeyError>)
        requires
            old(self).wf(),
            old(self).current_token@ is LBrace,
        ensures
            final(self).wf(),
            final(self).stream@ == old(self).stream@,
            final(self).pos@ >= old(self).pos@,
            match r {
                Ok(st) => ({
                    let (sr, sp) = sp_block(old(self).stream@, old(self).pos@);
                    sr == Ok::<StmtView, ErrView>(st@) && final(self).pos@ == sp && final(self).pos@
                        >= old(self).pos@ + 1
                }),
                Err(e) => sp_block(old(self).stream@, old(self).pos@).0 == Err::<
                    StmtView,
                    ErrView,
                >(e@),
            },
        decreases pmeasure(old(self).stream@, old(self).pos@), 2int,
    {
        let ghost gs = self.stream@;
        let ghost pos0 = self.pos@;
        self.next_token();
        let mut statements: Vec<Statement> = Vec::new();
        proof {
            assert(next_pos(pos0 + 1, pos0 + 1, gs) == pos0 + 1);
            assert(stmts_view(statements@) =~= Seq::<StmtView>::empty());
        }
        while !self.is_current_token(Token::RBrace) && !self.is_current_token(Token::EOF)
            invariant
                self.wf(),
                self.stream@ == gs,
                self.pos@ >= pos0 + 1,
                sp_block_rec(gs, self.pos@, stmts_view(statements@)) == sp_block_rec(
                    gs,
                    pos0 + 1,
                    Seq::empty(),
                ),
            decreases pmeasure(gs, self.pos@),
        {
            let ghost posi = self.pos@;
            let ghost acc = stmts_view(statements@);
            let stmt = self.parse_statement()?;
            statements.push(stmt);
            proof {
                let (sr, sp) = sp_stmt(gs, posi);
                assert(next_pos(sp + 1, posi + 1, gs) == sp + 1);
                assert(stmts_view(statements@) =~= acc.push(statements@[statements@.len() - 1]@));
            }
            self.next_token();
        }
        proof {
            assert(sp_block_rec(gs, self.pos@, stmts_view(statements@)) == (
                Ok::<Seq<StmtView>, ErrView>(stmts_view(statements@)),
                self.pos@,
            ));
        }
        Ok(Statement::Block(statements))
    }
}

/// One record of the printer round trip, proved end to end: the canonical
/// rendering of a nonnegative integer literal lexes back to its one token
/// and re-parses to the same expression. The round trip over every
/// expression form is exercised by tests, not proved.
pub proof fn lemma_integer_display_round_trip(n: i64)
    requires
        n >= 0,
    ensures
        sp_expr(tokens_of(expr_display(ExprView::Integer(n))), 0, Precedence::Lowest) == (
            Ok::<ExprView, ErrView>(ExprView::Integer(n)),
            0int,
        ),
{
    lemma_integer_relex(n);
    let toks = tokens_of(expr_display(ExprView::Integer(n)));
    assert(expr_display(ExprView::Integer(n)) == crate::text::u64_dec(n as nat));
    assert(toks == seq![TokenView::IntLiteral(n)]);
    assert(sp_tok(toks, 0) == TokenView::IntLiteral(n));
    assert(sp_tok(toks, 1) == TokenView::EOF);
    assert(next_pos(0, 0, toks) == 0);
    assert(sp_infix_loop(toks, ExprView::Integer(n), 0, Precedence::Lowest) == (
        Ok::<ExprView, ErrView>(ExprView::Integer(n)),
        0int,
    ));
}

/// A second record of the printer round trip: the rendering of a boolean
/// literal lexes back to its keyword token and re-parses to the same
/// expression.
pub proof fn lemma_boolean_display_round_trip(b: bool)
    ensures
        sp_expr(tokens_of(expr_display(ExprView::Boolean(b))), 0, Precedence::Lowest) == (
            Ok::<ExprView, ErrView>(ExprView::Boolean(b)),
            0int,
        ),
{
    lemma_boolean_relex(b);
    let toks = tokens_of(expr_display(ExprView::Boolean(b)));
    if b {
        assert(toks == seq![TokenView::True]);
        assert(sp_tok(toks, 0) == TokenView::True);
    } else {
        assert(toks == seq![TokenView::False]);
        assert(sp_tok(toks, 0) == TokenView::False);
    }
    assert(sp_tok(toks, 1) == TokenView::EOF);
    assert(next_pos(0, 0, toks) == 0);
    assert(sp_infix_loop(toks, ExprView::Boolean(b), 0, Precedence::Lowest) == (
        Ok::<ExprView, ErrView>(ExprView::Boolean(b)),
        0int,
    ));
}

/// Parsing is a function of the token stream: two parses of equal streams
/// agree, whether they yield a program or an error.
pub proof fn lemma_parser_deterministic(
    s: Seq<TokenView>,
    r1: Result<Seq<StmtView>, ErrView>,
    r2: Result<Seq<StmtView>, ErrView>,
)
    requires
        r1 == sp_program(s),
        r2 == sp_program(s),
    ensures
        r1 == r2,
{
}

} // verus!
