//! Lexical analysis: turns a source string into a stream of tokens.
//!
//! The lexer is specified against `lex_step`, a mathematical step function on
//! the input's character sequence: from any position it gives the next token
//! and the position after it. `next_token` is proved to take exactly that
//! step. The lexer is total: it cannot fail, it only ever moves forward, and
//! at the end of the input it answers `EOF` forever.

pub mod token;

use vstd::prelude::*;
use vstd::string::StrSliceExecFns;
use crate::lexer::token::{Token, TokenView};
use crate::text::{str_eq, u64_dec};

verus! {

broadcast use vstd::seq::group_seq_axioms;

/// The whitespace characters the lexer skips.
pub open spec fn is_ws_char(c: char) -> bool {
    c == ' ' || c == '\t' || c == '\n' || c == '\r'
}

/// Characters that may make up an identifier.
pub open spec fn is_letter_char(c: char) -> bool {
    ('a' <= c && c <= 'z') || ('A' <= c && c <= 'Z') || c == '_'
}

/// Decimal digit characters.
pub open spec fn is_digit_char(c: char) -> bool {
    '0' <= c && c <= '9'
}

/// First position at or after `pos` holding no whitespace, capped at the end.
pub open spec fn skip_ws_end(s: Seq<char>, pos: int) -> int
    decreases s.len() - pos,
{
    if 0 <= pos < s.len() && is_ws_char(s[pos]) {
        skip_ws_end(s, pos + 1)
    } else {
        pos
    }
}

/// End of the identifier run beginning at `pos`.
pub open spec fn ident_end(s: Seq<char>, pos: int) -> int
    decreases s.len() - pos,
{
    if 0 <= pos < s.len() && is_letter_char(s[pos]) {
        ident_end(s, pos + 1)
    } else {
        pos
    }
}

/// End of the digit run beginning at `pos`.
pub open spec fn digits_end(s: Seq<char>, pos: int) -> int
    decreases s.len() - pos,
{
    if 0 <= pos < s.len() && is_digit_char(s[pos]) {
        digits_end(s, pos + 1)
    } else {
        pos
    }
}

/// Position of the closing quote at or after `pos`, or the end of the input.
pub open spec fn string_end(s: Seq<char>, pos: int) -> int
    decreases s.len() - pos,
{
    if 0 <= pos < s.len() {
        if s[pos] == '"' {
            pos
        } else {
            string_end(s, pos + 1)
        }
    } else {
        s.len() as int
    }
}

/// Numeric value of a digit character.
pub open spec fn digit_of(c: char) -> int {
    c as int - '0' as int
}

/// Value of the digit run `s[from..to]`, read in decimal.
pub open spec fn digits_val(s: Seq<char>, from: int, to: int) -> int
    decreases to - from,
{
    if to <= from {
        0
    } else {
        digits_val(s, from, to - 1) * 10 + digit_of(s[to - 1])
    }
}

/// The token an identifier run denotes: a keyword where it matches one.
pub open spec fn keyword_or_ident(w: Seq<char>) -> TokenView {
    if w == "fn"@ {
        TokenView::Function
    } else if w == "let"@ {
        TokenView::Let
    } else if w == "if"@ {
        TokenView::If
    } else if w == "else"@ {
        TokenView::Else
    } else if w == "return"@ {
        TokenView::Return
    } else if w == "true"@ {
        TokenView::True
    } else if w == "false"@ {
        TokenView::False
    } else {
        TokenView::Identifier(w)
    }
}

/// One step of the lexer: the next token from position `pos` and the position
/// after it. Whitespace is skipped first; `=` and `!` look one character
/// ahead; a quote starts a string literal read to the next quote or the end
/// of input; letter runs become keywords or identifiers; digit runs become
/// integer literals, or `Illegal` when the value exceeds `i64::MAX`; the end
/// of input answers `EOF` without moving.
pub open spec fn lex_step(s: Seq<char>, pos: int) -> (TokenView, int) {
    let p = skip_ws_end(s, pos);
    if !(0 <= p < s.len()) {
        (TokenView::EOF, s.len() as int)
    } else {
        let c = s[p];
        if c == '=' {
            if p + 1 < s.len() && s[p + 1] == '=' {
                (TokenView::Eq, p + 2)
            } else {
                (TokenView::Assign, p + 1)
            }
        } else if c == '!' {
            if p + 1 < s.len() && s[p + 1] == '=' {
                (TokenView::NotEq, p + 2)
            } else {
                (TokenView::Bang, p + 1)
            }
        } else if c == '+' {
            (TokenView::Plus, p + 1)
        } else if c == '-' {
            (TokenView::Minus, p + 1)
        } else if c == '/' {
            (TokenView::Slash, p + 1)
        } else if c == '*' {
            (TokenView::Asterisk, p + 1)
        } else if c == '<' {
            (TokenView::LT, p + 1)
        } else if c == '>' {
            (TokenView::GT, p + 1)
        } else if c == ';' {
            (TokenView::SemiColon, p + 1)
        } else if c == ',' {
            (TokenView::Comma, p + 1)
        } else if c == '(' {
            (TokenView::LParen, p + 1)
        } else if c == ')' {
            (TokenView::RParen, p + 1)
        } else if c == '{' {
            (TokenView::LBrace, p + 1)
        } else if c == '}' {
            (TokenView::RBrace, p + 1)
        } else if c == '"' {
            let e = string_end(s, p + 1);
            (
                TokenView::StringLiteral(s.subrange(p + 1, e)),
                if e < s.len() {
                    e + 1
                } else {
                    e
                },
            )
        } else if c == '\0' {
            (TokenView::EOF, p + 1)
        } else if is_letter_char(c) {
            let e = ident_end(s, p);
            (keyword_or_ident(s.subrange(p, e)), e)
        } else if is_digit_char(c) {
            let e = digits_end(s, p);
            let v = digits_val(s, p, e);
            if v <= i64::MAX {
                (TokenView::IntLiteral(v as i64), e)
            } else {
                (TokenView::Illegal, e)
            }
        } else {
            (TokenView::Illegal, p + 1)
        }
    }
}

/// The position scans stay between `pos` and the end of the input.
proof fn lemma_scan_bounds(s: Seq<char>, pos: int)
    requires
        0 <= pos <= s.len(),
    ensures
        pos <= skip_ws_end(s, pos) <= s.len(),
        pos <= ident_end(s, pos) <= s.len(),
        pos <= digits_end(s, pos) <= s.len(),
        pos <= string_end(s, pos) <= s.len(),
    decreases s.len() - pos,
{
    if pos < s.len() {
        lemma_scan_bounds(s, pos + 1);
    }
}

/// A lexer step never moves backward, never runs past the end, and moves
/// strictly forward as long as input is left; at the end of the input the
/// step answers `EOF` and stands still.
pub proof fn lemma_lex_step_range(s: Seq<char>, pos: int)
    requires
        0 <= pos <= s.len(),
    ensures
        pos <= lex_step(s, pos).1 <= s.len(),
        pos < s.len() ==> lex_step(s, pos).1 > pos,
        pos == s.len() ==> lex_step(s, pos) == (TokenView::EOF, pos),
{
    lemma_scan_bounds(s, pos);
    let p = skip_ws_end(s, pos);
    if 0 <= p < s.len() {
        lemma_scan_bounds(s, p);
        lemma_scan_bounds(s, p + 1);
    }
}

/// The tokens the lexer yields from position `pos` to the end of the input.
/// An `EOF` standing for the end of the input is not part of the sequence: at
/// the end the lexer answers `EOF` forever.
pub open spec fn toks_from(s: Seq<char>, pos: int) -> Seq<TokenView>
    decreases s.len() - pos,
    via toks_from_dec
{
    if !(0 <= pos < s.len()) {
        Seq::empty()
    } else {
        let (t, p2) = lex_step(s, pos);
        seq![t] + toks_from(s, p2)
    }
}

#[via_fn]
proof fn toks_from_dec(s: Seq<char>, pos: int) {
    if 0 <= pos < s.len() {
        lemma_lex_step_range(s, pos);
    }
}

/// The token stream of a whole input.
pub open spec fn tokens_of(s: Seq<char>) -> Seq<TokenView> {
    toks_from(s, 0)
}

/// The lexer finds at most one token per character: however long the input,
/// the stream is finite, so a reader reaches `EOF` after at most `s.len()`
/// steps, and from then on every step answers `EOF` without moving.
pub proof fn lemma_lexer_total(s: Seq<char>, pos: int)
    requires
        0 <= pos <= s.len(),
    ensures
        toks_from(s, pos).len() <= s.len() - pos,
        lex_step(s, s.len() as int) == (TokenView::EOF, s.len() as int),
    decreases s.len() - pos,
{
    lemma_lex_step_range(s, s.len() as int);
    if 0 <= pos < s.len() {
        lemma_lex_step_range(s, pos);
        lemma_lexer_total(s, lex_step(s, pos).1);
    }
}

/// The value of a digit run depends only on the characters inside the run.
proof fn lemma_digits_val_frame(s1: Seq<char>, s2: Seq<char>, from: int, to: int)
    requires
        0 <= from,
        to <= s1.len(),
        to <= s2.len(),
        forall|k: int| from <= k < to ==> s1[k] == s2[k],
    ensures
        digits_val(s1, from, to) == digits_val(s2, from, to),
    decreases to - from,
{
    if to > from {
        lemma_digits_val_frame(s1, s2, from, to - 1);
    }
}

/// A decimal rendering reads back to the number it renders.
proof fn lemma_u64_dec_value(n: nat)
    ensures
        digits_val(u64_dec(n), 0, u64_dec(n).len() as int) == n,
    decreases n,
{
    crate::text::lemma_u64_dec_shape(n);
    if n < 10 {
        crate::text::lemma_dig_char(n);
        assert(u64_dec(n) == crate::text::dig(n));
        assert(u64_dec(n).len() == 1);
        assert('0' as int == 48);
        assert(u64_dec(n)[0] as int == n + 48);
        assert(digit_of(u64_dec(n)[0]) == n);
        assert(digits_val(u64_dec(n), 0, 1) == digits_val(u64_dec(n), 0, 0) * 10 + digit_of(
            u64_dec(n)[0],
        ));
        assert(digits_val(u64_dec(n), 0, 0) == 0);
    } else {
        lemma_u64_dec_value(n / 10);
        crate::text::lemma_dig_char(n % 10);
        let s1 = u64_dec(n / 10);
        let s = u64_dec(n);
        assert(s == s1 + crate::text::dig(n % 10));
        assert(s.len() == s1.len() + 1);
        assert(s[s.len() - 1] as int == (n % 10) + 48);
        assert(digit_of(s[s.len() - 1]) == n % 10);
        lemma_digits_val_frame(s, s1, 0, s1.len() as int);
        assert(digits_val(s, 0, s.len() as int) == digits_val(s, 0, s1.len() as int) * 10 + (
        n % 10));
        assert((n / 10) * 10 + n % 10 == n);
    }
}

/// On a run of digit characters, the digit scan reaches the given end.
proof fn lemma_digits_end_run(s: Seq<char>, from: int)
    requires
        0 <= from <= s.len(),
        forall|k: int| from <= k < s.len() ==> 48 <= #[trigger] s[k] as int <= 57,
    ensures
        digits_end(s, from) == s.len(),
    decreases s.len() - from,
{
    if from < s.len() {
        assert(is_digit_char(s[from]));
        lemma_digits_end_run(s, from + 1);
    }
}

/// On a run of identifier characters, the identifier scan reaches the given
/// end.
proof fn lemma_ident_end_run(s: Seq<char>, from: int)
    requires
        0 <= from <= s.len(),
        forall|k: int| from <= k < s.len() ==> is_letter_char(#[trigger] s[k]),
    ensures
        ident_end(s, from) == s.len(),
    decreases s.len() - from,
{
    if from < s.len() {
        lemma_ident_end_run(s, from + 1);
    }
}

/// The keywords `true` and `false` lex back to exactly their tokens.
pub proof fn lemma_boolean_relex(b: bool)
    ensures
        b ==> toks_from("true"@, 0) == seq![TokenView::True],
        !b ==> toks_from("false"@, 0) == seq![TokenView::False],
{
    reveal_strlit("fn");
    reveal_strlit("let");
    reveal_strlit("if");
    reveal_strlit("else");
    reveal_strlit("return");
    reveal_strlit("true");
    reveal_strlit("false");
    if b {
        let s = "true"@;
        assert(s.len() == 4);
        assert forall|k: int| 0 <= k < s.len() implies is_letter_char(#[trigger] s[k]) by {
            assert(s[0] == 't' && s[1] == 'r' && s[2] == 'u' && s[3] == 'e');
        }
        lemma_ident_end_run(s, 0);
        assert(skip_ws_end(s, 0) == 0);
        assert(s.subrange(0, 4) =~= s);
        assert(keyword_or_ident(s) == TokenView::True);
        assert(lex_step(s, 0) == (TokenView::True, 4int));
        assert(toks_from(s, 4) =~= Seq::<TokenView>::empty());
        assert(toks_from(s, 0) =~= seq![TokenView::True]);
    } else {
        let s = "false"@;
        assert(s.len() == 5);
        assert forall|k: int| 0 <= k < s.len() implies is_letter_char(#[trigger] s[k]) by {
            assert(s[0] == 'f' && s[1] == 'a' && s[2] == 'l' && s[3] == 's' && s[4] == 'e');
        }
        lemma_ident_end_run(s, 0);
        assert(skip_ws_end(s, 0) == 0);
        assert(s.subrange(0, 5) =~= s);
        assert(keyword_or_ident(s) == TokenView::False);
        assert(lex_step(s, 0) == (TokenView::False, 5int));
        assert(toks_from(s, 5) =~= Seq::<TokenView>::empty());
        assert(toks_from(s, 0) =~= seq![TokenView::False]);
    }
}

/// The canonical rendering of a nonnegative integer lexes back to exactly
/// its literal token, with nothing after it.
pub proof fn lemma_integer_relex(n: i64)
    requires
        n >= 0,
    ensures
        toks_from(u64_dec(n as nat), 0) == seq![TokenView::IntLiteral(n)],
{
    let s = u64_dec(n as nat);
    crate::text::lemma_u64_dec_shape(n as nat);
    lemma_u64_dec_value(n as nat);
    lemma_digits_end_run(s, 0);
    let c = s[0];
    assert(48 <= c as int <= 57);
    assert(!is_ws_char(c));
    assert(skip_ws_end(s, 0) == 0);
    assert(!is_letter_char(c));
    assert(is_digit_char(c));
    assert(c != '=' && c != '!' && c != '+' && c != '-' && c != '/' && c != '*' && c != '<' && c
        != '>' && c != ';' && c != ',' && c != '(' && c != ')' && c != '{' && c != '}' && c != '"'
        && c != '\0');
    assert(lex_step(s, 0) == (TokenView::IntLiteral(n), s.len() as int));
    assert(toks_from(s, s.len() as int) =~= Seq::<TokenView>::empty());
    assert(toks_from(s, 0) =~= seq![TokenView::IntLiteral(n)]);
}

/// The lexer: the source text and the position of the next character.
#[derive(Debug, Clone)]
pub struct Lexer {
    /// The source text. Public so that specifications can speak of it; not
    /// meant to be written from outside.
    pub input: String,
    /// Position of the current character, in characters; never past the end.
    pub position: usize,
}

impl Lexer {
    /// The lexer's position never leaves the input.
    pub open spec fn wf(self) -> bool {
        self.position <= self.input@.len()
    }

    /// The characters of the input.
    pub open spec fn text(self) -> Seq<char> {
        self.input@
    }

    /// The position of the next character to read.
    pub open spec fn pos(self) -> int {
        self.position as int
    }

    /// The tokens still to come from this lexer.
    pub open spec fn toks(self) -> Seq<TokenView> {
        toks_from(self.input@, self.position as int)
    }

    /// A lexer over `input`, standing at its first character.
    pub fn new(input: String) -> (l: Lexer)
        ensures
            l.wf(),
            l.text() == input@,
            l.pos() == 0,
    {
        Lexer { input, position: 0 }
    }

    /// The number of characters of the input.
    fn length(&self) -> (n: usize)
        ensures
            n == self.input@.len(),
    {
        self.input.as_str().unicode_len()
    }

    /// The current character, or the zero sentinel at the end of the input.
    fn current_char(&self) -> (c: char)
        requires
            self.wf(),
        ensures
            c == if self.pos() < self.text().len() {
                self.text()[self.pos()]
            } else {
                '\0'
            },
    {
        let n = self.length();
        if self.position < n {
            self.input.as_str().get_char(self.position)
        } else {
            '\0'
        }
    }

    /// The character after the current one, or the zero sentinel.
    fn peek_char(&self) -> (c: char)
        requires
            self.wf(),
        ensures
            c == if self.pos() + 1 < self.text().len() {
                self.text()[self.pos() + 1]
            } else {
                '\0'
            },
    {
        let n = self.length();
        if self.position < n {
            let p2 = self.position + 1;
            if p2 < n {
                self.input.as_str().get_char(p2)
            } else {
                '\0'
            }
        } else {
            '\0'
        }
    }

    /// Moves one character forward, stopping at the end of the input.
    fn read_char(&mut self)
        requires
            old(self).wf(),
        ensures
            final(self).wf(),
            final(self).input == old(self).input,
            final(self).pos() == if old(self).pos() < old(self).text().len() {
                old(self).pos() + 1
            } else {
                old(self).pos()
            },
    {
        let n = self.length();
        if self.position < n {
            self.position = self.position + 1;
        }
    }

    /// Whether `c` may make up an identifier.
    fn is_letter(&self, c: char) -> (r: bool)
        ensures
            r == is_letter_char(c),
    {
        ('a' <= c && c <= 'z') || ('A' <= c && c <= 'Z') || c == '_'
    }

    /// Whether `c` is a decimal digit.
    fn is_digit(&self, c: char) -> (r: bool)
        ensures
            r == is_digit_char(c),
    {
        '0' <= c && c <= '9'
    }

    /// Whether the current character exists and is whitespace.
    fn at_ws(&self) -> (r: bool)
        requires
            self.wf(),
        ensures
            r == (self.pos() < self.text().len() && is_ws_char(self.text()[self.pos()])),
    {
        let n = self.length();
        if self.position < n {
            let c = self.input.as_str().get_char(self.position);
            c == ' ' || c == '\t' || c == '\n' || c == '\r'
        } else {
            false
        }
    }

    /// Whether the current character exists and may make up an identifier.
    fn at_letter(&self) -> (r: bool)
        requires
            self.wf(),
        ensures
            r == (self.pos() < self.text().len() && is_letter_char(self.text()[self.pos()])),
    {
        let n = self.length();
        if self.position < n {
            let c = self.input.as_str().get_char(self.position);
            self.is_letter(c)
        } else {
            false
        }
    }

    /// Whether the current character exists and is a digit.
    fn at_digit(&self) -> (r: bool)
        requires
            self.wf(),
        ensures
            r == (self.pos() < self.text().len() && is_digit_char(self.text()[self.pos()])),
    {
        let n = self.length();
        if self.position < n {
            let c = self.input.as_str().get_char(self.position);
            self.is_digit(c)
        } else {
            false
        }
    }

    /// Whether the current character exists and is not a quote.
    fn at_nonquote(&self) -> (r: bool)
        requires
            self.wf(),
        ensures
            r == (self.pos() < self.text().len() && self.text()[self.pos()] != '"'),
    {
        let n = self.length();
        if self.position < n {
            let c = self.input.as_str().get_char(self.position);
            c != '"'
        } else {
            false
        }
    }

    /// Skips whitespace; afterwards the position stands on the first
    /// non-whitespace character, or at the end of the input.
    fn skip_whitespace(&mut self)
        requires
            old(self).wf(),
        ensures
            final(self).wf(),
            final(self).input == old(self).input,
            final(self).pos() == skip_ws_end(old(self).text(), old(self).pos()),
    {
        let n = self.length();
        while self.at_ws()
            invariant
                self.wf(),
                self.input == old(self).input,
                n == self.input@.len(),
                skip_ws_end(self.text(), self.pos()) == skip_ws_end(
                    old(self).text(),
                    old(self).pos(),
                ),
            decreases self.input@.len() - self.pos(),
        {
            self.position = self.position + 1;
        }
    }

    /// Reads the maximal identifier run from the current position.
    fn read_identifier(&mut self) -> (w: String)
        requires
            old(self).wf(),
        ensures
            final(self).wf(),
            final(self).input == old(self).input,
            final(self).pos() == ident_end(old(self).text(), old(self).pos()),
            w@ == old(self).text().subrange(old(self).pos(), final(self).pos()),
    {
        let n = self.length();
        let start = self.position;
        while self.at_letter()
            invariant
                self.wf(),
                self.input == old(self).input,
                n == self.input@.len(),
                old(self).pos() <= self.pos(),
                ident_end(self.text(), self.pos()) == ident_end(old(self).text(), old(self).pos()),
            decreases self.input@.len() - self.pos(),
        {
            self.position = self.position + 1;
        }
        self.input.as_str().substring_char(start, self.position).to_owned()
    }

    /// Reads the maximal digit run from the current position and parses it:
    /// an integer token, or `Illegal` when the value does not fit in an
    /// `i64`.
    fn read_int(&mut self) -> (t: Token)
        requires
            old(self).wf(),
        ensures
            final(self).wf(),
            final(self).input == old(self).input,
            final(self).pos() == digits_end(old(self).text(), old(self).pos()),
            t@ == ({
                let v = digits_val(old(self).text(), old(self).pos(), final(self).pos());
                if v <= i64::MAX {
                    TokenView::IntLiteral(v as i64)
                } else {
                    TokenView::Illegal
                }
            }),
    {
        let ghost start = self.pos();
        let mut acc: i64 = 0;
        let mut fits: bool = true;
        let n = self.length();
        while self.at_digit()
            invariant
                self.wf(),
                self.input == old(self).input,
                n == self.input@.len(),
                start <= self.pos(),
                digits_end(self.text(), self.pos()) == digits_end(old(self).text(), start),
                fits ==> acc == digits_val(self.text(), start, self.pos()) && acc >= 0,
                !fits ==> digits_val(self.text(), start, self.pos()) > i64::MAX,
            decreases self.input@.len() - self.pos(),
        {
            let c = self.input.as_str().get_char(self.position);
            let d: i64 = (c as u32 as i64) - 48;
            proof {
                assert(d == digit_of(c));
                assert(0 <= d <= 9);
            }
            let ghost prev = digits_val(self.text(), start, self.pos());
            if fits {
                match acc.checked_mul(10) {
                    Some(x) => match x.checked_add(d) {
                        Some(y) => {
                            acc = y;
                        },
                        None => {
                            fits = false;
                        },
                    },
                    None => {
                        fits = false;
                    },
                }
            } else {
                proof {
                    assert(prev * 10 + d > i64::MAX) by (nonlinear_arith)
                        requires
                            prev > i64::MAX,
                            d >= 0,
                    ;
                }
            }
            proof {
                assert(digits_val(self.text(), start, self.pos() + 1) == prev * 10 + d);
            }
            self.position = self.position + 1;
        }
        if fits {
            Token::IntLiteral(acc)
        } else {
            Token::Illegal
        }
    }

    /// Reads a string literal's body: everything up to the next quote or the
    /// end of the input. Afterwards the position stands on the closing quote,
    /// or at the end.
    fn read_string(&mut self) -> (t: Token)
        requires
            old(self).wf(),
            old(self).pos() < old(self).text().len(),
        ensures
            final(self).wf(),
            final(self).input == old(self).input,
            final(self).pos() == string_end(old(self).text(), old(self).pos() + 1),
            t@ == TokenView::StringLiteral(
                old(self).text().subrange(old(self).pos() + 1, final(self).pos()),
            ),
    {
        self.read_char();
        let start = self.position;
        let n = self.length();
        while self.at_nonquote()
            invariant
                self.wf(),
                self.input == old(self).input,
                n == self.input@.len(),
                start <= self.pos(),
                string_end(self.text(), self.pos()) == string_end(
                    old(self).text(),
                    old(self).pos() + 1,
                ),
            decreases self.input@.len() - self.pos(),
        {
            self.position = self.position + 1;
        }
        let body = self.input.as_str().substring_char(start, self.position).to_owned();
        Token::StringLiteral(body)
    }

    /// Yields the next token and moves past it: the step `lex_step` describes,
    /// taken on the lexer's state. As long as input is left the position
    /// strictly advances, so `EOF` comes after at most as many calls as the
    /// input has characters; at the end of the input the lexer stands still
    /// and answers `EOF` forever.
    pub fn next_token(&mut self) -> (t: Token)
        requires
            old(self).wf(),
        ensures
            final(self).wf(),
            final(self).input == old(self).input,
            t@ == lex_step(old(self).text(), old(self).pos()).0,
            final(self).pos() == lex_step(old(self).text(), old(self).pos()).1,
            old(self).pos() < old(self).text().len() ==> final(self).pos() > old(self).pos(),
            old(self).pos() == old(self).text().len() ==> t@ == TokenView::EOF && final(self).pos()
                == old(self).pos(),
    {
        proof {
            lemma_lex_step_range(old(self).text(), old(self).pos());
        }
        self.skip_whitespace();
        let n = self.length();
        if self.position >= n {
            return Token::EOF;
        }
        let c = self.input.as_str().get_char(self.position);
        let tok: Token = if c == '=' {
            if self.peek_char() == '=' {
                self.read_char();
                Token::Eq
            } else {
                Token::Assign
            }
        } else if c == '!' {
            if self.peek_char() == '=' {
                self.read_char();
                Token::NotEq
            } else {
                Token::Bang
            }
        } else if c == '+' {
            Token::Plus
        } else if c == '-' {
            Token::Minus
        } else if c == '/' {
            Token::Slash
        } else if c == '*' {
            Token::Asterisk
        } else if c == '<' {
            Token::LT
        } else if c == '>' {
            Token::GT
        } else if c == ';' {
            Token::SemiColon
        } else if c == ',' {
            Token::Comma
        } else if c == '(' {
            Token::LParen
        } else if c == ')' {
            Token::RParen
        } else if c == '{' {
            Token::LBrace
        } else if c == '}' {
            Token::RBrace
        } else if c == '"' {
            self.read_string()
        } else if c == '\0' {
            Token::EOF
        } else if self.is_letter(c) {
            let w = self.read_identifier();
            return if str_eq(w.as_str(), "fn") {
                Token::Function
            } else if str_eq(w.as_str(), "let") {
                Token::Let
            } else if str_eq(w.as_str(), "if") {
                Token::If
            } else if str_eq(w.as_str(), "else") {
                Token::Else
            } else if str_eq(w.as_str(), "return") {
                Token::Return
            } else if str_eq(w.as_str(), "true") {
                Token::True
            } else if str_eq(w.as_str(), "false") {
                Token::False
            } else {
                Token::Identifier(w)
            };
        } else if self.is_digit(c) {
            return self.read_int();
        } else {
            Token::Illegal
        };
        self.read_char();
        tok
    }
}

} // verus!
