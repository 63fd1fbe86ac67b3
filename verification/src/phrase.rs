//! Statement patterns: fixed words, single tokens and whole expressions,
//! matched against the tokens.

use crate::expr::{is_at, tokens_left};
use crate::lexer::{Token, TokenType, TokenView};
use crate::parser::{Parser, SyntaxError};
use vstd::prelude::*;
use vstd::string::*;

verus! {

/// One of the three places of a pattern that a token or an expression can
/// be kept in.
#[derive(Debug, Clone, Copy, PartialEq, Eq, Structural)]
pub enum Slot {
    S0,
    S1,
    S2,
}

/// One element of a statement pattern.
#[derive(Debug, Clone, Copy)]
pub enum Pat {
    /// A token that reads exactly this.
    Lit(&'static str),
    /// Any token; it is kept in the slot.
    Tok(Slot),
    /// An expression; the position of its first token is kept in the slot.
    Expr(Slot),
    /// An expression that may be missing, in which case a `;` or a `)`
    /// stands in its place.
    OptExpr(Slot),
}

/// The mathematical content of a [`Pat`].
pub ghost enum PatView {
    Lit { text: Seq<char> },
    Tok { slot: Slot },
    Expr { slot: Slot },
    OptExpr { slot: Slot },
}

impl View for Pat {
    type V = PatView;

    open spec fn view(&self) -> PatView {
        match *self {
            Pat::Lit(text) => PatView::Lit { text: text@ },
            Pat::Tok(slot) => PatView::Tok { slot },
            Pat::Expr(slot) => PatView::Expr { slot },
            Pat::OptExpr(slot) => PatView::OptExpr { slot },
        }
    }
}

/// The views of the elements of a pattern.
pub open spec fn pats_view(phr: Seq<Pat>) -> Seq<PatView> {
    phr.map_values(|p: Pat| p@)
}

/// What a pattern kept while it was matched.
#[derive(Debug)]
pub struct Captures {
    pub t0: Token,
    pub t1: Token,
    pub t2: Token,
    pub e0: usize,
    pub e1: usize,
    pub e2: usize,
}

/// The mathematical content of [`Captures`].
pub ghost struct CapturesView {
    pub t0: TokenView,
    pub t1: TokenView,
    pub t2: TokenView,
    pub e0: int,
    pub e1: int,
    pub e2: int,
}

impl View for Captures {
    type V = CapturesView;

    open spec fn view(&self) -> CapturesView {
        CapturesView {
            t0: self.t0@,
            t1: self.t1@,
            t2: self.t2@,
            e0: self.e0 as int,
            e1: self.e1 as int,
            e2: self.e2 as int,
        }
    }
}

/// The token that fills a slot in which nothing was kept.
pub open spec fn no_token() -> TokenView {
    TokenView { string: Seq::empty(), ty: TokenType::Simbol, line: None }
}

/// The captures before anything is kept.
pub open spec fn no_captures() -> CapturesView {
    CapturesView { t0: no_token(), t1: no_token(), t2: no_token(), e0: 0, e1: 0, e2: 0 }
}

/// `caps` with `tok` kept in `slot`.
pub open spec fn keep_token(caps: CapturesView, slot: Slot, tok: TokenView) -> CapturesView {
    match slot {
        Slot::S0 => CapturesView { t0: tok, ..caps },
        Slot::S1 => CapturesView { t1: tok, ..caps },
        Slot::S2 => CapturesView { t2: tok, ..caps },
    }
}

/// `caps` with the position `pos` kept in `slot`.
pub open spec fn keep_expr(caps: CapturesView, slot: Slot, pos: int) -> CapturesView {
    match slot {
        Slot::S0 => CapturesView { e0: pos, ..caps },
        Slot::S1 => CapturesView { e1: pos, ..caps },
        Slot::S2 => CapturesView { e2: pos, ..caps },
    }
}

/// The texts that continue an expression.
pub open spec fn is_operator(text: Seq<char>) -> bool {
    text == "+"@ || text == "-"@ || text == "*"@ || text == "/"@ || text == "=="@ || text == "!="@
        || text == "<"@ || text == "<="@ || text == "="@
}

/// How many tokens the expression that begins at `start` takes: either
/// all of `( expression )`, or one token, an index in brackets where one
/// follows, and then each operator with the expression after it.
pub open spec fn spec_expr_len(toks: Seq<TokenView>, start: int) -> Result<nat, SyntaxError>
    decreases tokens_left(toks, start), 1nat,
{
    if !(0 <= start < toks.len()) {
        Err(SyntaxError::UnexpectedEnd)
    } else if toks[start].string == "("@ {
        match spec_expr_len(toks, start + 1) {
            Err(e) => Err(e),
            Ok(inside) => if start + 1 + inside >= toks.len() {
                Err(SyntaxError::UnexpectedEnd)
            } else if !is_at(toks, start + 1 + inside, ")"@) {
                Err(SyntaxError::MissingParenthesis)
            } else {
                Ok(inside + 2)
            },
        }
    } else if start + 1 >= toks.len() {
        Err(SyntaxError::UnexpectedEnd)
    } else if toks[start + 1].string == "["@ {
        match spec_expr_len(toks, start + 2) {
            Err(e) => Err(e),
            Ok(inside) => if start + 2 + inside >= toks.len() {
                Err(SyntaxError::UnexpectedEnd)
            } else if !is_at(toks, start + 2 + inside, "]"@) {
                Err(SyntaxError::UnmatchedBracket)
            } else {
                match spec_expr_tail(toks, start + 3 + inside) {
                    Err(e) => Err(e),
                    Ok(tail) => Ok(3 + inside + tail),
                }
            },
        }
    } else {
        match spec_expr_tail(toks, start + 1) {
            Err(e) => Err(e),
            Ok(tail) => Ok(1 + tail),
        }
    }
}

/// How many tokens of operators and operands follow at `pos`.
pub open spec fn spec_expr_tail(toks: Seq<TokenView>, pos: int) -> Result<nat, SyntaxError>
    decreases tokens_left(toks, pos), 0nat,
{
    if !(0 <= pos < toks.len()) || !is_operator(toks[pos].string) {
        Ok(0)
    } else {
        match spec_expr_len(toks, pos + 1) {
            Err(e) => Err(e),
            Ok(rhs) => match spec_expr_tail(toks, pos + 1 + rhs) {
                Err(e) => Err(e),
                Ok(tail) => Ok(1 + rhs + tail),
            },
        }
    }
}

/// A pattern that matched: where the statement goes on, and what was
/// kept.
pub ghost struct Matched {
    pub pos: int,
    pub caps: CapturesView,
}

/// Matching the elements of `phr` from the `k`-th on against the tokens
/// at `pos`: `None` where a fixed word does not match.
pub open spec fn spec_match(
    toks: Seq<TokenView>,
    pos: int,
    phr: Seq<PatView>,
    k: int,
    caps: CapturesView,
) -> Result<Option<Matched>, SyntaxError>
    decreases phr.len() - k,
{
    if k < 0 || k >= phr.len() {
        Ok(Some(Matched { pos, caps }))
    } else if !(0 <= pos < toks.len()) {
        Err(SyntaxError::UnexpectedEnd)
    } else {
        match phr[k] {
            PatView::Lit { text } => if toks[pos].string == text {
                spec_match(toks, pos + 1, phr, k + 1, caps)
            } else {
                Ok(None)
            },
            PatView::Tok { slot } => spec_match(
                toks,
                pos + 1,
                phr,
                k + 1,
                keep_token(caps, slot, toks[pos]),
            ),
            PatView::Expr { slot } => match spec_expr_len(toks, pos) {
                Err(e) => Err(e),
                Ok(len) => spec_match(toks, pos + len, phr, k + 1, keep_expr(caps, slot, pos)),
            },
            PatView::OptExpr { slot } => if toks[pos].string == ";"@ || toks[pos].string == ")"@ {
                spec_match(toks, pos, phr, k + 1, keep_expr(caps, slot, pos))
            } else {
                match spec_expr_len(toks, pos) {
                    Err(e) => Err(e),
                    Ok(len) => spec_match(toks, pos + len, phr, k + 1, keep_expr(caps, slot, pos)),
                }
            },
        }
    }
}

fn is_operator_token(tok: &Token) -> (b: bool)
    ensures
        b == is_operator(tok@.string),
{
    tok.matches("+") || tok.matches("-") || tok.matches("*") || tok.matches("/") || tok.matches(
        "==",
    ) || tok.matches("!=") || tok.matches("<") || tok.matches("<=") || tok.matches("=")
}

fn empty_token() -> (tok: Token)
    ensures
        tok@ == no_token(),
{
    Token::new(String::new(), TokenType::Simbol)
}

impl Captures {
    /// Captures in which nothing is kept yet.
    pub fn new() -> (caps: Self)
        ensures
            caps@ == no_captures(),
    {
        Captures { t0: empty_token(), t1: empty_token(), t2: empty_token(), e0: 0, e1: 0, e2: 0 }
    }

    fn keep_token(&mut self, slot: Slot, tok: Token)
        ensures
            final(self)@ == keep_token(old(self)@, slot, tok@),
    {
        match slot {
            Slot::S0 => {
                self.t0 = tok;
            },
            Slot::S1 => {
                self.t1 = tok;
            },
            Slot::S2 => {
                self.t2 = tok;
            },
        }
    }

    fn keep_expr(&mut self, slot: Slot, pos: usize)
        ensures
            final(self)@ == keep_expr(old(self)@, slot, pos as int),
    {
        match slot {
            Slot::S0 => {
                self.e0 = pos;
            },
            Slot::S1 => {
                self.e1 = pos;
            },
            Slot::S2 => {
                self.e2 = pos;
            },
        }
    }
}

impl Parser {
    /// How many tokens the expression that begins at `start` takes.
    pub fn expr_len(&self, start: usize) -> (len: Result<usize, SyntaxError>)
        ensures
            match spec_expr_len(self.toks(), start as int) {
                Ok(n) => len == Ok::<usize, SyntaxError>(n as usize) && start + n
                    <= self.lexer.tokens@.len() && start + n <= usize::MAX,
                Err(e) => len == Err::<usize, SyntaxError>(e),
            },
        decreases tokens_left(self.toks(), start as int), 1nat,
    {
        match self.token_is(start, "(") {
            None => Err(SyntaxError::UnexpectedEnd),
            Some(true) => {
                let inside = match self.expr_len(start + 1) {
                    Ok(n) => n,
                    Err(e) => {
                        return Err(e);
                    },
                };
                match self.token_is(start + 1 + inside, ")") {
                    None => Err(SyntaxError::UnexpectedEnd),
                    Some(false) => Err(SyntaxError::MissingParenthesis),
                    Some(true) => Ok(inside + 2),
                }
            },
            Some(false) => match self.token_is(start + 1, "[") {
                None => Err(SyntaxError::UnexpectedEnd),
                Some(false) => match self.expr_tail(start + 1) {
                    Err(e) => Err(e),
                    Ok(tail) => Ok(1 + tail),
                },
                Some(true) => {
                    let inside = match self.expr_len(start + 2) {
                        Ok(n) => n,
                        Err(e) => {
                            return Err(e);
                        },
                    };
                    match self.token_is(start + 2 + inside, "]") {
                        None => Err(SyntaxError::UnexpectedEnd),
                        Some(false) => Err(SyntaxError::UnmatchedBracket),
                        Some(true) => match self.expr_tail(start + 3 + inside) {
                            Err(e) => Err(e),
                            Ok(tail) => Ok(3 + inside + tail),
                        },
                    }
                },
            },
        }
    }

    /// How many tokens of operators and operands follow at `pos`.
    fn expr_tail(&self, pos: usize) -> (len: Result<usize, SyntaxError>)
        requires
            pos <= self.lexer.tokens@.len(),
        ensures
            match spec_expr_tail(self.toks(), pos as int) {
                Ok(n) => len == Ok::<usize, SyntaxError>(n as usize) && pos + n
                    <= self.lexer.tokens@.len() && pos + n <= usize::MAX,
                Err(e) => len == Err::<usize, SyntaxError>(e),
            },
        decreases tokens_left(self.toks(), pos as int), 0nat,
    {
        if pos >= self.lexer.tokens.len() {
            return Ok(0);
        }
        assert(self.toks()[pos as int] == self.lexer.tokens@[pos as int]@);
        if !is_operator_token(&self.lexer.tokens[pos]) {
            return Ok(0);
        }
        let rhs = match self.expr_len(pos + 1) {
            Ok(n) => n,
            Err(e) => {
                return Err(e);
            },
        };
        match self.expr_tail(pos + 1 + rhs) {
            Err(e) => Err(e),
            Ok(tail) => Ok(1 + rhs + tail),
        }
    }

    /// Matches the pattern `phr` against the tokens at `pos`. Where it
    /// matches, `pos` moves behind the statement and what the pattern kept
    /// is handed back; where it does not, `pos` stays.
    pub fn phrase_compare(&mut self, phr: &Vec<Pat>) -> (kept: Result<Option<Captures>, SyntaxError>)
        ensures
            *final(self) == (Parser { pos: final(self).pos, ..*old(self) }),
            match spec_match(
                old(self).toks(),
                old(self).pos as int,
                pats_view(phr@),
                0,
                no_captures(),
            ) {
                Ok(Some(m)) => kept matches Ok(Some(c)) && c@ == m.caps && final(self).pos == m.pos
                    && (phr@.len() > 0 ==> m.pos <= old(self).lexer.tokens@.len()),
                Ok(None) => kept matches Ok(None) && final(self).pos == old(self).pos,
                Err(e) => kept matches Err(x) && x == e,
            },
    {
        let inst_start_pos = self.pos;
        let mut caps = Captures::new();
        let ghost toks = self.toks();
        let ghost whole = spec_match(toks, inst_start_pos as int, pats_view(phr@), 0, no_captures());
        let mut i: usize = 0;
        while i < phr.len()
            invariant
                i <= phr@.len(),
                toks == old(self).toks(),
                inst_start_pos == old(self).pos,
                *self == (Parser { pos: self.pos, ..*old(self) }),
                i > 0 ==> self.pos <= old(self).lexer.tokens@.len(),
                whole == spec_match(toks, inst_start_pos as int, pats_view(phr@), 0, no_captures()),
                whole == spec_match(toks, self.pos as int, pats_view(phr@), i as int, caps@),
            decreases phr@.len() - i,
        {
            if self.pos >= self.lexer.tokens.len() {
                return Err(SyntaxError::UnexpectedEnd);
            }
            assert(pats_view(phr@)[i as int] == phr@[i as int]@);
            assert(self.toks()[self.pos as int] == self.lexer.tokens@[self.pos as int]@);
            match phr[i] {
                Pat::Lit(text) => {
                    if !self.lexer.tokens[self.pos].matches(text) {
                        self.pos = inst_start_pos;
                        return Ok(None);
                    }
                    self.pos += 1;
                },
                Pat::Tok(slot) => {
                    caps.keep_token(slot, self.lexer.tokens[self.pos].clone());
                    self.pos += 1;
                },
                Pat::Expr(slot) => {
                    caps.keep_expr(slot, self.pos);
                    let expr_len = match self.expr_len(self.pos) {
                        Ok(n) => n,
                        Err(e) => {
                            return Err(e);
                        },
                    };
                    self.pos += expr_len;
                },
                Pat::OptExpr(slot) => {
                    caps.keep_expr(slot, self.pos);
                    if !self.lexer.tokens[self.pos].matches(";") && !self.lexer.tokens[self.pos].matches(
                        ")",
                    ) {
                        let expr_len = match self.expr_len(self.pos) {
                            Ok(n) => n,
                            Err(e) => {
                                return Err(e);
                            },
                        };
                        self.pos += expr_len;
                    }
                },
            }
            i += 1;
        }
        Ok(Some(caps))
    }
}

} // verus!
