//! The compiler of expressions: it reads an expression from the tokens and
//! appends the instructions that compute it.

use crate::lexer::{num_token, Token, TokenType, TokenView};
use crate::parser::{ops_view, BinOp, OpView, Operation, Parser, SyntaxError};
use crate::text::{decimal, u64_to_string};
use vstd::prelude::*;
use vstd::string::*;

verus! {

/// What reading an expression gave: the token that holds its value, how
/// many tokens were read, the number of the next temporary variable, and
/// the program with the instructions of the expression appended.
pub ghost struct Parsed {
    pub tok: TokenView,
    pub used: nat,
    pub temps: int,
    pub code: Seq<OpView>,
}

/// How many tokens there are from `pos` on.
pub open spec fn tokens_left(toks: Seq<TokenView>, pos: int) -> nat {
    if pos < toks.len() {
        (toks.len() - pos) as nat
    } else {
        0
    }
}

/// Whether the token at `pos` is there and reads `text`.
pub open spec fn is_at(toks: Seq<TokenView>, pos: int, text: Seq<char>) -> bool {
    0 <= pos < toks.len() && toks[pos].string == text
}

/// The temporary variable number `n`.
pub open spec fn temp_var(n: int) -> TokenView {
    TokenView { string: "_tmp"@ + decimal(n), ty: TokenType::Ident, line: None }
}

/// The operator that `text` is on a level of binding strength: products
/// bind strongest, then sums, then comparisons of order, then comparisons
/// of equality.
pub open spec fn operator_at(level: nat, text: Seq<char>) -> Option<BinOp> {
    if level == 1 && text == "*"@ {
        Some(BinOp::Mul)
    } else if level == 1 && text == "/"@ {
        Some(BinOp::Div)
    } else if level == 2 && text == "+"@ {
        Some(BinOp::Add)
    } else if level == 2 && text == "-"@ {
        Some(BinOp::Sub)
    } else if level == 3 && text == "<"@ {
        Some(BinOp::Lt)
    } else if level == 3 && text == "<="@ {
        Some(BinOp::Le)
    } else if level == 4 && text == "=="@ {
        Some(BinOp::Eq)
    } else if level == 4 && text == "!="@ {
        Some(BinOp::Ne)
    } else {
        None
    }
}

/// An expression in parentheses, whose opening parenthesis is at `pos`.
pub open spec fn spec_parenthesized(toks: Seq<TokenView>, pos: int, temps: int, code: Seq<OpView>)
    -> Result<Parsed, SyntaxError>
    decreases tokens_left(toks, pos), 0nat,
{
    if !(0 <= pos < toks.len()) {
        Err(SyntaxError::UnexpectedEnd)
    } else {
        match spec_expr(toks, pos + 1, temps, code) {
            Err(e) => Err(e),
            Ok(p) => if pos + 1 + p.used >= toks.len() {
                Err(SyntaxError::UnexpectedEnd)
            } else if !is_at(toks, pos + 1 + p.used, ")"@) {
                Err(SyntaxError::MissingParenthesis)
            } else {
                Ok(Parsed { used: p.used + 2, ..p })
            },
        }
    }
}

/// An array element `name[index]`, whose name is at `pos`. Its value is
/// read into a new temporary variable.
pub open spec fn spec_element(toks: Seq<TokenView>, pos: int, temps: int, code: Seq<OpView>)
    -> Result<Parsed, SyntaxError>
    decreases tokens_left(toks, pos), 0nat,
{
    if !(0 <= pos < toks.len()) {
        Err(SyntaxError::UnexpectedEnd)
    } else {
        match spec_expr(toks, pos + 2, temps, code) {
            Err(e) => Err(e),
            Ok(p) => if pos + 2 + p.used >= toks.len() {
                Err(SyntaxError::UnexpectedEnd)
            } else if !is_at(toks, pos + 2 + p.used, "]"@) {
                Err(SyntaxError::UnmatchedBracket)
            } else if p.temps >= u64::MAX {
                Err(SyntaxError::TooManyTemporaries)
            } else {
                Ok(
                    Parsed {
                        tok: temp_var(p.temps),
                        used: p.used + 3,
                        temps: p.temps + 1,
                        code: p.code.push(
                            OpView::ArrayGet {
                                dst: temp_var(p.temps),
                                name: toks[pos],
                                index: p.tok,
                            },
                        ),
                    },
                )
            },
        }
    }
}

/// A primary expression at `pos`: an expression in parentheses, an array
/// element `name[index]`, or a single token.
pub open spec fn spec_primary(toks: Seq<TokenView>, pos: int, temps: int, code: Seq<OpView>)
    -> Result<Parsed, SyntaxError>
    decreases tokens_left(toks, pos), 1nat,
{
    if !(0 <= pos < toks.len()) {
        Err(SyntaxError::UnexpectedEnd)
    } else if toks[pos].string == "("@ {
        spec_parenthesized(toks, pos, temps, code)
    } else if pos + 1 >= toks.len() {
        Err(SyntaxError::UnexpectedEnd)
    } else if toks[pos + 1].string == "["@ {
        spec_element(toks, pos, temps, code)
    } else {
        Ok(Parsed { tok: toks[pos], used: 1, temps, code })
    }
}

/// A primary expression with an optional sign in front of it. A minus
/// sign subtracts it from 0 into a temporary variable.
pub open spec fn spec_unary(toks: Seq<TokenView>, pos: int, temps: int, code: Seq<OpView>)
    -> Result<Parsed, SyntaxError>
    decreases tokens_left(toks, pos), 2nat,
{
    if !(0 <= pos < toks.len()) {
        Err(SyntaxError::UnexpectedEnd)
    } else if toks[pos].string == "-"@ {
        if temps >= u64::MAX {
            Err(SyntaxError::TooManyTemporaries)
        } else {
            match spec_primary(toks, pos + 1, temps + 1, code) {
                Err(e) => Err(e),
                Ok(p) => Ok(
                    Parsed {
                        tok: temp_var(temps),
                        used: p.used + 1,
                        temps: p.temps,
                        code: p.code.push(
                            OpView::Binary {
                                op: BinOp::Sub,
                                dst: temp_var(temps),
                                lhs: num_token(0, None),
                                rhs: p.tok,
                            },
                        ),
                    },
                ),
            }
        }
    } else if toks[pos].string == "+"@ {
        match spec_primary(toks, pos + 1, temps, code) {
            Err(e) => Err(e),
            Ok(p) => Ok(Parsed { used: p.used + 1, ..p }),
        }
    } else {
        spec_primary(toks, pos, temps, code)
    }
}

/// An expression of binary operators of `level` and of the levels that
/// bind stronger, read from left to right. Level 0 is a unary expression.
pub open spec fn spec_binary(
    toks: Seq<TokenView>,
    pos: int,
    temps: int,
    code: Seq<OpView>,
    level: nat,
) -> Result<Parsed, SyntaxError>
    decreases tokens_left(toks, pos), 2 * level + 3,
{
    if level == 0 {
        spec_unary(toks, pos, temps, code)
    } else {
        match spec_binary(toks, pos, temps, code, (level - 1) as nat) {
            Err(e) => Err(e),
            Ok(p) => match spec_binary_rest(toks, pos + p.used, p.tok, p.temps, p.code, level) {
                Err(e) => Err(e),
                Ok(q) => Ok(Parsed { used: p.used + q.used, ..q }),
            },
        }
    }
}

/// The rest of an expression of `level` whose value so far is in `ret`:
/// as long as an operator of the level follows, its right operand is read
/// and the result goes to a new temporary variable.
pub open spec fn spec_binary_rest(
    toks: Seq<TokenView>,
    pos: int,
    ret: TokenView,
    temps: int,
    code: Seq<OpView>,
    level: nat,
) -> Result<Parsed, SyntaxError>
    decreases tokens_left(toks, pos), 2 * level + 2,
{
    if level == 0 || !(0 <= pos < toks.len()) {
        Ok(Parsed { tok: ret, used: 0, temps, code })
    } else {
        match operator_at(level, toks[pos].string) {
            None => Ok(Parsed { tok: ret, used: 0, temps, code }),
            Some(op) => match spec_binary(toks, pos + 1, temps, code, (level - 1) as nat) {
                Err(e) => Err(e),
                Ok(child) => if child.temps >= u64::MAX {
                    Err(SyntaxError::TooManyTemporaries)
                } else {
                    match spec_binary_rest(
                        toks,
                        pos + 1 + child.used,
                        temp_var(child.temps),
                        child.temps + 1,
                        child.code.push(
                            OpView::Binary {
                                op,
                                dst: temp_var(child.temps),
                                lhs: ret,
                                rhs: child.tok,
                            },
                        ),
                        level,
                    ) {
                        Err(e) => Err(e),
                        Ok(q) => Ok(Parsed { used: 1 + child.used + q.used, ..q }),
                    }
                },
            },
        }
    }
}

/// An assignment `left = right`, or an expression without one. The value
/// of the right side is copied to the left side and is the value of the
/// whole.
pub open spec fn spec_assign(toks: Seq<TokenView>, pos: int, temps: int, code: Seq<OpView>)
    -> Result<Parsed, SyntaxError>
    decreases tokens_left(toks, pos), 20nat,
{
    match spec_binary(toks, pos, temps, code, 4) {
        Err(e) => Err(e),
        Ok(p) => if pos + p.used >= toks.len() {
            Err(SyntaxError::UnexpectedEnd)
        } else if is_at(toks, pos + p.used, "="@) {
            match spec_assign(toks, pos + p.used + 1, p.temps, p.code) {
                Err(e) => Err(e),
                Ok(q) => Ok(
                    Parsed {
                        tok: q.tok,
                        used: p.used + 1 + q.used,
                        temps: q.temps,
                        code: q.code.push(OpView::Copy { dst: p.tok, src: q.tok }),
                    },
                ),
            }
        } else {
            Ok(p)
        },
    }
}

/// The expression that begins at `pos`.
pub open spec fn spec_expr(toks: Seq<TokenView>, pos: int, temps: int, code: Seq<OpView>)
    -> Result<Parsed, SyntaxError>
    decreases tokens_left(toks, pos), 21nat,
{
    spec_assign(toks, pos, temps, code)
}

/// The compiler `after` is `before` after an expression was read as
/// `want` says, and `got` is the token that holds its value. Reading an
/// expression changes the position in the expression, the count of
/// temporary variables and the program, and nothing else.
pub open spec fn parsed_as(
    before: Parser,
    after: Parser,
    got: Result<Token, SyntaxError>,
    want: Result<Parsed, SyntaxError>,
) -> bool {
    &&& after == Parser {
        expr_pos: after.expr_pos,
        temp_var_cnt: after.temp_var_cnt,
        internal_code: after.internal_code,
        ..before
    }
    &&& match want {
        Ok(p) => {
            &&& got matches Ok(t) && t@ == p.tok
            &&& after.expr_pos <= after.lexer.tokens@.len()
            &&& after.expr_pos == before.expr_pos + p.used
            &&& after.temp_var_cnt == p.temps
            &&& ops_view(after.internal_code@) == p.code
        },
        Err(e) => got matches Err(x) && x == e,
    }
}

/// The operator that a token text is on a level of binding strength.
fn operator_of(level: u8, tok: &Token) -> (op: Option<BinOp>)
    ensures
        op == operator_at(level as nat, tok@.string),
{
    if level == 1 {
        if tok.matches("*") {
            Some(BinOp::Mul)
        } else if tok.matches("/") {
            Some(BinOp::Div)
        } else {
            None
        }
    } else if level == 2 {
        if tok.matches("+") {
            Some(BinOp::Add)
        } else if tok.matches("-") {
            Some(BinOp::Sub)
        } else {
            None
        }
    } else if level == 3 {
        if tok.matches("<") {
            Some(BinOp::Lt)
        } else if tok.matches("<=") {
            Some(BinOp::Le)
        } else {
            None
        }
    } else if level == 4 {
        if tok.matches("==") {
            Some(BinOp::Eq)
        } else if tok.matches("!=") {
            Some(BinOp::Ne)
        } else {
            None
        }
    } else {
        None
    }
}

impl Parser {
    /// Whether the token at `pos` reads `text`; `None` where there is no
    /// such token.
    pub fn token_is(&self, pos: usize, text: &str) -> (same: Option<bool>)
        ensures
            match same {
                Some(b) => pos < usize::MAX && pos < self.toks().len() && b == is_at(
                    self.toks(),
                    pos as int,
                    text@,
                ),
                None => pos >= self.toks().len(),
            },
    {
        if pos < self.lexer.tokens.len() {
            Some(self.lexer.tokens[pos].matches(text))
        } else {
            None
        }
    }

    /// A new temporary variable.
    pub fn make_temp_var(&mut self) -> (tmp: Result<Token, SyntaxError>)
        ensures
            *final(self) == (Parser { temp_var_cnt: final(self).temp_var_cnt, ..*old(self) }),
            if old(self).temp_var_cnt >= u64::MAX {
                tmp == Err::<Token, SyntaxError>(SyntaxError::TooManyTemporaries)
                    && final(self).temp_var_cnt == old(self).temp_var_cnt
            } else {
                &&& tmp matches Ok(t) && t@ == temp_var(old(self).temp_var_cnt as int)
                &&& final(self).temp_var_cnt == old(self).temp_var_cnt + 1
            },
    {
        if self.temp_var_cnt == u64::MAX {
            return Err(SyntaxError::TooManyTemporaries);
        }
        let mut name = String::from_str("_tmp");
        name.append(u64_to_string(self.temp_var_cnt).as_str());
        self.temp_var_cnt += 1;
        Ok(Token::new(name, TokenType::Ident))
    }

    /// Appends an instruction to the program.
    pub fn push_internal_code(&mut self, op: Operation)
        ensures
            *final(self) == old(self).with_code(final(self).internal_code),
            final(self).internal_code@ == old(self).internal_code@.push(op),
            ops_view(final(self).internal_code@) == ops_view(old(self).internal_code@).push(op@),
    {
        self.internal_code.push(op);
        assert(ops_view(self.internal_code@) =~= ops_view(old(self).internal_code@).push(op@));
    }

    /// Reads an expression in parentheses; the opening one is at
    /// `expr_pos`.
    fn parenthesized(&mut self) -> (ret: Result<Token, SyntaxError>)
        ensures
            parsed_as(
                *old(self),
                *final(self),
                ret,
                spec_parenthesized(
                    old(self).toks(),
                    old(self).expr_pos as int,
                    old(self).temp_var_cnt as int,
                    ops_view(old(self).internal_code@),
                ),
            ),
        decreases tokens_left(old(self).toks(), old(self).expr_pos as int), 0nat,
    {
        if self.expr_pos >= self.lexer.tokens.len() {
            return Err(SyntaxError::UnexpectedEnd);
        }
        self.expr_pos += 1;
        let ret = match self.expr() {
            Ok(t) => t,
            Err(e) => {
                return Err(e);
            },
        };
        match self.token_is(self.expr_pos, ")") {
            None => Err(SyntaxError::UnexpectedEnd),
            Some(false) => Err(SyntaxError::MissingParenthesis),
            Some(true) => {
                self.expr_pos += 1;
                Ok(ret)
            },
        }
    }

    /// Reads an array element `name[index]`; the name is at `expr_pos`
    /// and the bracket after it.
    fn element(&mut self) -> (ret: Result<Token, SyntaxError>)
        requires
            old(self).expr_pos + 1 < old(self).lexer.tokens@.len(),
        ensures
            parsed_as(
                *old(self),
                *final(self),
                ret,
                spec_element(
                    old(self).toks(),
                    old(self).expr_pos as int,
                    old(self).temp_var_cnt as int,
                    ops_view(old(self).internal_code@),
                ),
            ),
        decreases tokens_left(old(self).toks(), old(self).expr_pos as int), 0nat,
    {
        if self.expr_pos >= self.lexer.tokens.len() {
            return Err(SyntaxError::UnexpectedEnd);
        }
        let ident = self.lexer.tokens[self.expr_pos].clone();
        assert(ident@ == self.toks()[self.expr_pos as int]);
        self.expr_pos += 2;
        let index = match self.expr() {
            Ok(t) => t,
            Err(e) => {
                return Err(e);
            },
        };
        match self.token_is(self.expr_pos, "]") {
            None => {
                return Err(SyntaxError::UnexpectedEnd);
            },
            Some(false) => {
                return Err(SyntaxError::UnmatchedBracket);
            },
            Some(true) => {},
        }
        self.expr_pos += 1;
        let ret = match self.make_temp_var() {
            Ok(t) => t,
            Err(e) => {
                return Err(e);
            },
        };
        self.push_internal_code(Operation::ArrayGet(ret.clone(), ident, index));
        Ok(ret)
    }

    /// Reads a primary expression at `expr_pos`.
    pub fn primary(&mut self) -> (ret: Result<Token, SyntaxError>)
        ensures
            parsed_as(
                *old(self),
                *final(self),
                ret,
                spec_primary(
                    old(self).toks(),
                    old(self).expr_pos as int,
                    old(self).temp_var_cnt as int,
                    ops_view(old(self).internal_code@),
                ),
            ),
        decreases tokens_left(old(self).toks(), old(self).expr_pos as int), 1nat,
    {
        let start = self.expr_pos;
        match self.token_is(start, "(") {
            None => {
                return Err(SyntaxError::UnexpectedEnd);
            },
            Some(true) => {
                return self.parenthesized();
            },
            Some(false) => {},
        }
        match self.token_is(start + 1, "[") {
            None => Err(SyntaxError::UnexpectedEnd),
            Some(true) => self.element(),
            Some(false) => {
                let ident = self.lexer.tokens[start].clone();
                assert(ident@ == self.toks()[start as int]);
                self.expr_pos += 1;
                Ok(ident)
            },
        }
    }

    /// Reads a primary expression with an optional sign.
    pub fn unary(&mut self) -> (ret: Result<Token, SyntaxError>)
        ensures
            parsed_as(
                *old(self),
                *final(self),
                ret,
                spec_unary(
                    old(self).toks(),
                    old(self).expr_pos as int,
                    old(self).temp_var_cnt as int,
                    ops_view(old(self).internal_code@),
                ),
            ),
        decreases tokens_left(old(self).toks(), old(self).expr_pos as int), 2nat,
    {
        match self.token_is(self.expr_pos, "-") {
            None => {
                return Err(SyntaxError::UnexpectedEnd);
            },
            Some(true) => {
                self.expr_pos += 1;
                let tmp = match self.make_temp_var() {
                    Ok(t) => t,
                    Err(e) => {
                        return Err(e);
                    },
                };
                let operand = match self.primary() {
                    Ok(t) => t,
                    Err(e) => {
                        return Err(e);
                    },
                };
                let op = Operation::Sub(tmp.clone(), Token::new_num(0, None), operand);
                self.push_internal_code(op);
                return Ok(tmp);
            },
            Some(false) => {},
        }
        match self.token_is(self.expr_pos, "+") {
            Some(true) => {
                self.expr_pos += 1;
                self.primary()
            },
            _ => self.primary(),
        }
    }

    /// Reads an expression of the binary operators of `level` and of the
    /// levels that bind stronger.
    fn binary(&mut self, level: u8) -> (ret: Result<Token, SyntaxError>)
        requires
            level <= 4,
        ensures
            parsed_as(
                *old(self),
                *final(self),
                ret,
                spec_binary(
                    old(self).toks(),
                    old(self).expr_pos as int,
                    old(self).temp_var_cnt as int,
                    ops_view(old(self).internal_code@),
                    level as nat,
                ),
            ),
        decreases tokens_left(old(self).toks(), old(self).expr_pos as int), 2 * level + 3,
    {
        if level == 0 {
            return self.unary();
        }
        let first = match self.binary(level - 1) {
            Ok(t) => t,
            Err(e) => {
                return Err(e);
            },
        };
        self.binary_rest(level, first)
    }

    /// Reads the rest of an expression of `level` whose value so far is in
    /// `ret`.
    fn binary_rest(&mut self, level: u8, ret: Token) -> (end: Result<Token, SyntaxError>)
        requires
            0 < level <= 4,
            old(self).expr_pos <= old(self).lexer.tokens@.len(),
        ensures
            parsed_as(
                *old(self),
                *final(self),
                end,
                spec_binary_rest(
                    old(self).toks(),
                    old(self).expr_pos as int,
                    ret@,
                    old(self).temp_var_cnt as int,
                    ops_view(old(self).internal_code@),
                    level as nat,
                ),
            ),
        decreases tokens_left(old(self).toks(), old(self).expr_pos as int), 2 * level + 2,
    {
        if self.expr_pos >= self.lexer.tokens.len() {
            return Ok(ret);
        }
        let op = match operator_of(level, &self.lexer.tokens[self.expr_pos]) {
            Some(op) => op,
            None => {
                return Ok(ret);
            },
        };
        assert(self.toks()[self.expr_pos as int] == self.lexer.tokens@[self.expr_pos as int]@);
        self.expr_pos += 1;
        let child = match self.binary(level - 1) {
            Ok(t) => t,
            Err(e) => {
                return Err(e);
            },
        };
        let tmp = match self.make_temp_var() {
            Ok(t) => t,
            Err(e) => {
                return Err(e);
            },
        };
        self.push_internal_code(Operation::binary(op, tmp.clone(), ret, child));
        self.binary_rest(level, tmp)
    }

    /// Reads an assignment, or an expression without one.
    pub fn assign(&mut self) -> (ret: Result<Token, SyntaxError>)
        ensures
            parsed_as(
                *old(self),
                *final(self),
                ret,
                spec_assign(
                    old(self).toks(),
                    old(self).expr_pos as int,
                    old(self).temp_var_cnt as int,
                    ops_view(old(self).internal_code@),
                ),
            ),
        decreases tokens_left(old(self).toks(), old(self).expr_pos as int), 20nat,
    {
        let equality = match self.binary(4) {
            Ok(t) => t,
            Err(e) => {
                return Err(e);
            },
        };
        match self.token_is(self.expr_pos, "=") {
            None => Err(SyntaxError::UnexpectedEnd),
            Some(false) => Ok(equality),
            Some(true) => {
                self.expr_pos += 1;
                let assign = match self.assign() {
                    Ok(t) => t,
                    Err(e) => {
                        return Err(e);
                    },
                };
                self.push_internal_code(Operation::Copy(equality, assign.clone()));
                Ok(assign)
            },
        }
    }

    /// Reads the expression that begins at `expr_pos`.
    pub fn expr(&mut self) -> (ret: Result<Token, SyntaxError>)
        ensures
            parsed_as(
                *old(self),
                *final(self),
                ret,
                spec_expr(
                    old(self).toks(),
                    old(self).expr_pos as int,
                    old(self).temp_var_cnt as int,
                    ops_view(old(self).internal_code@),
                ),
            ),
        decreases tokens_left(old(self).toks(), old(self).expr_pos as int), 21nat,
    {
        self.assign()
    }
}

} // verus!
