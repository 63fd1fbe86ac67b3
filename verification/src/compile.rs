//! The compiler of statements: it matches the tokens against the statement
//! patterns and appends the instructions of each statement.

use crate::expr::{is_at, spec_expr, temp_var, tokens_left};
use crate::lexer::{
    end_tokens, lex_tokens, num_token, tokens_view, Lexer, Token, TokenType, TokenView,
};
use crate::parser::{
    blocks_view, ops_view, BinOp, Block, BlockView, OpView, Operation, Parser, SyntaxError,
};
use crate::phrase::{
    keep_expr, keep_token, no_captures, pats_view, spec_expr_len, spec_match, Captures,
    CapturesView, Pat, PatView, Slot,
};
use crate::text::{decimal, u64_to_string};
use crate::var_map::VariableMap;
use vstd::prelude::*;
use vstd::string::*;

verus! {

/// The kinds of statement, in the order in which they are tried.
#[derive(Debug, Clone, Copy, PartialEq, Eq, Structural)]
pub enum Phrase {
    /// `t0 = t1;`
    Assign,
    /// `t0 = expression;`
    ExprAssign,
    /// `print expression;`
    Print,
    /// `println expression;`
    Println,
    /// `t0:`
    Label,
    /// `goto t0;`
    Goto,
    /// `if (expression) goto t0;`
    IfGoto,
    /// `if (expression) {`
    If,
    /// `} else {`
    Else,
    /// `for (start; condition; step) {`
    For,
    /// `}`
    CloseBrace,
    /// `time;`
    Time,
    /// `let t0[expression];`
    Let,
    /// `t0[expression] = expression;`
    ArrayAssign,
    /// `expression;`
    ExprStatement,
}

/// How many kinds of statement there are.
pub const PHRASES: usize = 15;

/// The `k`-th kind of statement.
pub open spec fn phrase_at(k: int) -> Phrase {
    if k == 0 {
        Phrase::Assign
    } else if k == 1 {
        Phrase::ExprAssign
    } else if k == 2 {
        Phrase::Print
    } else if k == 3 {
        Phrase::Println
    } else if k == 4 {
        Phrase::Label
    } else if k == 5 {
        Phrase::Goto
    } else if k == 6 {
        Phrase::IfGoto
    } else if k == 7 {
        Phrase::If
    } else if k == 8 {
        Phrase::Else
    } else if k == 9 {
        Phrase::For
    } else if k == 10 {
        Phrase::CloseBrace
    } else if k == 11 {
        Phrase::Time
    } else if k == 12 {
        Phrase::Let
    } else if k == 13 {
        Phrase::ArrayAssign
    } else {
        Phrase::ExprStatement
    }
}

/// The pattern of a kind of statement.
pub open spec fn spec_pattern(phrase: Phrase) -> Seq<PatView> {
    match phrase {
        Phrase::Assign => seq![
            PatView::Tok { slot: Slot::S0 },
            PatView::Lit { text: "="@ },
            PatView::Tok { slot: Slot::S1 },
            PatView::Lit { text: ";"@ },
        ],
        Phrase::ExprAssign => seq![
            PatView::Tok { slot: Slot::S0 },
            PatView::Lit { text: "="@ },
            PatView::Expr { slot: Slot::S0 },
            PatView::Lit { text: ";"@ },
        ],
        Phrase::Print => seq![
            PatView::Lit { text: "print"@ },
            PatView::Expr { slot: Slot::S0 },
            PatView::Lit { text: ";"@ },
        ],
        Phrase::Println => seq![
            PatView::Lit { text: "println"@ },
            PatView::Expr { slot: Slot::S0 },
            PatView::Lit { text: ";"@ },
        ],
        Phrase::Label => seq![
            PatView::Tok { slot: Slot::S0 },
            PatView::Lit { text: ":"@ },
        ],
        Phrase::Goto => seq![
            PatView::Lit { text: "goto"@ },
            PatView::Tok { slot: Slot::S0 },
            PatView::Lit { text: ";"@ },
        ],
        Phrase::IfGoto => seq![
            PatView::Lit { text: "if"@ },
            PatView::Lit { text: "("@ },
            PatView::Expr { slot: Slot::S0 },
            PatView::Lit { text: ")"@ },
            PatView::Lit { text: "goto"@ },
            PatView::Tok { slot: Slot::S0 },
            PatView::Lit { text: ";"@ },
        ],
        Phrase::If => seq![
            PatView::Lit { text: "if"@ },
            PatView::Lit { text: "("@ },
            PatView::Expr { slot: Slot::S0 },
            PatView::Lit { text: ")"@ },
            PatView::Lit { text: "{"@ },
        ],
        Phrase::Else => seq![
            PatView::Lit { text: "}"@ },
            PatView::Lit { text: "else"@ },
            PatView::Lit { text: "{"@ },
        ],
        Phrase::For => seq![
            PatView::Lit { text: "for"@ },
            PatView::Lit { text: "("@ },
            PatView::OptExpr { slot: Slot::S0 },
            PatView::Lit { text: ";"@ },
            PatView::OptExpr { slot: Slot::S1 },
            PatView::Lit { text: ";"@ },
            PatView::OptExpr { slot: Slot::S2 },
            PatView::Lit { text: ")"@ },
            PatView::Lit { text: "{"@ },
        ],
        Phrase::CloseBrace => seq![
            PatView::Lit { text: "}"@ },
        ],
        Phrase::Time => seq![
            PatView::Lit { text: "time"@ },
            PatView::Lit { text: ";"@ },
        ],
        Phrase::Let => seq![
            PatView::Lit { text: "let"@ },
            PatView::Tok { slot: Slot::S0 },
            PatView::Lit { text: "["@ },
            PatView::Expr { slot: Slot::S0 },
            PatView::Lit { text: "]"@ },
            PatView::Lit { text: ";"@ },
        ],
        Phrase::ArrayAssign => seq![
            PatView::Tok { slot: Slot::S0 },
            PatView::Lit { text: "["@ },
            PatView::Expr { slot: Slot::S0 },
            PatView::Lit { text: "]"@ },
            PatView::Lit { text: "="@ },
            PatView::Expr { slot: Slot::S1 },
            PatView::Lit { text: ";"@ },
        ],
        Phrase::ExprStatement => seq![
            PatView::Expr { slot: Slot::S0 },
            PatView::Lit { text: ";"@ },
        ],
    }
}

/// The `k`-th kind of statement.
pub fn nth_phrase(k: usize) -> (phrase: Phrase)
    ensures
        phrase == phrase_at(k as int),
{
    if k == 0 {
        Phrase::Assign
    } else if k == 1 {
        Phrase::ExprAssign
    } else if k == 2 {
        Phrase::Print
    } else if k == 3 {
        Phrase::Println
    } else if k == 4 {
        Phrase::Label
    } else if k == 5 {
        Phrase::Goto
    } else if k == 6 {
        Phrase::IfGoto
    } else if k == 7 {
        Phrase::If
    } else if k == 8 {
        Phrase::Else
    } else if k == 9 {
        Phrase::For
    } else if k == 10 {
        Phrase::CloseBrace
    } else if k == 11 {
        Phrase::Time
    } else if k == 12 {
        Phrase::Let
    } else if k == 13 {
        Phrase::ArrayAssign
    } else {
        Phrase::ExprStatement
    }
}

/// The pattern of a kind of statement.
pub fn pattern(phrase: Phrase) -> (phr: Vec<Pat>)
    ensures
        pats_view(phr@) == spec_pattern(phrase),
        phr@.len() > 0,
{
    let mut phr: Vec<Pat> = Vec::new();
    match phrase {
        Phrase::Assign => {
            phr.push(Pat::Tok(Slot::S0));
            phr.push(Pat::Lit("="));
            phr.push(Pat::Tok(Slot::S1));
            phr.push(Pat::Lit(";"));
        },
        Phrase::ExprAssign => {
            phr.push(Pat::Tok(Slot::S0));
            phr.push(Pat::Lit("="));
            phr.push(Pat::Expr(Slot::S0));
            phr.push(Pat::Lit(";"));
        },
        Phrase::Print => {
            phr.push(Pat::Lit("print"));
            phr.push(Pat::Expr(Slot::S0));
            phr.push(Pat::Lit(";"));
        },
        Phrase::Println => {
            phr.push(Pat::Lit("println"));
            phr.push(Pat::Expr(Slot::S0));
            phr.push(Pat::Lit(";"));
        },
        Phrase::Label => {
            phr.push(Pat::Tok(Slot::S0));
            phr.push(Pat::Lit(":"));
        },
        Phrase::Goto => {
            phr.push(Pat::Lit("goto"));
            phr.push(Pat::Tok(Slot::S0));
            phr.push(Pat::Lit(";"));
        },
        Phrase::IfGoto => {
            phr.push(Pat::Lit("if"));
            phr.push(Pat::Lit("("));
            phr.push(Pat::Expr(Slot::S0));
            phr.push(Pat::Lit(")"));
            phr.push(Pat::Lit("goto"));
            phr.push(Pat::Tok(Slot::S0));
            phr.push(Pat::Lit(";"));
        },
        Phrase::If => {
            phr.push(Pat::Lit("if"));
            phr.push(Pat::Lit("("));
            phr.push(Pat::Expr(Slot::S0));
            phr.push(Pat::Lit(")"));
            phr.push(Pat::Lit("{"));
        },
        Phrase::Else => {
            phr.push(Pat::Lit("}"));
            phr.push(Pat::Lit("else"));
            phr.push(Pat::Lit("{"));
        },
        Phrase::For => {
            phr.push(Pat::Lit("for"));
            phr.push(Pat::Lit("("));
            phr.push(Pat::OptExpr(Slot::S0));
            phr.push(Pat::Lit(";"));
            phr.push(Pat::OptExpr(Slot::S1));
            phr.push(Pat::Lit(";"));
            phr.push(Pat::OptExpr(Slot::S2));
            phr.push(Pat::Lit(")"));
            phr.push(Pat::Lit("{"));
        },
        Phrase::CloseBrace => {
            phr.push(Pat::Lit("}"));
        },
        Phrase::Time => {
            phr.push(Pat::Lit("time"));
            phr.push(Pat::Lit(";"));
        },
        Phrase::Let => {
            phr.push(Pat::Lit("let"));
            phr.push(Pat::Tok(Slot::S0));
            phr.push(Pat::Lit("["));
            phr.push(Pat::Expr(Slot::S0));
            phr.push(Pat::Lit("]"));
            phr.push(Pat::Lit(";"));
        },
        Phrase::ArrayAssign => {
            phr.push(Pat::Tok(Slot::S0));
            phr.push(Pat::Lit("["));
            phr.push(Pat::Expr(Slot::S0));
            phr.push(Pat::Lit("]"));
            phr.push(Pat::Lit("="));
            phr.push(Pat::Expr(Slot::S1));
            phr.push(Pat::Lit(";"));
        },
        Phrase::ExprStatement => {
            phr.push(Pat::Expr(Slot::S0));
            phr.push(Pat::Lit(";"));
        },
    }
    assert(pats_view(phr@) =~= spec_pattern(phrase));
    phr
}

/// The state of the compiler, apart from the tokens it reads.
pub ghost struct ParserView {
    pub pos: int,
    pub expr_pos: int,
    pub temps: int,
    pub label_cnt: int,
    pub code: Seq<OpView>,
    pub blocks: Seq<BlockView>,
}

impl View for Parser {
    type V = ParserView;

    open spec fn view(&self) -> ParserView {
        ParserView {
            pos: self.pos as int,
            expr_pos: self.expr_pos as int,
            temps: self.temp_var_cnt as int,
            label_cnt: self.temp_label_cnt as int,
            code: ops_view(self.internal_code@),
            blocks: blocks_view(self.blocks@),
        }
    }
}

/// The label table.
pub type Labels = Map<Seq<char>, i32>;

/// The temporary label number `n`.
pub open spec fn temp_label(n: int) -> TokenView {
    TokenView { string: "_tmpLabel"@ + decimal(n), ty: TokenType::Ident, line: None }
}

/// The state with `op` appended to the program.
pub open spec fn emit(st: ParserView, op: OpView) -> ParserView {
    ParserView { code: st.code.push(op), ..st }
}

/// The expression that begins at token `start` is compiled. Where `reset`
/// is set, the temporary variables are numbered from 0 again.
pub open spec fn spec_eval(toks: Seq<TokenView>, st: ParserView, start: int, reset: bool) -> Result<
    (TokenView, ParserView),
    SyntaxError,
> {
    match spec_expr(
        toks,
        start,
        if reset {
            0
        } else {
            st.temps
        },
        st.code,
    ) {
        Err(e) => Err(e),
        Ok(p) => Ok(
            (p.tok, ParserView { expr_pos: start + p.used, temps: p.temps, code: p.code, ..st }),
        ),
    }
}

/// The expression that begins at token `start` is compiled, unless a `;`
/// stands there.
pub open spec fn spec_eval_opt(toks: Seq<TokenView>, st: ParserView, start: int) -> Result<
    (Option<TokenView>, ParserView),
    SyntaxError,
> {
    if !(0 <= start < toks.len()) {
        Err(SyntaxError::UnexpectedEnd)
    } else if toks[start].string == ";"@ {
        Ok((None, st))
    } else {
        match spec_eval(toks, st, start, false) {
            Err(e) => Err(e),
            Ok((tok, st1)) => Ok((Some(tok), st1)),
        }
    }
}

/// A new temporary label.
pub open spec fn spec_new_label(st: ParserView) -> Result<(TokenView, ParserView), SyntaxError> {
    if st.label_cnt >= u64::MAX {
        Err(SyntaxError::TooManyTemporaries)
    } else {
        Ok((temp_label(st.label_cnt), ParserView { label_cnt: st.label_cnt + 1, ..st }))
    }
}

/// A new temporary variable.
pub open spec fn spec_new_temp(st: ParserView) -> Result<(TokenView, ParserView), SyntaxError> {
    if st.temps >= u64::MAX {
        Err(SyntaxError::TooManyTemporaries)
    } else {
        Ok((temp_var(st.temps), ParserView { temps: st.temps + 1, ..st }))
    }
}

/// The label table after `label` was bound to the instruction that comes
/// next.
pub open spec fn spec_bind(st: ParserView, labels: Labels, label: TokenView) -> Result<
    Labels,
    SyntaxError,
> {
    if st.code.len() > i32::MAX {
        Err(SyntaxError::ProgramTooLong)
    } else {
        Ok(labels.insert(label.string, st.code.len() as i32))
    }
}

/// What a statement compiles to: the state and the label table after it.
pub type Compiled = Result<(ParserView, Labels), SyntaxError>;

/// The instruction of a statement that is a single instruction on the
/// tokens it kept.
pub open spec fn plain_op(phrase: Phrase, caps: CapturesView) -> Option<OpView> {
    match phrase {
        Phrase::Assign => Some(OpView::Copy { dst: caps.t0, src: caps.t1 }),
        Phrase::Goto => Some(OpView::Goto { label: caps.t0 }),
        Phrase::Time => Some(OpView::Time),
        _ => None,
    }
}

/// The instruction that a statement with one expression appends once the
/// value of the expression is in `value`.
pub open spec fn value_op(phrase: Phrase, caps: CapturesView, value: TokenView) -> Option<OpView> {
    match phrase {
        Phrase::ExprAssign => Some(OpView::Copy { dst: caps.t0, src: value }),
        Phrase::Print => Some(OpView::Print { arg: value }),
        Phrase::Println => Some(OpView::Println { arg: value }),
        Phrase::IfGoto => Some(OpView::IfGoto { cond: value, label: caps.t0 }),
        Phrase::Let => Some(OpView::ArrayNew { name: caps.t0, size: value }),
        _ => None,
    }
}

/// A statement with one expression: the expression is compiled, then the
/// instruction of the statement is appended, if it has one.
pub open spec fn spec_with_value(
    toks: Seq<TokenView>,
    phrase: Phrase,
    caps: CapturesView,
    st: ParserView,
    labels: Labels,
) -> Compiled {
    match spec_eval(toks, st, caps.e0, true) {
        Err(e) => Err(e),
        Ok((value, st1)) => match value_op(phrase, caps, value) {
            Some(op) => Ok((emit(st1, op), labels)),
            None => Ok((st1, labels)),
        },
    }
}

/// `t0[e0] = e1;`: the index and the value are compiled and the element
/// is set.
pub open spec fn spec_array_assign(
    toks: Seq<TokenView>,
    caps: CapturesView,
    st: ParserView,
    labels: Labels,
) -> Compiled {
    match spec_eval(toks, st, caps.e0, true) {
        Err(e) => Err(e),
        Ok((index, st1)) => match spec_eval(toks, st1, caps.e1, false) {
            Err(e) => Err(e),
            Ok((val, st2)) => Ok(
                (emit(st2, OpView::ArraySet { name: caps.t0, index, val }), labels),
            ),
        },
    }
}

/// The two instructions that jump to `label` where `value` is 0.
pub open spec fn spec_jump_unless(st: ParserView, value: TokenView, label: TokenView) -> Result<
    ParserView,
    SyntaxError,
> {
    match spec_new_temp(st) {
        Err(e) => Err(e),
        Ok((not, st1)) => Ok(
            emit(
                emit(
                    st1,
                    OpView::Binary { op: BinOp::Eq, dst: not, lhs: value, rhs: num_token(0, None) },
                ),
                OpView::IfGoto { cond: not, label },
            ),
        ),
    }
}

/// `if (e0) {`: a block is opened whose end defines a new label, and the
/// block is jumped over where the condition is 0.
pub open spec fn spec_if(toks: Seq<TokenView>, caps: CapturesView, st: ParserView, labels: Labels)
    -> Compiled {
    match spec_new_label(st) {
        Err(e) => Err(e),
        Ok((l0, st1)) => match spec_eval(
            toks,
            ParserView { blocks: st1.blocks.push(BlockView::IfElse { l0, l1: None }), ..st1 },
            caps.e0,
            true,
        ) {
            Err(e) => Err(e),
            Ok((value, st2)) => match spec_jump_unless(st2, value, l0) {
                Err(e) => Err(e),
                Ok(st3) => Ok((st3, labels)),
            },
        },
    }
}

/// `} else {`: the first branch of the innermost block jumps to a new
/// label behind the second, and the second branch begins.
pub open spec fn spec_else(caps: CapturesView, st: ParserView, labels: Labels) -> Compiled {
    if st.blocks.len() == 0 {
        Err(SyntaxError::UnmatchedBraces)
    } else {
        match st.blocks.last() {
            BlockView::IfElse { l0, l1: None } => match spec_new_label(
                ParserView { blocks: st.blocks.drop_last(), ..st },
            ) {
                Err(e) => Err(e),
                Ok((l1, st1)) => {
                    let st2 = emit(
                        ParserView {
                            blocks: st1.blocks.push(BlockView::IfElse { l0, l1: Some(l1) }),
                            ..st1
                        },
                        OpView::Goto { label: l1 },
                    );
                    match spec_bind(st2, labels, l0) {
                        Err(e) => Err(e),
                        Ok(bound) => Ok((st2, bound)),
                    }
                },
            },
            _ => Err(SyntaxError::UnmatchedElse),
        }
    }
}

/// `for (e0; e1; e2) {`: a loop is opened. Its start is compiled, the loop
/// is jumped over where the condition is 0 at first, and the head of its
/// body is labelled.
pub open spec fn spec_for(toks: Seq<TokenView>, caps: CapturesView, st: ParserView, labels: Labels)
    -> Compiled {
    match spec_new_label(st) {
        Err(e) => Err(e),
        Ok((after, st1)) => match spec_new_label(st1) {
            Err(e) => Err(e),
            Ok((head, st2)) => match spec_new_label(st2) {
                Err(e) => Err(e),
                Ok((step, st3)) => match spec_eval_opt(
                    toks,
                    ParserView {
                        blocks: st3.blocks.push(
                            BlockView::For {
                                after,
                                head,
                                step,
                                e1_start: caps.e1,
                                e2_start: caps.e2,
                            },
                        ),
                        ..st3
                    },
                    caps.e0,
                ) {
                    Err(e) => Err(e),
                    Ok((_, st4)) => match spec_eval_opt(toks, st4, caps.e1) {
                        Err(e) => Err(e),
                        Ok((cond, st5)) => match (match cond {
                            Some(value) => spec_jump_unless(st5, value, after),
                            None => Ok(st5),
                        }) {
                            Err(e) => Err(e),
                            Ok(st6) => match spec_bind(st6, labels, head) {
                                Err(e) => Err(e),
                                Ok(bound) => Ok((st6, bound)),
                            },
                        },
                    },
                },
            },
        },
    }
}

/// The end of a loop: its step is labelled and compiled, the loop goes
/// back to the head of its body where the condition is not 0 (always,
/// where there is none), and the label behind the loop is bound.
pub open spec fn spec_end_for(
    toks: Seq<TokenView>,
    st: ParserView,
    labels: Labels,
    after: TokenView,
    head: TokenView,
    step: TokenView,
    e1_start: int,
    e2_start: int,
) -> Compiled {
    match spec_bind(st, labels, step) {
        Err(e) => Err(e),
        Ok(labels1) => match spec_eval_opt(toks, st, e2_start) {
            Err(e) => Err(e),
            Ok((_, st1)) => match spec_eval_opt(toks, st1, e1_start) {
                Err(e) => Err(e),
                Ok((cond, st2)) => {
                    let st3 = emit(
                        st2,
                        match cond {
                            Some(value) => OpView::IfGoto { cond: value, label: head },
                            None => OpView::Goto { label: head },
                        },
                    );
                    match spec_bind(st3, labels1, after) {
                        Err(e) => Err(e),
                        Ok(labels2) => Ok((st3, labels2)),
                    }
                },
            },
        },
    }
}

/// `}`: the innermost block is closed and its last label is bound.
pub open spec fn spec_close(toks: Seq<TokenView>, st: ParserView, labels: Labels) -> Compiled {
    if st.blocks.len() == 0 {
        Err(SyntaxError::UnmatchedBraces)
    } else {
        let st1 = ParserView { blocks: st.blocks.drop_last(), ..st };
        match st.blocks.last() {
            BlockView::IfElse { l0, l1: None } => match spec_bind(st1, labels, l0) {
                Err(e) => Err(e),
                Ok(bound) => Ok((st1, bound)),
            },
            BlockView::IfElse { l0, l1: Some(l1) } => match spec_bind(st1, labels, l1) {
                Err(e) => Err(e),
                Ok(bound) => Ok((st1, bound)),
            },
            BlockView::For { after, head, step, e1_start, e2_start } => spec_end_for(
                toks,
                st1,
                labels,
                after,
                head,
                step,
                e1_start,
                e2_start,
            ),
        }
    }
}

/// What a statement of kind `phrase` that kept `caps` compiles to.
pub open spec fn spec_action(
    toks: Seq<TokenView>,
    phrase: Phrase,
    caps: CapturesView,
    st: ParserView,
    labels: Labels,
) -> Compiled {
    match phrase {
        Phrase::Assign | Phrase::Goto | Phrase::Time => Ok(
            (emit(st, plain_op(phrase, caps)->0), labels),
        ),
        Phrase::ExprAssign
        | Phrase::Print
        | Phrase::Println
        | Phrase::IfGoto
        | Phrase::Let
        | Phrase::ExprStatement => spec_with_value(toks, phrase, caps, st, labels),
        Phrase::Label => match spec_bind(st, labels, caps.t0) {
            Err(e) => Err(e),
            Ok(bound) => Ok((st, bound)),
        },
        Phrase::If => spec_if(toks, caps, st, labels),
        Phrase::Else => spec_else(caps, st, labels),
        Phrase::For => spec_for(toks, caps, st, labels),
        Phrase::CloseBrace => spec_close(toks, st, labels),
        Phrase::ArrayAssign => spec_array_assign(toks, caps, st, labels),
    }
}

/// The statement at `st.pos`, tried as the `k`-th kind of statement and
/// the kinds after it. A `;` that begins no statement is passed over;
/// anything else that begins none is an error.
pub open spec fn spec_try(toks: Seq<TokenView>, st: ParserView, labels: Labels, k: int) -> Compiled
    decreases PHRASES - k,
{
    if k < 0 || k >= PHRASES {
        if is_at(toks, st.pos, ";"@) {
            Ok((ParserView { pos: st.pos + 1, ..st }, labels))
        } else {
            Err(SyntaxError::UnknownStatement)
        }
    } else {
        match spec_match(toks, st.pos, spec_pattern(phrase_at(k)), 0, no_captures()) {
            Err(e) => Err(e),
            Ok(None) => spec_try(toks, st, labels, k + 1),
            Ok(Some(m)) => spec_action(
                toks,
                phrase_at(k),
                m.caps,
                ParserView { pos: m.pos, ..st },
                labels,
            ),
        }
    }
}

/// The statement at `st.pos`.
#[verifier::opaque]
pub open spec fn spec_statement(toks: Seq<TokenView>, st: ParserView, labels: Labels) -> Compiled {
    spec_try(toks, st, labels, 0)
}

/// The statements from `st.pos` on, up to the closing tokens of the list.
pub open spec fn spec_compile(toks: Seq<TokenView>, st: ParserView, labels: Labels) -> Compiled
    decreases tokens_left(toks, st.pos),
{
    if !(st.pos < toks.len() - 3) {
        Ok((st, labels))
    } else {
        proof {
            lemma_statement_advances(toks, st, labels);
        }
        match spec_statement(toks, st, labels) {
            Err(e) => Err(e),
            Ok((st1, labels1)) => spec_compile(toks, st1, labels1),
        }
    }
}

/// The compiler `after` and the labels `bound` are what `want` says, and
/// `done` says whether it is an error. The tokens stay as they are.
pub open spec fn compiled_as(
    before: Parser,
    after: Parser,
    bound: Labels,
    done: Result<(), SyntaxError>,
    want: Compiled,
) -> bool {
    &&& after.lexer == before.lexer
    &&& after.lex_error == before.lex_error
    &&& match want {
        Ok((st, labels)) => done is Ok && after@ == st && bound == labels,
        Err(e) => done matches Err(x) && x == e,
    }
}

/// Only the label table of the store changed.
pub open spec fn only_labels(before: VariableMap, after: VariableMap) -> bool {
    after.map == before.map && after.array_map == before.array_map
}

impl Parser {
    /// A compiler for the source text `s`. The text is split into tokens at
    /// once; where that fails, the compiler has no tokens and
    /// [`Parser::compile`] reports the error.
    pub fn new(s: String) -> (parser: Self)
        ensures
            parser@ == (ParserView {
                pos: 0,
                expr_pos: 0,
                temps: 0,
                label_cnt: 0,
                code: Seq::empty(),
                blocks: Seq::empty(),
            }),
            match lex_tokens(s@, 0, 0) {
                Ok(toks) => parser.lex_error is None && parser.toks() == toks + end_tokens(),
                Err(e) => parser.lex_error == Some(e),
            },
    {
        let mut lexer = Lexer::new(s);
        let lex_error = match lexer.lex() {
            Ok(()) => None,
            Err(e) => Some(e),
        };
        let parser = Parser {
            pos: 0,
            lexer,
            internal_code: Vec::new(),
            expr_pos: 0,
            temp_var_cnt: 0,
            temp_label_cnt: 0,
            blocks: Vec::new(),
            lex_error,
        };
        proof {
            assert(ops_view(parser.internal_code@) =~= Seq::<OpView>::empty());
            assert(blocks_view(parser.blocks@) =~= Seq::<BlockView>::empty());
            assert(tokens_view(Seq::<Token>::empty()) =~= Seq::<TokenView>::empty());
            if lex_tokens(s@, 0, 0) is Ok {
                assert(parser.toks() =~= lex_tokens(s@, 0, 0)->Ok_0 + end_tokens());
            }
        }
        parser
    }

    /// A new temporary label.
    pub fn make_temp_label(&mut self) -> (label: Result<Token, SyntaxError>)
        ensures
            final(self).lexer == old(self).lexer,
            final(self).lex_error == old(self).lex_error,
            final(self).internal_code == old(self).internal_code,
            final(self).blocks == old(self).blocks,
            match spec_new_label(old(self)@) {
                Ok((l, st)) => label matches Ok(t) && t@ == l && final(self)@ == st,
                Err(e) => label matches Err(x) && x == e && final(self)@ == old(self)@,
            },
    {
        if self.temp_label_cnt == u64::MAX {
            return Err(SyntaxError::TooManyTemporaries);
        }
        let mut name = String::from_str("_tmpLabel");
        name.append(u64_to_string(self.temp_label_cnt).as_str());
        self.temp_label_cnt += 1;
        Ok(Token::new(name, TokenType::Ident))
    }

    /// Appends `op` to the program.
    fn emit(&mut self, op: Operation)
        ensures
            final(self).lexer == old(self).lexer,
            final(self).lex_error == old(self).lex_error,
            final(self).blocks == old(self).blocks,
            final(self)@ == emit(old(self)@, op@),
    {
        self.push_internal_code(op);
    }

    /// Opens a block.
    fn open_block(&mut self, block: Block)
        ensures
            final(self).lexer == old(self).lexer,
            final(self).lex_error == old(self).lex_error,
            final(self).internal_code == old(self).internal_code,
            final(self)@ == (ParserView { blocks: old(self)@.blocks.push(block@), ..old(self)@ }),
    {
        self.blocks.push(block);
        assert(blocks_view(self.blocks@) =~= blocks_view(old(self).blocks@).push(block@));
    }

    /// Closes the innermost block, if there is one.
    fn close_block(&mut self) -> (block: Option<Block>)
        ensures
            final(self).lexer == old(self).lexer,
            final(self).lex_error == old(self).lex_error,
            final(self).internal_code == old(self).internal_code,
            match block {
                Some(b) => {
                    &&& old(self)@.blocks.len() > 0
                    &&& b@ == old(self)@.blocks.last()
                    &&& final(self)@ == (ParserView {
                        blocks: old(self)@.blocks.drop_last(),
                        ..old(self)@
                    })
                },
                None => old(self)@.blocks.len() == 0 && final(self)@ == old(self)@,
            },
    {
        let block = self.blocks.pop();
        proof {
            if old(self).blocks@.len() > 0 {
                assert(blocks_view(self.blocks@) =~= blocks_view(old(self).blocks@).drop_last());
            }
        }
        block
    }

    /// Binds `label` to the instruction that comes next.
    fn bind(&self, var: &mut VariableMap, label: &Token) -> (done: Result<(), SyntaxError>)
        ensures
            only_labels(*old(var), *final(var)),
            match spec_bind(self@, old(var)@.labels, label@) {
                Ok(labels) => done is Ok && final(var)@.labels == labels,
                Err(e) => done matches Err(x) && x == e && final(var)@.labels == old(var)@.labels,
            },
    {
        let line = self.internal_code.len();
        if line > 0x7fff_ffff {
            return Err(SyntaxError::ProgramTooLong);
        }
        var.label_set(label, line as i32);
        Ok(())
    }

    /// Compiles the expression that begins at token `start_pos`, with the
    /// temporary variables numbered from 0 again.
    pub fn evaluate_expr(&mut self, start_pos: usize) -> (value: Result<Token, SyntaxError>)
        ensures
            final(self).lexer == old(self).lexer,
            final(self).lex_error == old(self).lex_error,
            match spec_eval(old(self).toks(), old(self)@, start_pos as int, true) {
                Ok((tok, st)) => value matches Ok(t) && t@ == tok && final(self)@ == st,
                Err(e) => value matches Err(x) && x == e,
            },
    {
        self.temp_var_cnt = 0;
        self.expr_pos = start_pos;
        self.expr()
    }

    /// Compiles the expression that begins at token `start_pos`.
    fn evaluate_more(&mut self, start_pos: usize) -> (value: Result<Token, SyntaxError>)
        ensures
            final(self).lexer == old(self).lexer,
            final(self).lex_error == old(self).lex_error,
            match spec_eval(old(self).toks(), old(self)@, start_pos as int, false) {
                Ok((tok, st)) => value matches Ok(t) && t@ == tok && final(self)@ == st,
                Err(e) => value matches Err(x) && x == e,
            },
    {
        self.expr_pos = start_pos;
        self.expr()
    }

    /// Compiles the expression that begins at token `start_pos`, unless a
    /// `;` stands there.
    pub fn evaluate_opt_expr(&mut self, start_pos: usize) -> (value: Result<
        Option<Token>,
        SyntaxError,
    >)
        ensures
            final(self).lexer == old(self).lexer,
            final(self).lex_error == old(self).lex_error,
            match spec_eval_opt(old(self).toks(), old(self)@, start_pos as int) {
                Ok((tok, st)) => value matches Ok(t) && final(self)@ == st && match t {
                    Some(x) => tok == Some(x@),
                    None => tok is None,
                },
                Err(e) => value matches Err(x) && x == e,
            },
    {
        match self.token_is(start_pos, ";") {
            None => Err(SyntaxError::UnexpectedEnd),
            Some(true) => Ok(None),
            Some(false) => match self.evaluate_more(start_pos) {
                Err(e) => Err(e),
                Ok(tok) => Ok(Some(tok)),
            },
        }
    }

    /// Appends the two instructions that jump to `label` where `value` is 0.
    fn jump_unless(&mut self, value: Token, label: &Token) -> (done: Result<(), SyntaxError>)
        ensures
            final(self).lexer == old(self).lexer,
            final(self).lex_error == old(self).lex_error,
            match spec_jump_unless(old(self)@, value@, label@) {
                Ok(st) => done is Ok && final(self)@ == st,
                Err(e) => done matches Err(x) && x == e,
            },
    {
        let not = match self.make_temp_var() {
            Ok(t) => t,
            Err(e) => {
                return Err(e);
            },
        };
        self.emit(Operation::Eq(not.clone(), value, Token::new_num(0, None)));
        self.emit(Operation::IfGoto(not, label.clone()));
        Ok(())
    }

    fn do_with_value(&mut self, phrase: Phrase, caps: Captures, var: &mut VariableMap) -> (done:
        Result<(), SyntaxError>)
        requires
            value_op(phrase, caps@, caps@.t0) is Some || phrase == Phrase::ExprStatement,
        ensures
            *final(var) == *old(var),
            compiled_as(
                *old(self),
                *final(self),
                final(var)@.labels,
                done,
                spec_with_value(old(self).toks(), phrase, caps@, old(self)@, old(var)@.labels),
            ),
    {
        let value = match self.evaluate_expr(caps.e0) {
            Ok(t) => t,
            Err(e) => {
                return Err(e);
            },
        };
        match phrase {
            Phrase::ExprAssign => self.emit(Operation::Copy(caps.t0, value)),
            Phrase::Print => self.emit(Operation::Print(value)),
            Phrase::Println => self.emit(Operation::Println(value)),
            Phrase::IfGoto => self.emit(Operation::IfGoto(value, caps.t0)),
            Phrase::Let => self.emit(Operation::ArrayNew(caps.t0, value)),
            _ => {},
        }
        Ok(())
    }

    fn do_plain(&mut self, phrase: Phrase, caps: Captures, var: &mut VariableMap) -> (done: Result<
        (),
        SyntaxError,
    >)
        requires
            plain_op(phrase, caps@) is Some,
        ensures
            *final(var) == *old(var),
            compiled_as(
                *old(self),
                *final(self),
                final(var)@.labels,
                done,
                Ok((emit(old(self)@, plain_op(phrase, caps@)->0), old(var)@.labels)),
            ),
    {
        match phrase {
            Phrase::Assign => self.emit(Operation::Copy(caps.t0, caps.t1)),
            Phrase::Goto => self.emit(Operation::Goto(caps.t0)),
            _ => self.emit(Operation::Time),
        }
        Ok(())
    }

    fn do_array_assign(&mut self, caps: Captures, var: &mut VariableMap) -> (done: Result<
        (),
        SyntaxError,
    >)
        ensures
            *final(var) == *old(var),
            compiled_as(
                *old(self),
                *final(self),
                final(var)@.labels,
                done,
                spec_array_assign(old(self).toks(), caps@, old(self)@, old(var)@.labels),
            ),
    {
        let index = match self.evaluate_expr(caps.e0) {
            Ok(t) => t,
            Err(e) => {
                return Err(e);
            },
        };
        let val = match self.evaluate_more(caps.e1) {
            Ok(t) => t,
            Err(e) => {
                return Err(e);
            },
        };
        self.emit(Operation::ArraySet(caps.t0, index, val));
        Ok(())
    }

    fn do_label(&mut self, caps: Captures, var: &mut VariableMap) -> (done: Result<(), SyntaxError>)
        ensures
            only_labels(*old(var), *final(var)),
            compiled_as(
                *old(self),
                *final(self),
                final(var)@.labels,
                done,
                match spec_bind(old(self)@, old(var)@.labels, caps@.t0) {
                    Err(e) => Err(e),
                    Ok(bound) => Ok((old(self)@, bound)),
                },
            ),
    {
        self.bind(var, &caps.t0)
    }

    fn do_if(&mut self, caps: Captures, var: &mut VariableMap) -> (done: Result<(), SyntaxError>)
        ensures
            *final(var) == *old(var),
            compiled_as(
                *old(self),
                *final(self),
                final(var)@.labels,
                done,
                spec_if(old(self).toks(), caps@, old(self)@, old(var)@.labels),
            ),
    {
        let label0 = match self.make_temp_label() {
            Ok(t) => t,
            Err(e) => {
                return Err(e);
            },
        };
        self.open_block(Block::IfElse(label0.clone(), None));
        let value = match self.evaluate_expr(caps.e0) {
            Ok(t) => t,
            Err(e) => {
                return Err(e);
            },
        };
        self.jump_unless(value, &label0)
    }

    fn do_else(&mut self, caps: Captures, var: &mut VariableMap) -> (done: Result<(), SyntaxError>)
        ensures
            only_labels(*old(var), *final(var)),
            compiled_as(
                *old(self),
                *final(self),
                final(var)@.labels,
                done,
                spec_else(caps@, old(self)@, old(var)@.labels),
            ),
    {
        let label0 = match self.close_block() {
            None => {
                return Err(SyntaxError::UnmatchedBraces);
            },
            Some(Block::IfElse(label0, None)) => label0,
            Some(_) => {
                return Err(SyntaxError::UnmatchedElse);
            },
        };
        let label1 = match self.make_temp_label() {
            Ok(t) => t,
            Err(e) => {
                return Err(e);
            },
        };
        self.open_block(Block::IfElse(label0.clone(), Some(label1.clone())));
        self.emit(Operation::Goto(label1));
        self.bind(var, &label0)
    }

    fn do_for(&mut self, caps: Captures, var: &mut VariableMap) -> (done: Result<(), SyntaxError>)
        ensures
            only_labels(*old(var), *final(var)),
            compiled_as(
                *old(self),
                *final(self),
                final(var)@.labels,
                done,
                spec_for(old(self).toks(), caps@, old(self)@, old(var)@.labels),
            ),
    {
        let label0 = match self.make_temp_label() {
            Ok(t) => t,
            Err(e) => {
                return Err(e);
            },
        };
        let label1 = match self.make_temp_label() {
            Ok(t) => t,
            Err(e) => {
                return Err(e);
            },
        };
        let label2 = match self.make_temp_label() {
            Ok(t) => t,
            Err(e) => {
                return Err(e);
            },
        };
        self.open_block(Block::For(label0.clone(), label1.clone(), label2, caps.e1, caps.e2));
        match self.evaluate_opt_expr(caps.e0) {
            Ok(_) => {},
            Err(e) => {
                return Err(e);
            },
        }
        let cond = match self.evaluate_opt_expr(caps.e1) {
            Ok(c) => c,
            Err(e) => {
                return Err(e);
            },
        };
        match cond {
            Some(value) => match self.jump_unless(value, &label0) {
                Ok(()) => {},
                Err(e) => {
                    return Err(e);
                },
            },
            None => {},
        }
        self.bind(var, &label1)
    }

    fn do_end_for(
        &mut self,
        var: &mut VariableMap,
        label0: Token,
        label1: Token,
        label2: Token,
        e1_start_pos: usize,
        e2_start_pos: usize,
    ) -> (done: Result<(), SyntaxError>)
        ensures
            only_labels(*old(var), *final(var)),
            compiled_as(
                *old(self),
                *final(self),
                final(var)@.labels,
                done,
                spec_end_for(
                    old(self).toks(),
                    old(self)@,
                    old(var)@.labels,
                    label0@,
                    label1@,
                    label2@,
                    e1_start_pos as int,
                    e2_start_pos as int,
                ),
            ),
    {
        match self.bind(var, &label2) {
            Ok(()) => {},
            Err(e) => {
                return Err(e);
            },
        }
        match self.evaluate_opt_expr(e2_start_pos) {
            Ok(_) => {},
            Err(e) => {
                return Err(e);
            },
        }
        let cond = match self.evaluate_opt_expr(e1_start_pos) {
            Ok(c) => c,
            Err(e) => {
                return Err(e);
            },
        };
        match cond {
            Some(value) => self.emit(Operation::IfGoto(value, label1)),
            None => self.emit(Operation::Goto(label1)),
        }
        self.bind(var, &label0)
    }

    fn do_close(&mut self, var: &mut VariableMap) -> (done: Result<(), SyntaxError>)
        ensures
            only_labels(*old(var), *final(var)),
            compiled_as(
                *old(self),
                *final(self),
                final(var)@.labels,
                done,
                spec_close(old(self).toks(), old(self)@, old(var)@.labels),
            ),
    {
        match self.close_block() {
            None => Err(SyntaxError::UnmatchedBraces),
            Some(Block::IfElse(label0, None)) => self.bind(var, &label0),
            Some(Block::IfElse(_, Some(label1))) => self.bind(var, &label1),
            Some(Block::For(label0, label1, label2, e1_start_pos, e2_start_pos)) => self.do_end_for(
                var,
                label0,
                label1,
                label2,
                e1_start_pos,
                e2_start_pos,
            ),
        }
    }

    /// Appends the instructions of a statement of kind `phrase` that kept
    /// `caps`.
    fn perform(&mut self, phrase: Phrase, caps: Captures, var: &mut VariableMap) -> (done: Result<
        (),
        SyntaxError,
    >)
        ensures
            only_labels(*old(var), *final(var)),
            compiled_as(
                *old(self),
                *final(self),
                final(var)@.labels,
                done,
                spec_action(old(self).toks(), phrase, caps@, old(self)@, old(var)@.labels),
            ),
    {
        match phrase {
            Phrase::Assign | Phrase::Goto | Phrase::Time => {
                self.do_plain(phrase, caps, var)
            },
            Phrase::ExprAssign
            | Phrase::Print
            | Phrase::Println
            | Phrase::IfGoto
            | Phrase::Let
            | Phrase::ExprStatement => self.do_with_value(phrase, caps, var),
            Phrase::Label => self.do_label(caps, var),
            Phrase::If => self.do_if(caps, var),
            Phrase::Else => self.do_else(caps, var),
            Phrase::For => self.do_for(caps, var),
            Phrase::CloseBrace => self.do_close(var),
            Phrase::ArrayAssign => self.do_array_assign(caps, var),
        }
    }

    /// Compiles the statement at `pos`.
    pub fn statement(&mut self, var: &mut VariableMap) -> (done: Result<(), SyntaxError>)
        ensures
            only_labels(*old(var), *final(var)),
            compiled_as(
                *old(self),
                *final(self),
                final(var)@.labels,
                done,
                spec_statement(old(self).toks(), old(self)@, old(var)@.labels),
            ),
    {
        let ghost toks = self.toks();
        let ghost st = self@;
        let ghost labels = var@.labels;
        proof {
            reveal(spec_statement);
        }
        let mut k: usize = 0;
        while k < PHRASES
            invariant
                k <= PHRASES,
                *self == *old(self),
                *var == *old(var),
                toks == self.toks(),
                st == self@,
                labels == var@.labels,
                spec_try(toks, st, labels, k as int) == spec_statement(toks, st, labels),
            decreases PHRASES - k,
        {
            let phrase = nth_phrase(k);
            let phr = pattern(phrase);
            match self.phrase_compare(&phr) {
                Err(e) => {
                    return Err(e);
                },
                Ok(Some(caps)) => {
                    assert(self@ == (ParserView { pos: self.pos as int, ..st }));
                    return self.perform(phrase, caps, var);
                },
                Ok(None) => {},
            }
            k += 1;
        }
        match self.token_is(self.pos, ";") {
            Some(true) => {
                self.pos += 1;
                Ok(())
            },
            _ => Err(SyntaxError::UnknownStatement),
        }
    }

    /// Compiles the tokens: the instructions of every statement are
    /// appended to `internal_code`, and the labels are bound in `var`.
    ///
    /// An error of the tokenizer is reported first. After an error the
    /// compiler holds what was compiled before the statement at fault.
    pub fn compile(&mut self, var: &mut VariableMap) -> (done: Result<(), SyntaxError>)
        ensures
            only_labels(*old(var), *final(var)),
            final(self).lexer == old(self).lexer,
            final(self).lex_error == old(self).lex_error,
            match old(self).lex_error {
                Some(e) => done == Err::<(), SyntaxError>(SyntaxError::Lex(e)) && *final(self)
                    == *old(self) && *final(var) == *old(var),
                None => compiled_as(
                    *old(self),
                    *final(self),
                    final(var)@.labels,
                    done,
                    spec_compile(old(self).toks(), old(self)@, old(var)@.labels),
                ),
            },
    {
        match self.lex_error {
            Some(e) => {
                return Err(SyntaxError::Lex(e));
            },
            None => {},
        }
        let n = self.lexer.tokens.len();
        let ghost toks = self.toks();
        let ghost whole = spec_compile(toks, self@, var@.labels);
        while n >= 3 && self.pos < n - 3
            invariant
                n == toks.len(),
                toks == self.toks(),
                old(self).lex_error is None,
                self.lexer == old(self).lexer,
                self.lex_error == old(self).lex_error,
                only_labels(*old(var), *var),
                whole == spec_compile(old(self).toks(), old(self)@, old(var)@.labels),
                whole == spec_compile(toks, self@, var@.labels),
            decreases tokens_left(toks, self.pos as int),
        {
            proof {
                lemma_statement_advances(toks, self@, var@.labels);
            }
            match self.statement(var) {
                Ok(()) => {},
                Err(e) => {
                    return Err(e);
                },
            }
        }
        Ok(())
    }
}

/// An expression takes at least one token.
pub proof fn lemma_expr_len_positive(toks: Seq<TokenView>, start: int)
    ensures
        spec_expr_len(toks, start) matches Ok(n) ==> n >= 1,
{
}

/// A pattern that matches never moves backwards.
pub proof fn lemma_match_monotone(
    toks: Seq<TokenView>,
    pos: int,
    phr: Seq<PatView>,
    k: int,
    caps: CapturesView,
)
    ensures
        spec_match(toks, pos, phr, k, caps) matches Ok(Some(m)) ==> m.pos >= pos,
    decreases phr.len() - k,
{
    if 0 <= k < phr.len() && 0 <= pos < toks.len() {
        match phr[k] {
            PatView::Lit { text } => {
                lemma_match_monotone(toks, pos + 1, phr, k + 1, caps);
            },
            PatView::Tok { slot } => {
                lemma_match_monotone(
                    toks,
                    pos + 1,
                    phr,
                    k + 1,
                    keep_token(caps, slot, toks[pos]),
                );
            },
            PatView::Expr { slot } => {
                if spec_expr_len(toks, pos) is Ok {
                    lemma_match_monotone(
                        toks,
                        pos + spec_expr_len(toks, pos)->Ok_0,
                        phr,
                        k + 1,
                        keep_expr(caps, slot, pos),
                    );
                }
            },
            PatView::OptExpr { slot } => {
                lemma_match_monotone(
                    toks,
                    pos,
                    phr,
                    k + 1,
                    keep_expr(caps, slot, pos),
                );
                if spec_expr_len(toks, pos) is Ok {
                    lemma_match_monotone(
                        toks,
                        pos + spec_expr_len(toks, pos)->Ok_0,
                        phr,
                        k + 1,
                        keep_expr(caps, slot, pos),
                    );
                }
            },
        }
    }
}

/// The pattern of every kind of statement takes at least one token.
pub proof fn lemma_pattern_advances(toks: Seq<TokenView>, pos: int, phrase: Phrase)
    ensures
        spec_match(toks, pos, spec_pattern(phrase), 0, no_captures()) matches Ok(Some(m)) ==> m.pos
            > pos,
{
    let phr = spec_pattern(phrase);
    assert(phr.len() > 0 && !(phr[0] is OptExpr));
    if 0 <= pos < toks.len() {
        lemma_expr_len_positive(toks, pos);
        match phr[0] {
            PatView::Lit { text } => {
                lemma_match_monotone(toks, pos + 1, phr, 1, no_captures());
            },
            PatView::Tok { slot } => {
                lemma_match_monotone(
                    toks,
                    pos + 1,
                    phr,
                    1,
                    keep_token(no_captures(), slot, toks[pos]),
                );
            },
            PatView::Expr { slot } => {
                if spec_expr_len(toks, pos) is Ok {
                    lemma_match_monotone(
                        toks,
                        pos + spec_expr_len(toks, pos)->Ok_0,
                        phr,
                        1,
                        keep_expr(no_captures(), slot, pos),
                    );
                }
            },
            PatView::OptExpr { slot } => {},
        }
    }
}

/// Compiling an expression leaves the position in the statements and the
/// open blocks alone.
pub proof fn lemma_eval_keeps_pos(toks: Seq<TokenView>, st: ParserView, start: int, reset: bool)
    ensures
        spec_eval(toks, st, start, reset) matches Ok((_, after)) ==> after.pos == st.pos
            && after.blocks == st.blocks && after.label_cnt == st.label_cnt,
        spec_eval_opt(toks, st, start) matches Ok((_, after)) ==> after.pos == st.pos
            && after.blocks == st.blocks && after.label_cnt == st.label_cnt,
{
}

/// The jump over a block leaves the position in the statements alone.
pub proof fn lemma_jump_unless_keeps_pos(st: ParserView, value: TokenView, label: TokenView)
    ensures
        spec_jump_unless(st, value, label) matches Ok(after) ==> after.pos == st.pos,
{
}

/// The opening of a loop leaves the position in the statements alone.
pub proof fn lemma_for_keeps_pos(
    toks: Seq<TokenView>,
    caps: CapturesView,
    st: ParserView,
    labels: Labels,
)
    ensures
        spec_for(toks, caps, st, labels) matches Ok((after, _)) ==> after.pos == st.pos,
{
    if let Ok((after, st1)) = spec_new_label(st) {
        if let Ok((head, st2)) = spec_new_label(st1) {
            if let Ok((step, st3)) = spec_new_label(st2) {
                let opened = ParserView {
                    blocks: st3.blocks.push(
                        BlockView::For { after, head, step, e1_start: caps.e1, e2_start: caps.e2 },
                    ),
                    ..st3
                };
                lemma_eval_keeps_pos(toks, opened, caps.e0, false);
                if let Ok((_, st4)) = spec_eval_opt(toks, opened, caps.e0) {
                    lemma_eval_keeps_pos(toks, st4, caps.e1, false);
                    if let Ok((cond, st5)) = spec_eval_opt(toks, st4, caps.e1) {
                        if let Some(value) = cond {
                            lemma_jump_unless_keeps_pos(st5, value, after);
                        }
                    }
                }
            }
        }
    }
}

/// The end of a block leaves the position in the statements alone.
pub proof fn lemma_close_keeps_pos(toks: Seq<TokenView>, st: ParserView, labels: Labels)
    ensures
        spec_close(toks, st, labels) matches Ok((after, _)) ==> after.pos == st.pos,
{
    if st.blocks.len() > 0 {
        let st1 = ParserView { blocks: st.blocks.drop_last(), ..st };
        if let BlockView::For { after, head, step, e1_start, e2_start } = st.blocks.last() {
            lemma_eval_keeps_pos(toks, st1, e2_start, false);
            if let Ok((_, st2)) = spec_eval_opt(toks, st1, e2_start) {
                lemma_eval_keeps_pos(toks, st2, e1_start, false);
            }
        }
    }
}

/// Appending the instructions of a statement leaves the position in the
/// statements alone.
pub proof fn lemma_action_keeps_pos(
    toks: Seq<TokenView>,
    phrase: Phrase,
    caps: CapturesView,
    st: ParserView,
    labels: Labels,
)
    ensures
        spec_action(toks, phrase, caps, st, labels) matches Ok((after, _)) ==> after.pos == st.pos,
{
    match phrase {
        Phrase::ExprAssign
        | Phrase::Print
        | Phrase::Println
        | Phrase::IfGoto
        | Phrase::Let
        | Phrase::ExprStatement => {
            lemma_eval_keeps_pos(toks, st, caps.e0, true);
        },
        Phrase::ArrayAssign => {
            lemma_eval_keeps_pos(toks, st, caps.e0, true);
            if let Ok((_, st1)) = spec_eval(toks, st, caps.e0, true) {
                lemma_eval_keeps_pos(toks, st1, caps.e1, false);
            }
        },
        Phrase::If => {
            if let Ok((l0, st1)) = spec_new_label(st) {
                let opened = ParserView {
                    blocks: st1.blocks.push(BlockView::IfElse { l0, l1: None }),
                    ..st1
                };
                lemma_eval_keeps_pos(toks, opened, caps.e0, true);
                if let Ok((value, st2)) = spec_eval(toks, opened, caps.e0, true) {
                    lemma_jump_unless_keeps_pos(st2, value, l0);
                }
            }
        },
        Phrase::For => {
            lemma_for_keeps_pos(toks, caps, st, labels);
        },
        Phrase::CloseBrace => {
            lemma_close_keeps_pos(toks, st, labels);
        },
        _ => {},
    }
}

/// Trying the kinds of statement from the `k`-th on takes at least one
/// token.
pub proof fn lemma_try_advances(toks: Seq<TokenView>, st: ParserView, labels: Labels, k: int)
    requires
        0 <= k,
    ensures
        spec_try(toks, st, labels, k) matches Ok((after, _)) ==> after.pos > st.pos,
    decreases PHRASES - k,
{
    if k < PHRASES {
        lemma_pattern_advances(toks, st.pos, phrase_at(k));
        match spec_match(toks, st.pos, spec_pattern(phrase_at(k)), 0, no_captures()) {
            Ok(None) => {
                lemma_try_advances(toks, st, labels, k + 1);
            },
            Ok(Some(m)) => {
                lemma_action_keeps_pos(
                    toks,
                    phrase_at(k),
                    m.caps,
                    ParserView { pos: m.pos, ..st },
                    labels,
                );
            },
            Err(_) => {},
        }
    }
}

/// Every statement takes at least one token.
pub proof fn lemma_statement_advances(toks: Seq<TokenView>, st: ParserView, labels: Labels)
    ensures
        spec_statement(toks, st, labels) matches Ok((after, _)) ==> after.pos > st.pos,
{
    reveal(spec_statement);
    lemma_try_advances(toks, st, labels, 0);
}

} // verus!
