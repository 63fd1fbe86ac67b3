//! The intermediate code, and the state of the compiler that produces it
//! from tokens.

use crate::error::Fault;
use crate::lexer::{
    dump_token, spec_dump_token, tokens_view, LexError, Lexer, Token, TokenView,
};
use vstd::prelude::*;
use vstd::string::*;

verus! {

/// The binary operators of the intermediate code. The four comparisons give
/// 1 for true and 0 for false.
#[derive(Debug, Clone, Copy, PartialEq, Eq, Structural)]
pub enum BinOp {
    Add,
    Sub,
    Mul,
    Div,
    Eq,
    Ne,
    Lt,
    Le,
}

/// The quotient of `a` by `b`, rounded towards zero.
pub open spec fn trunc_div(a: int, b: int) -> int
    recommends
        b != 0,
{
    if a >= 0 {
        if b > 0 {
            a / b
        } else {
            -(a / (-b))
        }
    } else {
        if b > 0 {
            -((-a) / b)
        } else {
            (-a) / (-b)
        }
    }
}

/// A quotient is no larger in magnitude than its dividend.
pub proof fn lemma_trunc_div_bounds(a: int, b: int)
    requires
        b != 0,
    ensures
        a >= 0 ==> -a <= trunc_div(a, b) <= a,
        a <= 0 ==> a <= trunc_div(a, b) <= -a,
        a == 0 ==> trunc_div(a, b) == 0,
{
    let x = if a >= 0 { a } else { -a };
    let d = if b > 0 { b } else { -b };
    assert(0 <= x / d <= x) by (nonlinear_arith)
        requires
            x >= 0,
            d > 0,
    ;
}

/// What a binary operator computes on 32-bit integers. Sums, differences
/// and products wrap around; so does the one quotient that does not fit,
/// `i32::MIN / -1`. Division by zero is a fault.
pub open spec fn spec_apply(op: BinOp, a: i32, b: i32) -> Result<i32, Fault> {
    match op {
        BinOp::Add => Ok(a.wrapping_add(b)),
        BinOp::Sub => Ok(a.wrapping_sub(b)),
        BinOp::Mul => Ok(a.wrapping_mul(b)),
        BinOp::Div => if b == 0 {
            Err(Fault::ZeroDivision)
        } else if a == i32::MIN && b == -1 {
            Ok(i32::MIN)
        } else {
            Ok(trunc_div(a as int, b as int) as i32)
        },
        BinOp::Eq => Ok(if a == b { 1i32 } else { 0i32 }),
        BinOp::Ne => Ok(if a != b { 1i32 } else { 0i32 }),
        BinOp::Lt => Ok(if a < b { 1i32 } else { 0i32 }),
        BinOp::Le => Ok(if a <= b { 1i32 } else { 0i32 }),
    }
}

impl BinOp {
    /// Applies the operator to two values.
    pub fn apply(self, a: i32, b: i32) -> (value: Result<i32, Fault>)
        ensures
            value == spec_apply(self, a, b),
    {
        match self {
            BinOp::Add => Ok(a.wrapping_add(b)),
            BinOp::Sub => Ok(a.wrapping_sub(b)),
            BinOp::Mul => Ok(a.wrapping_mul(b)),
            BinOp::Div => {
                if b == 0 {
                    Err(Fault::ZeroDivision)
                } else {
                    proof {
                        lemma_trunc_div_bounds(a as int, b as int);
                        if a < 0 && b < 0 {
                            let x = -(a as int);
                            let d = -(b as int);
                            assert(d >= 2 ==> x / d < x) by (nonlinear_arith)
                                requires
                                    x > 0,
                                    d > 0,
                            ;
                            assert(d == 1 ==> x / d == x) by (nonlinear_arith);
                            assert((a as int) * -1 == x);
                            assert((b as int) * -1 == d);
                        }
                    }
                    let q = a.checked_div(b);
                    match q {
                        Some(q) => Ok(q),
                        None => Ok(i32::MIN),
                    }
                }
            },
            BinOp::Eq => Ok(if a == b { 1 } else { 0 }),
            BinOp::Ne => Ok(if a != b { 1 } else { 0 }),
            BinOp::Lt => Ok(if a < b { 1 } else { 0 }),
            BinOp::Le => Ok(if a <= b { 1 } else { 0 }),
        }
    }
}

/// One instruction of the intermediate code.
#[derive(Debug)]
pub enum Operation {
    /// `Copy(to, from)`
    Copy(Token, Token),
    /// `Add(dist, lhs, rhs)`, and likewise for the other binary operators.
    Add(Token, Token, Token),
    Sub(Token, Token, Token),
    Mul(Token, Token, Token),
    Div(Token, Token, Token),
    Eq(Token, Token, Token),
    Ne(Token, Token, Token),
    Lt(Token, Token, Token),
    Le(Token, Token, Token),
    Print(Token),
    Println(Token),
    Time,
    Goto(Token),
    /// `IfGoto(cond, label)`
    IfGoto(Token, Token),
    /// `ArrayNew(name, size)`
    ArrayNew(Token, Token),
    /// `ArraySet(name, index, val)`
    ArraySet(Token, Token, Token),
    /// `ArrayGet(dist, name, index)`
    ArrayGet(Token, Token, Token),
    /// What a deleted instruction leaves behind until the code is compacted.
    Nop,
}

/// The mathematical content of an [`Operation`]. The eight binary
/// instructions share one shape.
pub ghost enum OpView {
    Copy { dst: TokenView, src: TokenView },
    Binary { op: BinOp, dst: TokenView, lhs: TokenView, rhs: TokenView },
    Print { arg: TokenView },
    Println { arg: TokenView },
    Time,
    Goto { label: TokenView },
    IfGoto { cond: TokenView, label: TokenView },
    ArrayNew { name: TokenView, size: TokenView },
    ArraySet { name: TokenView, index: TokenView, val: TokenView },
    ArrayGet { dst: TokenView, name: TokenView, index: TokenView },
    Nop,
}

impl View for Operation {
    type V = OpView;

    open spec fn view(&self) -> OpView {
        match *self {
            Operation::Copy(dst, src) => OpView::Copy { dst: dst@, src: src@ },
            Operation::Add(dst, lhs, rhs) => OpView::Binary {
                op: BinOp::Add,
                dst: dst@,
                lhs: lhs@,
                rhs: rhs@,
            },
            Operation::Sub(dst, lhs, rhs) => OpView::Binary {
                op: BinOp::Sub,
                dst: dst@,
                lhs: lhs@,
                rhs: rhs@,
            },
            Operation::Mul(dst, lhs, rhs) => OpView::Binary {
                op: BinOp::Mul,
                dst: dst@,
                lhs: lhs@,
                rhs: rhs@,
            },
            Operation::Div(dst, lhs, rhs) => OpView::Binary {
                op: BinOp::Div,
                dst: dst@,
                lhs: lhs@,
                rhs: rhs@,
            },
            Operation::Eq(dst, lhs, rhs) => OpView::Binary {
                op: BinOp::Eq,
                dst: dst@,
                lhs: lhs@,
                rhs: rhs@,
            },
            Operation::Ne(dst, lhs, rhs) => OpView::Binary {
                op: BinOp::Ne,
                dst: dst@,
                lhs: lhs@,
                rhs: rhs@,
            },
            Operation::Lt(dst, lhs, rhs) => OpView::Binary {
                op: BinOp::Lt,
                dst: dst@,
                lhs: lhs@,
                rhs: rhs@,
            },
            Operation::Le(dst, lhs, rhs) => OpView::Binary {
                op: BinOp::Le,
                dst: dst@,
                lhs: lhs@,
                rhs: rhs@,
            },
            Operation::Print(arg) => OpView::Print { arg: arg@ },
            Operation::Println(arg) => OpView::Println { arg: arg@ },
            Operation::Time => OpView::Time,
            Operation::Goto(label) => OpView::Goto { label: label@ },
            Operation::IfGoto(cond, label) => OpView::IfGoto { cond: cond@, label: label@ },
            Operation::ArrayNew(name, size) => OpView::ArrayNew { name: name@, size: size@ },
            Operation::ArraySet(name, index, val) => OpView::ArraySet {
                name: name@,
                index: index@,
                val: val@,
            },
            Operation::ArrayGet(dst, name, index) => OpView::ArrayGet {
                dst: dst@,
                name: name@,
                index: index@,
            },
            Operation::Nop => OpView::Nop,
        }
    }
}

impl Clone for Operation {
    fn clone(&self) -> (copy: Self)
        ensures
            copy == *self,
    {
        match self {
            Operation::Copy(a, b) => Operation::Copy(a.clone(), b.clone()),
            Operation::Add(a, b, c) => Operation::Add(a.clone(), b.clone(), c.clone()),
            Operation::Sub(a, b, c) => Operation::Sub(a.clone(), b.clone(), c.clone()),
            Operation::Mul(a, b, c) => Operation::Mul(a.clone(), b.clone(), c.clone()),
            Operation::Div(a, b, c) => Operation::Div(a.clone(), b.clone(), c.clone()),
            Operation::Eq(a, b, c) => Operation::Eq(a.clone(), b.clone(), c.clone()),
            Operation::Ne(a, b, c) => Operation::Ne(a.clone(), b.clone(), c.clone()),
            Operation::Lt(a, b, c) => Operation::Lt(a.clone(), b.clone(), c.clone()),
            Operation::Le(a, b, c) => Operation::Le(a.clone(), b.clone(), c.clone()),
            Operation::Print(a) => Operation::Print(a.clone()),
            Operation::Println(a) => Operation::Println(a.clone()),
            Operation::Time => Operation::Time,
            Operation::Goto(a) => Operation::Goto(a.clone()),
            Operation::IfGoto(a, b) => Operation::IfGoto(a.clone(), b.clone()),
            Operation::ArrayNew(a, b) => Operation::ArrayNew(a.clone(), b.clone()),
            Operation::ArraySet(a, b, c) => Operation::ArraySet(a.clone(), b.clone(), c.clone()),
            Operation::ArrayGet(a, b, c) => Operation::ArrayGet(a.clone(), b.clone(), c.clone()),
            Operation::Nop => Operation::Nop,
        }
    }
}

/// The views of a list of instructions, in order.
pub open spec fn ops_view(ops: Seq<Operation>) -> Seq<OpView> {
    ops.map_values(|op: Operation| op@)
}

impl Operation {
    /// The operator and the three operands of a binary instruction.
    pub fn binary_parts(&self) -> (parts: Option<(BinOp, &Token, &Token, &Token)>)
        ensures
            match parts {
                Some((op, dst, lhs, rhs)) => self@ == (OpView::Binary {
                    op,
                    dst: dst@,
                    lhs: lhs@,
                    rhs: rhs@,
                }),
                None => !(self@ is Binary),
            },
    {
        match self {
            Operation::Add(dst, lhs, rhs) => Some((BinOp::Add, dst, lhs, rhs)),
            Operation::Sub(dst, lhs, rhs) => Some((BinOp::Sub, dst, lhs, rhs)),
            Operation::Mul(dst, lhs, rhs) => Some((BinOp::Mul, dst, lhs, rhs)),
            Operation::Div(dst, lhs, rhs) => Some((BinOp::Div, dst, lhs, rhs)),
            Operation::Eq(dst, lhs, rhs) => Some((BinOp::Eq, dst, lhs, rhs)),
            Operation::Ne(dst, lhs, rhs) => Some((BinOp::Ne, dst, lhs, rhs)),
            Operation::Lt(dst, lhs, rhs) => Some((BinOp::Lt, dst, lhs, rhs)),
            Operation::Le(dst, lhs, rhs) => Some((BinOp::Le, dst, lhs, rhs)),
            _ => None,
        }
    }

    /// The binary instruction with the given operator and operands.
    pub fn binary(op: BinOp, dst: Token, lhs: Token, rhs: Token) -> (ins: Self)
        ensures
            ins@ == (OpView::Binary { op, dst: dst@, lhs: lhs@, rhs: rhs@ }),
    {
        match op {
            BinOp::Add => Operation::Add(dst, lhs, rhs),
            BinOp::Sub => Operation::Sub(dst, lhs, rhs),
            BinOp::Mul => Operation::Mul(dst, lhs, rhs),
            BinOp::Div => Operation::Div(dst, lhs, rhs),
            BinOp::Eq => Operation::Eq(dst, lhs, rhs),
            BinOp::Ne => Operation::Ne(dst, lhs, rhs),
            BinOp::Lt => Operation::Lt(dst, lhs, rhs),
            BinOp::Le => Operation::Le(dst, lhs, rhs),
        }
    }
}

/// The name under which an operator is written in a dump.
pub open spec fn spec_mnemonic(op: BinOp) -> Seq<char> {
    match op {
        BinOp::Add => "add "@,
        BinOp::Sub => "sub "@,
        BinOp::Mul => "mul "@,
        BinOp::Div => "div "@,
        BinOp::Eq => "eq "@,
        BinOp::Ne => "ne "@,
        BinOp::Lt => "lt "@,
        BinOp::Le => "le "@,
    }
}

/// An instruction with one operand, as written in a dump.
pub open spec fn dump1(name: Seq<char>, a: TokenView) -> Seq<char> {
    name + spec_dump_token(a)
}

/// An instruction with two operands, as written in a dump.
pub open spec fn dump2(name: Seq<char>, a: TokenView, b: TokenView) -> Seq<char> {
    name + spec_dump_token(a) + ", "@ + spec_dump_token(b)
}

/// An instruction with three operands, as written in a dump.
pub open spec fn dump3(name: Seq<char>, a: TokenView, b: TokenView, c: TokenView) -> Seq<char> {
    name + spec_dump_token(a) + ", "@ + spec_dump_token(b) + ", "@ + spec_dump_token(c)
}

/// How an instruction is written in a dump: its name, then its operands
/// separated by commas.
pub open spec fn spec_dump_operation(op: OpView) -> Seq<char> {
    match op {
        OpView::Copy { dst, src } => dump2("copy "@, dst, src),
        OpView::Binary { op, dst, lhs, rhs } => dump3(spec_mnemonic(op), dst, lhs, rhs),
        OpView::Print { arg } => dump1("print "@, arg),
        OpView::Println { arg } => dump1("println "@, arg),
        OpView::Time => "time"@,
        OpView::Goto { label } => dump1("goto "@, label),
        OpView::IfGoto { cond, label } => dump2("ifGoto "@, cond, label),
        OpView::ArrayNew { name, size } => dump2("arrayNew "@, name, size),
        OpView::ArraySet { name, index, val } => dump3("arraySet "@, name, index, val),
        OpView::ArrayGet { dst, name, index } => dump3("arrayGetElem "@, dst, name, index),
        OpView::Nop => "nop"@,
    }
}

fn mnemonic(op: BinOp) -> (name: &'static str)
    ensures
        name@ == spec_mnemonic(op),
{
    match op {
        BinOp::Add => "add ",
        BinOp::Sub => "sub ",
        BinOp::Mul => "mul ",
        BinOp::Div => "div ",
        BinOp::Eq => "eq ",
        BinOp::Ne => "ne ",
        BinOp::Lt => "lt ",
        BinOp::Le => "le ",
    }
}

fn write1(name: &str, a: &Token) -> (text: String)
    ensures
        text@ == dump1(name@, a@),
{
    let mut text = String::from_str(name);
    text.append(dump_token(a).as_str());
    text
}

fn write2(name: &str, a: &Token, b: &Token) -> (text: String)
    ensures
        text@ == dump2(name@, a@, b@),
{
    let mut text = write1(name, a);
    text.append(", ");
    text.append(dump_token(b).as_str());
    text
}

fn write3(name: &str, a: &Token, b: &Token, c: &Token) -> (text: String)
    ensures
        text@ == dump3(name@, a@, b@, c@),
{
    let mut text = write2(name, a, b);
    text.append(", ");
    text.append(dump_token(c).as_str());
    text
}

/// Writes one instruction as a line of a dump.
pub fn dump_operation(op: &Operation) -> (text: String)
    ensures
        text@ == spec_dump_operation(op@),
{
    match op.binary_parts() {
        Some((kind, dst, lhs, rhs)) => write3(mnemonic(kind), dst, lhs, rhs),
        None => match op {
            Operation::Copy(dst, src) => write2("copy ", dst, src),
            Operation::Print(arg) => write1("print ", arg),
            Operation::Println(arg) => write1("println ", arg),
            Operation::Time => String::from_str("time"),
            Operation::Goto(label) => write1("goto ", label),
            Operation::IfGoto(cond, label) => write2("ifGoto ", cond, label),
            Operation::ArrayNew(name, size) => write2("arrayNew ", name, size),
            Operation::ArraySet(name, index, val) => write3("arraySet ", name, index, val),
            Operation::ArrayGet(dst, name, index) => write3("arrayGetElem ", dst, name, index),
            _ => String::from_str("nop"),
        },
    }
}

/// Why a token list could not be compiled.
#[derive(Debug, Clone, Copy, PartialEq, Eq, Structural)]
pub enum SyntaxError {
    /// The source text could not be split into tokens.
    Lex(LexError),
    /// The tokens end in the middle of a statement.
    UnexpectedEnd,
    /// An opening parenthesis is not closed.
    MissingParenthesis,
    /// An opening bracket is not closed.
    UnmatchedBracket,
    /// A closing brace without a block to close.
    UnmatchedBraces,
    /// An `else` that follows no `if`.
    UnmatchedElse,
    /// No statement begins with the tokens at hand.
    UnknownStatement,
    /// More temporary variables or labels would be needed than can be
    /// numbered.
    TooManyTemporaries,
    /// The program has more instructions than a label can address.
    ProgramTooLong,
}

/// An open block of the source text, with the labels that its end defines.
#[derive(Debug)]
pub enum Block {
    /// `IfElse(l0, l1)`: `l0` closes the first branch; `l1`, once an
    /// `else` was seen, closes the second.
    IfElse(Token, Option<Token>),
    /// `For(l0, l1, l2, e1_start, e2_start)`: the labels after the loop,
    /// at the head of its body and before its step, and the token
    /// positions of its condition and of its step.
    For(Token, Token, Token, usize, usize),
}

/// The mathematical content of a [`Block`].
pub ghost enum BlockView {
    IfElse { l0: TokenView, l1: Option<TokenView> },
    For { after: TokenView, head: TokenView, step: TokenView, e1_start: int, e2_start: int },
}

impl View for Block {
    type V = BlockView;

    open spec fn view(&self) -> BlockView {
        match self {
            Block::IfElse(l0, l1) => BlockView::IfElse {
                l0: l0@,
                l1: match l1 {
                    Some(l) => Some(l@),
                    None => None,
                },
            },
            Block::For(l0, l1, l2, e1, e2) => BlockView::For {
                after: l0@,
                head: l1@,
                step: l2@,
                e1_start: *e1 as int,
                e2_start: *e2 as int,
            },
        }
    }
}

/// The views of a stack of blocks, the innermost last.
pub open spec fn blocks_view(blocks: Seq<Block>) -> Seq<BlockView> {
    blocks.map_values(|b: Block| b@)
}

/// The compiler: it reads the tokens of a source text and appends the
/// instructions they stand for to `internal_code`.
#[derive(Debug)]
pub struct Parser {
    /// The position of the next token of the statement being read.
    pub pos: usize,
    /// The tokens.
    pub lexer: Lexer,
    /// The instructions produced so far.
    pub internal_code: Vec<Operation>,
    /// The position of the next token of the expression being read.
    pub expr_pos: usize,
    /// The number of the next temporary variable.
    pub temp_var_cnt: u64,
    /// The number of the next temporary label.
    pub temp_label_cnt: u64,
    /// The blocks that are open, the innermost last.
    pub blocks: Vec<Block>,
    /// Why the source text could not be split into tokens, if it could
    /// not.
    pub lex_error: Option<LexError>,
}

impl Parser {
    /// This compiler with `code` in place of its instructions.
    pub open spec fn with_code(self, code: Vec<Operation>) -> Parser {
        Parser { internal_code: code, ..self }
    }

    /// The tokens that are compiled.
    pub open spec fn toks(self) -> Seq<TokenView> {
        tokens_view(self.lexer.tokens@)
    }
}

} // verus!
