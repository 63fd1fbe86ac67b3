//! The interpreter of the intermediate code.

use crate::error::Fault;
use crate::lexer::{Token, TokenType, TokenView};
use crate::parser::{ops_view, spec_apply, BinOp, OpView, Operation, Parser};
use crate::text::{decimal, i32_to_string};
use crate::var_map::{
    is_operand, operand_value, spec_array_get, spec_array_set, spec_label_get, vars_after_read,
    zeros, StoreView, VariableMap,
};
use vstd::prelude::*;

verus! {

/// What an instruction shows to the outside world.
#[derive(Debug, PartialEq, Eq)]
pub enum Effect {
    /// A text to be written, without a line break after it.
    Print(String),
    /// A text to be written, with a line break after it.
    Println(String),
    /// The time passed since the run began is to be reported.
    Time,
}

/// The mathematical content of an [`Effect`].
pub ghost enum EffectView {
    Print { text: Seq<char> },
    Println { text: Seq<char> },
    Time,
}

impl View for Effect {
    type V = EffectView;

    open spec fn view(&self) -> EffectView {
        match self {
            Effect::Print(text) => EffectView::Print { text: text@ },
            Effect::Println(text) => EffectView::Println { text: text@ },
            Effect::Time => EffectView::Time,
        }
    }
}

/// The effects of a list, in order.
pub open spec fn effects_view(effects: Seq<Effect>) -> Seq<EffectView> {
    effects.map_values(|e: Effect| e@)
}

/// What one instruction did: where the run goes on, and what it shows.
#[derive(Debug)]
pub struct Step {
    /// The index of the next instruction; the length of the program when
    /// the run is over.
    pub next: usize,
    pub effect: Option<Effect>,
}

/// The mathematical content of a [`Step`].
pub ghost struct StepView {
    pub next: int,
    pub effect: Option<EffectView>,
}

/// What a run did: everything it showed, and the fault that stopped it, if
/// one did.
#[derive(Debug)]
pub struct Execution {
    pub output: Vec<Effect>,
    pub fault: Option<Fault>,
}

/// What a run did, in the model.
pub ghost struct RunView {
    pub store: StoreView,
    pub output: Seq<EffectView>,
    pub fault: Option<Fault>,
}

/// Reading an operand: its value and the store after the read, in which a
/// variable read before it was written is recorded with 0. A token that
/// is neither a variable nor a number cannot be read.
pub open spec fn read(st: StoreView, tok: TokenView) -> Result<(i32, StoreView), Fault> {
    if is_operand(tok) {
        Ok((operand_value(st.vars, tok), StoreView { vars: vars_after_read(st.vars, tok), ..st }))
    } else {
        Err(Fault::BadOperand)
    }
}

/// The store after `val` was written to the variable `dst`.
pub open spec fn write(st: StoreView, dst: TokenView, val: i32) -> StoreView {
    StoreView { vars: st.vars.insert(dst.string, val), ..st }
}

/// Where a jump to `label` goes on in a program of `n` instructions: at
/// the instruction the label stands for, or nowhere (the run is over)
/// where that index is not one of the program.
pub open spec fn jump(st: StoreView, label: TokenView, n: int) -> Result<int, Fault> {
    match spec_label_get(st.labels, label.string) {
        Err(fault) => Err(fault),
        Ok(line) => if 0 <= line < n {
            Ok(line as int)
        } else {
            Ok(n)
        },
    }
}

/// What is shown when `arg` is printed, and the store after it: a text
/// literal shows itself, a number or a variable its value in decimal.
pub open spec fn shown(st: StoreView, arg: TokenView) -> (StoreView, Result<Seq<char>, Fault>) {
    match arg.ty {
        TokenType::StrLiteral => (st, Ok(arg.string)),
        TokenType::Simbol => (st, Err(Fault::CannotPrint)),
        _ => (read(st, arg)->Ok_0.1, Ok(decimal(read(st, arg)->Ok_0.0 as int))),
    }
}

/// A step that goes on with the next instruction and shows nothing.
pub open spec fn onward(pc: int) -> Result<StepView, Fault> {
    Ok(StepView { next: pc + 1, effect: None })
}

/// A copy: the source is read and written to the destination.
pub open spec fn step_copy(pc: int, st: StoreView, dst: TokenView, src: TokenView) -> (
    StoreView,
    Result<StepView, Fault>,
) {
    match read(st, src) {
        Err(fault) => (st, Err(fault)),
        Ok((val, st1)) => (write(st1, dst, val), onward(pc)),
    }
}

/// A binary instruction: both operands are read, the left one first, and
/// what the operator makes of them is written to the destination.
pub open spec fn step_binary(
    pc: int,
    st: StoreView,
    op: BinOp,
    dst: TokenView,
    lhs: TokenView,
    rhs: TokenView,
) -> (StoreView, Result<StepView, Fault>) {
    match read(st, lhs) {
        Err(fault) => (st, Err(fault)),
        Ok((a, st1)) => match read(st1, rhs) {
            Err(fault) => (st1, Err(fault)),
            Ok((b, st2)) => match spec_apply(op, a, b) {
                Err(fault) => (st2, Err(fault)),
                Ok(val) => (write(st2, dst, val), onward(pc)),
            },
        },
    }
}

/// A print instruction, with or without a line break.
pub open spec fn step_print(pc: int, st: StoreView, arg: TokenView, line_break: bool) -> (
    StoreView,
    Result<StepView, Fault>,
) {
    match shown(st, arg).1 {
        Err(fault) => (shown(st, arg).0, Err(fault)),
        Ok(text) => (
            shown(st, arg).0,
            Ok(
                StepView {
                    next: pc + 1,
                    effect: Some(
                        if line_break {
                            EffectView::Println { text }
                        } else {
                            EffectView::Print { text }
                        },
                    ),
                },
            ),
        ),
    }
}

/// A jump in a program of `n` instructions.
pub open spec fn step_goto(st: StoreView, label: TokenView, n: int) -> (
    StoreView,
    Result<StepView, Fault>,
) {
    match jump(st, label, n) {
        Err(fault) => (st, Err(fault)),
        Ok(next) => (st, Ok(StepView { next, effect: None })),
    }
}

/// A conditional jump: taken where the condition is not 0.
pub open spec fn step_if_goto(pc: int, st: StoreView, cond: TokenView, label: TokenView, n: int)
    -> (StoreView, Result<StepView, Fault>) {
    match read(st, cond) {
        Err(fault) => (st, Err(fault)),
        Ok((val, st1)) => if val != 0 {
            step_goto(st1, label, n)
        } else {
            (st1, onward(pc))
        },
    }
}

/// The creation of an array of zeros.
pub open spec fn step_array_new(pc: int, st: StoreView, name: TokenView, size: TokenView) -> (
    StoreView,
    Result<StepView, Fault>,
) {
    match read(st, size) {
        Err(fault) => (st, Err(fault)),
        Ok((len, st1)) => if len < 0 {
            (st1, Err(Fault::NegativeArraySize))
        } else {
            (
                StoreView { arrays: st1.arrays.insert(name.string, zeros(len as nat)), ..st1 },
                onward(pc),
            )
        },
    }
}

/// The read of an array element into a variable.
pub open spec fn step_array_get(
    pc: int,
    st: StoreView,
    dst: TokenView,
    name: TokenView,
    index: TokenView,
) -> (StoreView, Result<StepView, Fault>) {
    match read(st, index) {
        Err(fault) => (st, Err(fault)),
        Ok((i, st1)) => match spec_array_get(st1.arrays, name.string, i as int) {
            Err(fault) => (st1, Err(fault)),
            Ok(val) => (write(st1, dst, val), onward(pc)),
        },
    }
}

/// The write of a value to an array element; the index is read first.
pub open spec fn step_array_set(
    pc: int,
    st: StoreView,
    name: TokenView,
    index: TokenView,
    val: TokenView,
) -> (StoreView, Result<StepView, Fault>) {
    match read(st, index) {
        Err(fault) => (st, Err(fault)),
        Ok((i, st1)) => match read(st1, val) {
            Err(fault) => (st1, Err(fault)),
            Ok((v, st2)) => match spec_array_set(st2.arrays, name.string, i as int, v) {
                Err(fault) => (st2, Err(fault)),
                Ok(arrays) => (StoreView { arrays, ..st2 }, onward(pc)),
            },
        },
    }
}

/// What instruction `pc` of `code` does to the store `st`: the store
/// after it, and the step it makes or the fault that stops the run.
///
/// Operands are read from left to right, and a read that the store records
/// stays recorded when the instruction faults afterwards.
pub open spec fn spec_step(code: Seq<OpView>, pc: int, st: StoreView) -> (
    StoreView,
    Result<StepView, Fault>,
)
    recommends
        0 <= pc < code.len(),
{
    match code[pc] {
        OpView::Copy { dst, src } => step_copy(pc, st, dst, src),
        OpView::Binary { op, dst, lhs, rhs } => step_binary(pc, st, op, dst, lhs, rhs),
        OpView::Print { arg } => step_print(pc, st, arg, false),
        OpView::Println { arg } => step_print(pc, st, arg, true),
        OpView::Time => (st, Ok(StepView { next: pc + 1, effect: Some(EffectView::Time) })),
        OpView::Goto { label } => step_goto(st, label, code.len() as int),
        OpView::IfGoto { cond, label } => step_if_goto(pc, st, cond, label, code.len() as int),
        OpView::ArrayNew { name, size } => step_array_new(pc, st, name, size),
        OpView::ArrayGet { dst, name, index } => step_array_get(pc, st, dst, name, index),
        OpView::ArraySet { name, index, val } => step_array_set(pc, st, name, index, val),
        OpView::Nop => (st, onward(pc)),
    }
}

/// The executed step `made` is the step `want` of the model.
pub open spec fn agrees(made: Result<Step, Fault>, want: Result<StepView, Fault>) -> bool {
    match want {
        Ok(step) => made matches Ok(s) && s.next == step.next && match s.effect {
            Some(e) => step.effect == Some(e@),
            None => step.effect is None,
        },
        Err(fault) => made matches Err(f) && f == fault,
    }
}

/// `effect` put after `output`, where there is one.
pub open spec fn with_effect(output: Seq<EffectView>, effect: Option<EffectView>) -> Seq<
    EffectView,
> {
    match effect {
        Some(e) => output.push(e),
        None => output,
    }
}

/// The run of `code` from instruction `pc` on: steps are made until the
/// program counter leaves the program, a fault comes up, or `fuel` steps
/// were made, which is the fault [`Fault::StepLimit`].
pub open spec fn spec_run(
    code: Seq<OpView>,
    pc: int,
    st: StoreView,
    output: Seq<EffectView>,
    fuel: nat,
) -> RunView
    decreases fuel,
{
    if !(0 <= pc < code.len()) {
        RunView { store: st, output, fault: None }
    } else if fuel == 0 {
        RunView { store: st, output, fault: Some(Fault::StepLimit) }
    } else {
        match spec_step(code, pc, st).1 {
            Err(fault) => RunView { store: spec_step(code, pc, st).0, output, fault: Some(fault) },
            Ok(step) => spec_run(
                code,
                step.next,
                spec_step(code, pc, st).0,
                with_effect(output, step.effect),
                (fuel - 1) as nat,
            ),
        }
    }
}

/// A store keeps what `before` held: the arrays and labels are the same,
/// and every variable of `before` has the value it had.
pub open spec fn keeps(before: StoreView, after: StoreView) -> bool {
    &&& after.arrays == before.arrays
    &&& after.labels == before.labels
    &&& forall|name: Seq<char>| #[trigger]
        before.vars.contains_key(name) ==> after.vars.contains_key(name) && after.vars[name]
            == before.vars[name]
}

/// A division by zero stops the run with a fault and leaves everything in
/// the store that was written before it.
pub proof fn lemma_zero_division_keeps_store(code: Seq<OpView>, pc: int, st: StoreView)
    requires
        0 <= pc < code.len(),
        code[pc] matches OpView::Binary { op, lhs, rhs, .. } && op == BinOp::Div && is_operand(lhs)
            && is_operand(rhs) && read(read(st, lhs)->Ok_0.1, rhs)->Ok_0.0 == 0,
    ensures
        spec_step(code, pc, st).1 == Err::<StepView, Fault>(Fault::ZeroDivision),
        keeps(st, spec_step(code, pc, st).0),
        forall|output: Seq<EffectView>, fuel: nat|
            fuel > 0 ==> #[trigger] spec_run(code, pc, st, output, fuel) == (RunView {
                store: spec_step(code, pc, st).0,
                output,
                fault: Some(Fault::ZeroDivision),
            }),
{
}

/// Reads an operand, or reports that `tok` is none.
fn read_operand(var_map: &mut VariableMap, tok: &Token) -> (value: Result<i32, Fault>)
    ensures
        final(var_map).array_map == old(var_map).array_map,
        final(var_map).label_map == old(var_map).label_map,
        match read(old(var_map)@, tok@) {
            Ok((val, st)) => value == Ok::<i32, Fault>(val) && final(var_map)@ == st,
            Err(fault) => value == Err::<i32, Fault>(fault) && *final(var_map) == *old(var_map),
        },
{
    match tok.ty {
        TokenType::NumLiteral(_) | TokenType::Ident => Ok(var_map.get(tok)),
        _ => Err(Fault::BadOperand),
    }
}

/// The text that printing `arg` shows.
fn show(var_map: &mut VariableMap, arg: &Token) -> (text: Result<String, Fault>)
    ensures
        final(var_map)@ == shown(old(var_map)@, arg@).0,
        match shown(old(var_map)@, arg@).1 {
            Ok(t) => text matches Ok(s) && s@ == t,
            Err(fault) => text matches Err(f) && f == fault,
        },
{
    match arg.ty {
        TokenType::StrLiteral => Ok(arg.string.clone()),
        TokenType::Simbol => Err(Fault::CannotPrint),
        _ => {
            let val = var_map.get(arg);
            Ok(i32_to_string(val))
        },
    }
}

/// Where a jump to `label` goes on in a program of `n` instructions.
fn jump_to(var_map: &mut VariableMap, label: &Token, n: usize) -> (next: Result<usize, Fault>)
    ensures
        *final(var_map) == *old(var_map),
        match jump(old(var_map)@, label@, n as int) {
            Ok(target) => next == Ok::<usize, Fault>(target as usize),
            Err(fault) => next == Err::<usize, Fault>(fault),
        },
{
    match var_map.label_get(label) {
        Err(fault) => Err(fault),
        Ok(line) => {
            if line >= 0 && (line as usize) < n {
                Ok(line as usize)
            } else {
                Ok(n)
            }
        },
    }
}

fn do_copy(var_map: &mut VariableMap, pc: usize, dist: &Token, var: &Token) -> (made: Result<
    Step,
    Fault,
>)
    requires
        pc < usize::MAX,
    ensures
        final(var_map)@ == step_copy(pc as int, old(var_map)@, dist@, var@).0,
        agrees(made, step_copy(pc as int, old(var_map)@, dist@, var@).1),
{
    let val = match read_operand(var_map, var) {
        Ok(v) => v,
        Err(fault) => {
            return Err(fault);
        },
    };
    var_map.set(dist, val);
    Ok(Step { next: pc + 1, effect: None })
}

fn do_binary(
    var_map: &mut VariableMap,
    pc: usize,
    kind: BinOp,
    dist: &Token,
    lhs: &Token,
    rhs: &Token,
) -> (made: Result<Step, Fault>)
    requires
        pc < usize::MAX,
    ensures
        final(var_map)@ == step_binary(pc as int, old(var_map)@, kind, dist@, lhs@, rhs@).0,
        agrees(made, step_binary(pc as int, old(var_map)@, kind, dist@, lhs@, rhs@).1),
{
    let lhs_val = match read_operand(var_map, lhs) {
        Ok(v) => v,
        Err(fault) => {
            return Err(fault);
        },
    };
    let rhs_val = match read_operand(var_map, rhs) {
        Ok(v) => v,
        Err(fault) => {
            return Err(fault);
        },
    };
    match kind.apply(lhs_val, rhs_val) {
        Err(fault) => Err(fault),
        Ok(val) => {
            var_map.set(dist, val);
            Ok(Step { next: pc + 1, effect: None })
        },
    }
}

fn do_print(var_map: &mut VariableMap, pc: usize, val_tok: &Token, line_break: bool) -> (made:
    Result<Step, Fault>)
    requires
        pc < usize::MAX,
    ensures
        final(var_map)@ == step_print(pc as int, old(var_map)@, val_tok@, line_break).0,
        agrees(made, step_print(pc as int, old(var_map)@, val_tok@, line_break).1),
{
    match show(var_map, val_tok) {
        Err(fault) => Err(fault),
        Ok(text) => {
            let effect = if line_break {
                Effect::Println(text)
            } else {
                Effect::Print(text)
            };
            Ok(Step { next: pc + 1, effect: Some(effect) })
        },
    }
}

fn do_goto(var_map: &mut VariableMap, label: &Token, n: usize) -> (made: Result<Step, Fault>)
    ensures
        final(var_map)@ == step_goto(old(var_map)@, label@, n as int).0,
        agrees(made, step_goto(old(var_map)@, label@, n as int).1),
{
    match jump_to(var_map, label, n) {
        Err(fault) => Err(fault),
        Ok(next) => Ok(Step { next, effect: None }),
    }
}

fn do_if_goto(var_map: &mut VariableMap, pc: usize, cond: &Token, label: &Token, n: usize) -> (made:
    Result<Step, Fault>)
    requires
        pc < usize::MAX,
    ensures
        final(var_map)@ == step_if_goto(pc as int, old(var_map)@, cond@, label@, n as int).0,
        agrees(made, step_if_goto(pc as int, old(var_map)@, cond@, label@, n as int).1),
{
    let cond_val = match read_operand(var_map, cond) {
        Ok(v) => v,
        Err(fault) => {
            return Err(fault);
        },
    };
    if cond_val != 0 {
        do_goto(var_map, label, n)
    } else {
        Ok(Step { next: pc + 1, effect: None })
    }
}

fn do_array_new(var_map: &mut VariableMap, pc: usize, ident: &Token, size_tok: &Token) -> (made:
    Result<Step, Fault>)
    requires
        pc < usize::MAX,
    ensures
        final(var_map)@ == step_array_new(pc as int, old(var_map)@, ident@, size_tok@).0,
        agrees(made, step_array_new(pc as int, old(var_map)@, ident@, size_tok@).1),
{
    let size = match read_operand(var_map, size_tok) {
        Ok(v) => v,
        Err(fault) => {
            return Err(fault);
        },
    };
    if size < 0 {
        return Err(Fault::NegativeArraySize);
    }
    var_map.array_init(ident, size as usize);
    Ok(Step { next: pc + 1, effect: None })
}

/// The fault of reaching below the first element of the array `ident`.
fn below_bounds(var_map: &mut VariableMap, ident: &Token, Ghost(index): Ghost<int>) -> (fault:
    Fault)
    requires
        index < 0,
    ensures
        *final(var_map) == *old(var_map),
        spec_array_get(old(var_map)@.arrays, ident@.string, index) == Err::<i32, Fault>(fault),
        forall|val: i32|
            spec_array_set(old(var_map)@.arrays, ident@.string, index, val) == Err::<
                Map<Seq<char>, Seq<i32>>,
                Fault,
            >(fault),
{
    match var_map.array_get(ident, 0) {
        Err(Fault::UndeclaredArray) => Fault::UndeclaredArray,
        _ => Fault::IndexOutOfBounds,
    }
}

fn do_array_get(
    var_map: &mut VariableMap,
    pc: usize,
    dist: &Token,
    ident: &Token,
    index_tok: &Token,
) -> (made: Result<Step, Fault>)
    requires
        pc < usize::MAX,
    ensures
        final(var_map)@ == step_array_get(pc as int, old(var_map)@, dist@, ident@, index_tok@).0,
        agrees(made, step_array_get(pc as int, old(var_map)@, dist@, ident@, index_tok@).1),
{
    let index = match read_operand(var_map, index_tok) {
        Ok(v) => v,
        Err(fault) => {
            return Err(fault);
        },
    };
    if index < 0 {
        return Err(below_bounds(var_map, ident, Ghost(index as int)));
    }
    match var_map.array_get(ident, index as usize) {
        Err(fault) => Err(fault),
        Ok(val) => {
            var_map.set(dist, val);
            Ok(Step { next: pc + 1, effect: None })
        },
    }
}

fn do_array_set(
    var_map: &mut VariableMap,
    pc: usize,
    ident: &Token,
    index_tok: &Token,
    val_tok: &Token,
) -> (made: Result<Step, Fault>)
    requires
        pc < usize::MAX,
    ensures
        final(var_map)@ == step_array_set(pc as int, old(var_map)@, ident@, index_tok@, val_tok@).0,
        agrees(made, step_array_set(pc as int, old(var_map)@, ident@, index_tok@, val_tok@).1),
{
    let index = match read_operand(var_map, index_tok) {
        Ok(v) => v,
        Err(fault) => {
            return Err(fault);
        },
    };
    let val = match read_operand(var_map, val_tok) {
        Ok(v) => v,
        Err(fault) => {
            return Err(fault);
        },
    };
    if index < 0 {
        return Err(below_bounds(var_map, ident, Ghost(index as int)));
    }
    match var_map.array_set(ident, index as usize, val) {
        Err(fault) => Err(fault),
        Ok(()) => Ok(Step { next: pc + 1, effect: None }),
    }
}

impl Parser {
    /// Executes instruction `pc` on the store.
    pub fn step(&self, pc: usize, var_map: &mut VariableMap) -> (made: Result<Step, Fault>)
        requires
            pc < self.internal_code@.len(),
        ensures
            final(var_map)@ == spec_step(ops_view(self.internal_code@), pc as int, old(var_map)@).0,
            agrees(made, spec_step(ops_view(self.internal_code@), pc as int, old(var_map)@).1),
    {
        let n = self.internal_code.len();
        let op = &self.internal_code[pc];
        assert(ops_view(self.internal_code@)[pc as int] == op@);
        match op.binary_parts() {
            Some((kind, dist, lhs, rhs)) => do_binary(var_map, pc, kind, dist, lhs, rhs),
            None => match op {
                Operation::Copy(dist, var) => do_copy(var_map, pc, dist, var),
                Operation::Print(val_tok) => do_print(var_map, pc, val_tok, false),
                Operation::Println(val_tok) => do_print(var_map, pc, val_tok, true),
                Operation::Time => Ok(Step { next: pc + 1, effect: Some(Effect::Time) }),
                Operation::Goto(label) => do_goto(var_map, label, n),
                Operation::IfGoto(cond, label) => do_if_goto(var_map, pc, cond, label, n),
                Operation::ArrayNew(ident, size_tok) => do_array_new(var_map, pc, ident, size_tok),
                Operation::ArrayGet(dist, ident, index_tok) => do_array_get(
                    var_map,
                    pc,
                    dist,
                    ident,
                    index_tok,
                ),
                Operation::ArraySet(ident, index_tok, val_tok) => do_array_set(
                    var_map,
                    pc,
                    ident,
                    index_tok,
                    val_tok,
                ),
                _ => Ok(Step { next: pc + 1, effect: None }),
            },
        }
    }

    /// Runs the program from its first instruction, for at most
    /// `u64::MAX` steps.
    pub fn exec(&self, var_map: &mut VariableMap) -> (done: Execution)
        ensures
            final(var_map)@ == spec_run(
                ops_view(self.internal_code@),
                0,
                old(var_map)@,
                Seq::empty(),
                u64::MAX as nat,
            ).store,
            effects_view(done.output@) == spec_run(
                ops_view(self.internal_code@),
                0,
                old(var_map)@,
                Seq::empty(),
                u64::MAX as nat,
            ).output,
            done.fault == spec_run(
                ops_view(self.internal_code@),
                0,
                old(var_map)@,
                Seq::empty(),
                u64::MAX as nat,
            ).fault,
    {
        self.exec_within(var_map, u64::MAX)
    }

    /// Runs the program from its first instruction, for at most `budget`
    /// steps.
    pub fn exec_within(&self, var_map: &mut VariableMap, budget: u64) -> (done: Execution)
        ensures
            final(var_map)@ == spec_run(
                ops_view(self.internal_code@),
                0,
                old(var_map)@,
                Seq::empty(),
                budget as nat,
            ).store,
            effects_view(done.output@) == spec_run(
                ops_view(self.internal_code@),
                0,
                old(var_map)@,
                Seq::empty(),
                budget as nat,
            ).output,
            done.fault == spec_run(
                ops_view(self.internal_code@),
                0,
                old(var_map)@,
                Seq::empty(),
                budget as nat,
            ).fault,
    {
        let ghost code = ops_view(self.internal_code@);
        let ghost whole = spec_run(code, 0, var_map@, Seq::empty(), budget as nat);
        let n = self.internal_code.len();
        let mut output: Vec<Effect> = Vec::new();
        let mut pc: usize = 0;
        let mut steps: u64 = 0;
        assert(effects_view(output@) =~= Seq::<EffectView>::empty());
        while pc < n
            invariant
                n == code.len(),
                code == ops_view(self.internal_code@),
                pc <= n,
                steps <= budget,
                whole == spec_run(code, 0, old(var_map)@, Seq::empty(), budget as nat),
                spec_run(code, pc as int, var_map@, effects_view(output@), (budget - steps) as nat)
                    == whole,
            decreases budget - steps,
        {
            if steps == budget {
                return Execution { output, fault: Some(Fault::StepLimit) };
            }
            steps += 1;
            let ghost shown_before = effects_view(output@);
            match self.step(pc, var_map) {
                Err(fault) => {
                    return Execution { output, fault: Some(fault) };
                },
                Ok(step) => {
                    pc = step.next;
                    match step.effect {
                        Some(effect) => {
                            output.push(effect);
                            assert(effects_view(output@) =~= shown_before.push(effect@));
                        },
                        None => {},
                    }
                },
            }
        }
        Execution { output, fault: None }
    }
}

} // verus!
