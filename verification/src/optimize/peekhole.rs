//! Local rewrites of jumps: collapsing chains of jumps, and dropping jumps
//! to the next instruction.

use super::remove_nop::{lemma_select_same, not_nop, renumber, select};
use crate::error::Fault;
use crate::lexer::{Token, TokenView};
use crate::parser::{ops_view, OpView, Operation, Parser};
use crate::var_map::{spec_label_get, VariableMap};
use vstd::prelude::*;

verus! {

/// The label at which the chain of jumps that begins at label `from` ends,
/// for a jump that names the label `start`.
///
/// A label that stands for a `Goto` is followed to the label of that
/// `Goto`; the chain ends at the first label that stands for anything else,
/// or for no instruction of the program. A chain that comes back to
/// `start`, or that has not ended after `fuel` labels, ends at `start`. A
/// label that the table does not hold is a fault.
pub open spec fn spec_get_dist(
    code: Seq<OpView>,
    labels: Map<Seq<char>, i32>,
    from: TokenView,
    start: TokenView,
    fuel: nat,
) -> Result<TokenView, Fault>
    decreases fuel,
{
    if fuel == 0 {
        Ok(start)
    } else {
        match spec_label_get(labels, from.string) {
            Err(fault) => Err(fault),
            Ok(line) => if !(0 <= line < code.len()) {
                Ok(from)
            } else {
                match code[line as int] {
                    OpView::Goto { label: to } => if to.string == start.string {
                        Ok(start)
                    } else {
                        spec_get_dist(code, labels, to, start, (fuel - 1) as nat)
                    },
                    _ => Ok(from),
                }
            },
        }
    }
}

/// What collapsing makes of instruction `op` of the program `code`: a jump
/// whose chain ends at a label of another name jumps to that label.
pub open spec fn collapse_op(code: Seq<OpView>, labels: Map<Seq<char>, i32>, op: OpView) -> Result<
    OpView,
    Fault,
> {
    match op {
        OpView::Goto { label } => match spec_get_dist(code, labels, label, label, code.len() + 1) {
            Err(fault) => Err(fault),
            Ok(end) => if end.string != label.string {
                Ok(OpView::Goto { label: end })
            } else {
                Ok(op)
            },
        },
        OpView::IfGoto { cond, label } => match spec_get_dist(
            code,
            labels,
            label,
            label,
            code.len() + 1,
        ) {
            Err(fault) => Err(fault),
            Ok(end) => if end.string != label.string {
                Ok(OpView::IfGoto { cond, label: end })
            } else {
                Ok(op)
            },
        },
        _ => Ok(op),
    }
}

/// The program after the jumps among its first `upto` instructions were
/// collapsed, one after the other; each sees the rewrites made before it.
pub open spec fn spec_jump_chain(code: Seq<OpView>, labels: Map<Seq<char>, i32>, upto: int)
    -> Result<Seq<OpView>, Fault>
    decreases upto,
{
    if upto <= 0 {
        Ok(code)
    } else {
        match spec_jump_chain(code, labels, upto - 1) {
            Err(fault) => Err(fault),
            Ok(before) => match collapse_op(before, labels, before[upto - 1]) {
                Err(fault) => Err(fault),
                Ok(op) => Ok(before.update(upto - 1, op)),
            },
        }
    }
}

/// Whether instruction `i` of `code` is a `Goto` to the instruction after
/// it, or the fault of its label.
pub open spec fn jumps_to_next(code: Seq<OpView>, labels: Map<Seq<char>, i32>, i: int) -> Result<
    bool,
    Fault,
> {
    match code[i] {
        OpView::Goto { label } => match spec_label_get(labels, label.string) {
            Err(fault) => Err(fault),
            Ok(line) => Ok(line == i + 1),
        },
        _ => Ok(false),
    }
}

/// The fault of the first `Goto` at or after `i` whose label the table does
/// not hold, if there is one.
pub open spec fn first_goto_fault(code: Seq<OpView>, labels: Map<Seq<char>, i32>, i: int)
    -> Option<Fault>
    decreases code.len() - i,
{
    if i < 0 || i >= code.len() {
        None
    } else {
        match jumps_to_next(code, labels, i) {
            Err(fault) => Some(fault),
            Ok(_) => first_goto_fault(code, labels, i + 1),
        }
    }
}

/// For each instruction of `code`, whether it is neither a `Nop` nor a
/// `Goto` to the instruction after it.
pub open spec fn needed(code: Seq<Operation>, labels: Map<Seq<char>, i32>) -> Seq<bool> {
    Seq::new(
        code.len(),
        |i: int|
            !(code[i]@ is Nop) && jumps_to_next(ops_view(code), labels, i) != Ok::<bool, Fault>(
                true,
            ),
    )
}

impl Parser {
    /// The label at which the chain of jumps that begins at `from` ends.
    pub fn get_dist<'a>(
        &'a self,
        var_map: &mut VariableMap,
        from: &'a Token,
        start: &'a Token,
        fuel: usize,
    ) -> (end: Result<&'a Token, Fault>)
        ensures
            *final(var_map) == *old(var_map),
            match spec_get_dist(
                ops_view(self.internal_code@),
                old(var_map)@.labels,
                from@,
                start@,
                fuel as nat,
            ) {
                Ok(tok) => end matches Ok(t) && t@ == tok,
                Err(fault) => end matches Err(f) && f == fault,
            },
        decreases fuel,
    {
        if fuel == 0 {
            return Ok(start);
        }
        let label_line = match var_map.label_get(from) {
            Ok(line) => line,
            Err(fault) => {
                return Err(fault);
            },
        };
        if label_line < 0 || label_line as usize >= self.internal_code.len() {
            return Ok(from);
        }
        let first_op = &self.internal_code[label_line as usize];
        assert(ops_view(self.internal_code@)[label_line as int] == first_op@);
        match first_op {
            Operation::Goto(to) => {
                if to.string == start.string {
                    return Ok(start);
                }
                self.get_dist(var_map, to, start, fuel - 1)
            },
            _ => Ok(from),
        }
    }

    /// The instruction that takes the place of instruction `i` when its
    /// chain of jumps is collapsed, if it changes.
    fn collapsed(&self, var_map: &mut VariableMap, i: usize) -> (new_op: Result<
        Option<Operation>,
        Fault,
    >)
        requires
            i < self.internal_code@.len(),
            self.internal_code@.len() < usize::MAX,
        ensures
            *final(var_map) == *old(var_map),
            match collapse_op(
                ops_view(self.internal_code@),
                old(var_map)@.labels,
                self.internal_code@[i as int]@,
            ) {
                Ok(op) => new_op matches Ok(change) && match change {
                    Some(o) => o@ == op,
                    None => self.internal_code@[i as int]@ == op,
                },
                Err(fault) => new_op matches Err(f) && f == fault,
            },
    {
        let fuel = self.internal_code.len() + 1;
        match &self.internal_code[i] {
            Operation::Goto(label) => {
                let final_dist = match self.get_dist(var_map, label, label, fuel) {
                    Ok(tok) => tok,
                    Err(fault) => {
                        return Err(fault);
                    },
                };
                if final_dist.string != label.string {
                    Ok(Some(Operation::Goto(final_dist.clone())))
                } else {
                    Ok(None)
                }
            },
            Operation::IfGoto(cond, label) => {
                let final_dist = match self.get_dist(var_map, label, label, fuel) {
                    Ok(tok) => tok,
                    Err(fault) => {
                        return Err(fault);
                    },
                };
                if final_dist.string != label.string {
                    Ok(Some(Operation::IfGoto(cond.clone(), final_dist.clone())))
                } else {
                    Ok(None)
                }
            },
            _ => Ok(None),
        }
    }

    /// Jump-chain collapsing: every jump whose label stands for a `Goto` is
    /// made to jump to where the chain of such `Goto`s ends. On a fault
    /// nothing changes.
    pub fn optimize_jump_chain(&mut self, var_map: &mut VariableMap) -> (done: Result<(), Fault>)
        ensures
            *final(var_map) == *old(var_map),
            *final(self) == old(self).with_code(final(self).internal_code),
            if old(self).internal_code@.len() > super::cfg::max_program_len() {
                done == Err::<(), Fault>(Fault::ProgramTooLong) && final(self).internal_code@
                    == old(self).internal_code@
            } else {
                match spec_jump_chain(
                    ops_view(old(self).internal_code@),
                    old(var_map)@.labels,
                    old(self).internal_code@.len() as int,
                ) {
                    Ok(code) => done is Ok && ops_view(final(self).internal_code@) == code,
                    Err(fault) => done == Err::<(), Fault>(fault) && final(self).internal_code@
                        == old(self).internal_code@,
                }
            },
    {
        let n = self.internal_code.len();
        if n > 0x7fff_ffff {
            return Err(Fault::ProgramTooLong);
        }
        let backup = self.internal_code.clone();
        assert(backup@ =~= self.internal_code@);
        let ghost code = ops_view(self.internal_code@);
        let ghost labels = var_map@.labels;
        let mut i: usize = 0;
        while i < n
            invariant
                i <= n,
                n == code.len(),
                n <= super::cfg::max_program_len(),
                self.internal_code@.len() == n,
                backup@ == old(self).internal_code@,
                code == ops_view(old(self).internal_code@),
                *var_map == *old(var_map),
                labels == var_map@.labels,
                *self == old(self).with_code(self.internal_code),
                spec_jump_chain(code, labels, i as int) == Ok::<Seq<OpView>, Fault>(
                    ops_view(self.internal_code@),
                ),
            decreases n - i,
        {
            let ghost before = ops_view(self.internal_code@);
            assert(before[i as int] == self.internal_code@[i as int]@);
            match self.collapsed(var_map, i) {
                Err(fault) => {
                    self.internal_code = backup;
                    proof {
                        lemma_faults_stay(code, labels, i as int + 1, n as int);
                    }
                    return Err(fault);
                },
                Ok(Some(op)) => {
                    self.internal_code[i] = op;
                    assert(ops_view(self.internal_code@) =~= before.update(i as int, op@));
                },
                Ok(None) => {
                    assert(before =~= before.update(i as int, before[i as int]));
                },
            }
            i += 1;
        }
        Ok(())
    }

    /// Replaces every `Goto` to the instruction right after it by nothing:
    /// such jumps and all `Nop`s are removed, and the labels move along. On
    /// a fault nothing changes.
    pub fn remove_unnecessary_jump(&mut self, var_map: &mut VariableMap) -> (done: Result<
        (),
        Fault,
    >)
        ensures
            *final(self) == old(self).with_code(final(self).internal_code),
            final(var_map).map == old(var_map).map,
            final(var_map).array_map == old(var_map).array_map,
            match first_goto_fault(ops_view(old(self).internal_code@), old(var_map)@.labels, 0) {
                Some(fault) => {
                    &&& done == Err::<(), Fault>(fault)
                    &&& final(self).internal_code == old(self).internal_code
                    &&& *final(var_map) == *old(var_map)
                },
                None => {
                    &&& done is Ok
                    &&& final(self).internal_code@ == select(
                        old(self).internal_code@,
                        needed(old(self).internal_code@, old(var_map)@.labels),
                        old(self).internal_code@.len() as int,
                    )
                    &&& final(var_map)@.labels == old(var_map)@.labels.map_values(
                        |line: i32|
                            renumber(needed(old(self).internal_code@, old(var_map)@.labels), line),
                    )
                },
            },
    {
        let n = self.internal_code.len();
        let ghost code = self.internal_code@;
        let ghost labels = var_map@.labels;
        let mut drop: Vec<bool> = Vec::new();
        let mut i: usize = 0;
        while i < n
            invariant
                i <= n,
                n == code.len(),
                *self == *old(self),
                *var_map == *old(var_map),
                code == self.internal_code@,
                labels == var_map@.labels,
                drop@.len() == i,
                first_goto_fault(ops_view(code), labels, 0) == first_goto_fault(
                    ops_view(code),
                    labels,
                    i as int,
                ),
                forall|k: int|
                    0 <= k < i ==> jumps_to_next(ops_view(code), labels, k) == Ok::<bool, Fault>(
                        #[trigger] drop@[k],
                    ),
            decreases n - i,
        {
            assert(ops_view(code)[i as int] == code[i as int]@);
            let jumps = match &self.internal_code[i] {
                Operation::Goto(label) => {
                    match var_map.label_get(label) {
                        Err(fault) => {
                            return Err(fault);
                        },
                        Ok(line_dist) => line_dist > 0 && (line_dist - 1) as usize == i,
                    }
                },
                _ => false,
            };
            drop.push(jumps);
            i += 1;
        }
        let mut k: usize = 0;
        while k < n
            invariant
                k <= n,
                n == code.len(),
                drop@.len() == n,
                self.internal_code@.len() == n,
                *self == old(self).with_code(self.internal_code),
                forall|j: int|
                    0 <= j < k ==> #[trigger] self.internal_code@[j] == if drop@[j] {
                        Operation::Nop
                    } else {
                        code[j]
                    },
                forall|j: int| k <= j < n ==> #[trigger] self.internal_code@[j] == code[j],
            decreases n - k,
        {
            if drop[k] {
                self.internal_code[k] = Operation::Nop;
            }
            k += 1;
        }
        let ghost mid = self.internal_code@;
        let ghost keep = needed(code, labels);
        proof {
            assert forall|j: int| 0 <= j < n implies not_nop(mid)[j] == keep[j] by {
                assert(jumps_to_next(ops_view(code), labels, j) == Ok::<bool, Fault>(drop@[j]));
            }
            lemma_select_same(mid, code, not_nop(mid), keep, n as int);
            assert(not_nop(mid) =~= keep);
        }
        self.remove_nop(var_map);
        Ok(())
    }
}

/// A fault met while collapsing the first instructions is the fault of
/// collapsing any more of them.
pub proof fn lemma_faults_stay(code: Seq<OpView>, labels: Map<Seq<char>, i32>, at: int, upto: int)
    requires
        at <= upto,
        spec_jump_chain(code, labels, at) is Err,
    ensures
        spec_jump_chain(code, labels, upto) == spec_jump_chain(code, labels, at),
    decreases upto - at,
{
    if at < upto {
        lemma_faults_stay(code, labels, at, upto - 1);
    }
}

} // verus!
