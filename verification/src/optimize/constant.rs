//! Constant propagation over the control-flow graph, and the folding of
//! instructions whose result it proves constant.

use super::cfg::{first_fault, graph_of, ic_to_cfg, max_program_len, Cfg, CfgView};
use crate::error::Fault;
use crate::lexer::{num_token, Token, TokenType, TokenView};
use crate::name_map::{entries_map, lemma_push, NameMap};
use crate::parser::{ops_view, spec_apply, OpView, Operation, Parser};
use crate::var_map::VariableMap;
use vstd::prelude::*;

verus! {

/// What is known of the variables at one point of a program. A variable
/// bound to `Some(v)` holds `v` on every path that reaches the point; one
/// bound to `None` is not a constant; of one that is not bound nothing is
/// known yet.
pub type Facts = Map<Seq<char>, Option<i32>>;

/// The fact about `name`, if there is one.
pub open spec fn lookup(facts: Facts, name: Seq<char>) -> Option<Option<i32>> {
    if facts.contains_key(name) {
        Some(facts[name])
    } else {
        None
    }
}

/// What is known of a variable once `fact` has come in along another path:
/// the first fact stands, an equal constant confirms it, and anything else
/// leaves the variable not a constant.
pub open spec fn join(seen: Option<Option<i32>>, fact: Option<i32>) -> Option<i32> {
    match seen {
        None => fact,
        Some(Some(n)) => if fact == Some(n) {
            Some(n)
        } else {
            None
        },
        Some(None) => None,
    }
}

/// The facts of `a` joined with those of `b`, variable by variable. A
/// variable bound on one side only keeps the fact of that side.
pub open spec fn merge(a: Facts, b: Facts) -> Facts {
    Map::new(
        |name: Seq<char>| a.contains_key(name) || b.contains_key(name),
        |name: Seq<char>|
            if b.contains_key(name) {
                join(lookup(a, name), b[name])
            } else {
                a[name]
            },
    )
}

/// The merge of the facts that hold after the first `upto` of the nodes
/// `preds`.
pub open spec fn merge_all(outs: Seq<Facts>, preds: Seq<usize>, upto: int) -> Facts
    decreases upto,
{
    if upto <= 0 {
        Map::empty()
    } else {
        merge(merge_all(outs, preds, upto - 1), outs[preds[upto - 1] as int])
    }
}

/// The constant that an operand is known to hold: a number holds itself, a
/// variable what the facts say of it.
pub open spec fn constant_of(ins: Facts, tok: TokenView) -> Option<i32> {
    match tok.ty {
        TokenType::NumLiteral(n) => Some(n),
        TokenType::Ident => if ins.contains_key(tok.string) {
            ins[tok.string]
        } else {
            None
        },
        _ => None,
    }
}

/// The facts after an instruction, given the facts before it. A copy or a
/// binary instruction binds its destination: to a constant where every
/// operand is one, else to "not a constant". Dividing a constant by the
/// constant zero is a fault. Every other instruction changes nothing.
pub open spec fn transfer(op: OpView, ins: Facts) -> Result<Facts, Fault> {
    match op {
        OpView::Copy { dst, src } => Ok(ins.insert(dst.string, constant_of(ins, src))),
        OpView::Binary { op, dst, lhs, rhs } => match (
            constant_of(ins, lhs),
            constant_of(ins, rhs),
        ) {
            (Some(a), Some(b)) => match spec_apply(op, a, b) {
                Ok(v) => Ok(ins.insert(dst.string, Some(v))),
                Err(fault) => Err(fault),
            },
            _ => Ok(ins.insert(dst.string, None)),
        },
        _ => Ok(ins),
    }
}

/// The state of the worklist algorithm: the facts found so far after each
/// instruction, and the instructions still to be looked at. The last one
/// is looked at first.
pub ghost struct Analysis {
    pub outs: Seq<Facts>,
    pub work: Seq<usize>,
}

/// The worklist after the first `upto` of `succs` were added to it: each
/// instruction of the program that is not on the list yet goes to its end.
pub open spec fn enqueue(work: Seq<usize>, succs: Seq<usize>, upto: int, n: int) -> Seq<usize>
    decreases upto,
{
    if upto <= 0 {
        work
    } else {
        let before = enqueue(work, succs, upto - 1, n);
        let s = succs[upto - 1];
        if s < n && !before.contains(s) {
            before.push(s)
        } else {
            before
        }
    }
}

/// The worklist at the start: every instruction, the first one on top.
pub open spec fn all_nodes(n: int) -> Seq<usize> {
    Seq::new(n as nat, |i: int| (n - 1 - i) as usize)
}

impl CfgView {
    /// The facts before instruction `node`: the merge of the facts after
    /// its predecessors.
    pub open spec fn spec_ins(self, outs: Seq<Facts>, node: int) -> Facts {
        merge_all(outs, self.preds[node], self.preds[node].len() as int)
    }

    /// The facts after instruction `node`, computed from those after its
    /// predecessors.
    pub open spec fn spec_out(self, outs: Seq<Facts>, node: int) -> Result<Facts, Fault> {
        transfer(self.nodes[node], self.spec_ins(outs, node))
    }

    /// `outs` solves the dataflow equations: the facts after each
    /// instruction are what the instruction makes of the merged facts
    /// after its predecessors.
    pub open spec fn is_fixed_point(self, outs: Seq<Facts>) -> bool {
        &&& outs.len() == self.len()
        &&& forall|node: int|
            0 <= node < self.len() ==> #[trigger] self.spec_out(outs, node) == Ok::<Facts, Fault>(
                outs[node],
            )
    }

    /// The state before anything was looked at.
    pub open spec fn analysis_start(self) -> Analysis {
        Analysis {
            outs: Seq::new(self.len() as nat, |i: int| Map::<Seq<char>, Option<i32>>::empty()),
            work: all_nodes(self.len()),
        }
    }

    /// One step: the instruction on top of the worklist is taken off and
    /// its facts are computed anew; if they differ from what was stored,
    /// they are stored and its successors go on the worklist.
    pub open spec fn analysis_step(self, st: Analysis) -> Result<Analysis, Fault>
        recommends
            st.work.len() > 0,
    {
        let node = st.work.last();
        let rest = st.work.drop_last();
        match self.spec_out(st.outs, node as int) {
            Err(fault) => Err(fault),
            Ok(out) => if out == st.outs[node as int] {
                Ok(Analysis { outs: st.outs, work: rest })
            } else {
                Ok(
                    Analysis {
                        outs: st.outs.update(node as int, out),
                        work: enqueue(
                            rest,
                            self.succs[node as int],
                            self.succs[node as int].len() as int,
                            self.len(),
                        ),
                    },
                )
            },
        }
    }

    /// Steps repeated until the worklist is empty, a fault comes up, or
    /// `fuel` steps were made.
    pub open spec fn analysis_run(self, st: Analysis, fuel: nat) -> Result<Seq<Facts>, Fault>
        decreases fuel,
    {
        if st.work.len() == 0 {
            Ok(st.outs)
        } else if fuel == 0 {
            Err(Fault::StepLimit)
        } else {
            match self.analysis_step(st) {
                Err(fault) => Err(fault),
                Ok(next) => self.analysis_run(next, (fuel - 1) as nat),
            }
        }
    }

    /// The steps that constant propagation is given on a program of this
    /// length: one for each instruction, and four more for each pair of
    /// instructions.
    pub open spec fn analysis_budget(self) -> nat {
        (self.len() + 4 * self.len() * self.len()) as nat
    }

    /// What constant propagation finds within `fuel` steps.
    pub open spec fn spec_constant_propagation(self, fuel: nat) -> Result<Seq<Facts>, Fault> {
        self.analysis_run(self.analysis_start(), fuel)
    }

    /// What holds of every state of the algorithm: the worklist names
    /// instructions, each at most once, and every instruction that is not
    /// on it satisfies its dataflow equation.
    pub open spec fn analysis_inv(self, st: Analysis) -> bool {
        &&& st.outs.len() == self.len()
        &&& st.work.no_duplicates()
        &&& forall|k: int| 0 <= k < st.work.len() ==> #[trigger] st.work[k] < self.len()
        &&& forall|node: usize|
            node < self.len() && !st.work.contains(node) ==> #[trigger] self.spec_out(
                st.outs,
                node as int,
            ) == Ok::<Facts, Fault>(st.outs[node as int])
    }
}

/// The merged facts depend only on the facts after the merged nodes.
pub proof fn lemma_merge_all_local(a: Seq<Facts>, b: Seq<Facts>, preds: Seq<usize>, upto: int)
    requires
        0 <= upto <= preds.len(),
        forall|k: int| 0 <= k < upto ==> a[#[trigger] preds[k] as int] == b[preds[k] as int],
    ensures
        merge_all(a, preds, upto) == merge_all(b, preds, upto),
    decreases upto,
{
    if upto > 0 {
        lemma_merge_all_local(a, b, preds, upto - 1);
        assert(a[preds[upto - 1] as int] == b[preds[upto - 1] as int]);
    }
}

/// What `enqueue` keeps and what it adds.
pub proof fn lemma_enqueue(work: Seq<usize>, succs: Seq<usize>, upto: int, n: int)
    requires
        0 <= upto <= succs.len(),
        work.no_duplicates(),
        forall|k: int| 0 <= k < work.len() ==> #[trigger] work[k] < n,
    ensures
        enqueue(work, succs, upto, n).no_duplicates(),
        forall|k: int|
            0 <= k < enqueue(work, succs, upto, n).len() ==> #[trigger] enqueue(
                work,
                succs,
                upto,
                n,
            )[k] < n,
        forall|x: usize| work.contains(x) ==> #[trigger] enqueue(work, succs, upto, n).contains(x),
        forall|k: int|
            0 <= k < upto && succs[k] < n ==> enqueue(work, succs, upto, n).contains(
                #[trigger] succs[k],
            ),
        forall|x: usize| #[trigger]
            enqueue(work, succs, upto, n).contains(x) ==> work.contains(x) || exists|k: int|
                0 <= k < upto && succs[k] == x,
    decreases upto,
{
    if upto > 0 {
        lemma_enqueue(work, succs, upto - 1, n);
        let before = enqueue(work, succs, upto - 1, n);
        let after = enqueue(work, succs, upto, n);
        let s = succs[upto - 1];
        if s < n && !before.contains(s) {
            assert(after == before.push(s));
            assert(after[before.len() as int] == s);
            assert forall|x: usize| before.contains(x) implies after.contains(x) by {
                let k = choose|k: int| 0 <= k < before.len() && before[k] == x;
                assert(after[k] == x);
            }
            assert forall|x: usize| #[trigger] after.contains(x) implies work.contains(x)
                || exists|k: int| 0 <= k < upto && succs[k] == x by {
                let j = choose|j: int| 0 <= j < after.len() && after[j] == x;
                if j < before.len() {
                    assert(before[j] == x);
                    assert(before.contains(x));
                    if !work.contains(x) {
                        let k = choose|k: int| 0 <= k < upto - 1 && succs[k] == x;
                        assert(0 <= k < upto && succs[k] == x);
                    }
                } else {
                    assert(succs[upto - 1] == x);
                }
            }
        } else {
            assert forall|x: usize| #[trigger] after.contains(x) implies work.contains(x)
                || exists|k: int| 0 <= k < upto && succs[k] == x by {
                if !work.contains(x) {
                    let k = choose|k: int| 0 <= k < upto - 1 && succs[k] == x;
                    assert(0 <= k < upto && succs[k] == x);
                }
            }
        }
    }
}

impl CfgView {
    /// The state at the start satisfies the invariant.
    pub proof fn lemma_start_inv(self)
        requires
            self.wf(),
        ensures
            self.analysis_inv(self.analysis_start()),
    {
        let st = self.analysis_start();
        let n = self.len();
        assert forall|x: usize| x < n implies #[trigger] st.work.contains(x) by {
            assert(st.work[n - 1 - x] == x);
        }
        assert forall|i: int, j: int|
            0 <= i < st.work.len() && 0 <= j < st.work.len() && i != j implies st.work[i]
            != st.work[j] by {}
    }

    /// A step keeps the invariant.
    pub proof fn lemma_step_inv(self, st: Analysis)
        requires
            self.wf(),
            self.analysis_inv(st),
            st.work.len() > 0,
            self.analysis_step(st) is Ok,
        ensures
            self.analysis_inv(self.analysis_step(st)->Ok_0),
    {
        let next = self.analysis_step(st)->Ok_0;
        let node = st.work.last();
        let rest = st.work.drop_last();
        let out = self.spec_out(st.outs, node as int)->Ok_0;
        let n = self.len();
        assert(st.work[st.work.len() - 1] == node);
        assert(rest.no_duplicates());
        assert forall|x: usize| st.work.contains(x) && x != node implies rest.contains(x) by {
            let k = choose|k: int| 0 <= k < st.work.len() && st.work[k] == x;
            assert(rest[k] == x);
        }
        assert forall|x: usize| rest.contains(x) implies st.work.contains(x) && x != node by {
            let k = choose|k: int| 0 <= k < rest.len() && rest[k] == x;
            assert(st.work[k] == x);
        }
        if out == st.outs[node as int] {
            assert(next.work == rest);
            assert(next.outs == st.outs);
        } else {
            let succs = self.succs[node as int];
            lemma_enqueue(rest, succs, succs.len() as int, n);
            assert forall|m: usize| m < n && !next.work.contains(m) implies (
            #[trigger] self.spec_out(next.outs, m as int)) == Ok::<Facts, Fault>(
                next.outs[m as int],
            ) by {
                let preds = self.preds[m as int];
                assert forall|k: int| 0 <= k < preds.len() implies st.outs[#[trigger] preds[k] as int]
                    == next.outs[preds[k] as int] by {
                    if preds[k] == node {
                        assert(self.succs[self.preds[m as int][k] as int].contains(m));
                        let j = choose|j: int| 0 <= j < succs.len() && succs[j] == m;
                        assert(next.work.contains(succs[j]));
                    }
                }
                lemma_merge_all_local(st.outs, next.outs, preds, preds.len() as int);
                assert(self.spec_ins(st.outs, m as int) == self.spec_ins(next.outs, m as int));
                assert(self.spec_out(st.outs, m as int) == self.spec_out(next.outs, m as int));
                assert(!rest.contains(m));
                if m == node {
                    assert(self.spec_out(next.outs, m as int) == Ok::<Facts, Fault>(out));
                    assert(next.outs[m as int] == out);
                } else {
                    assert(!st.work.contains(m));
                    assert(next.outs[m as int] == st.outs[m as int]);
                    assert(self.spec_out(st.outs, m as int) == Ok::<Facts, Fault>(st.outs[m as int]));
                }
            }
        }
    }

    /// A run that ends well from a state that satisfies the invariant ends
    /// in a solution of the dataflow equations.
    pub proof fn lemma_run_fixed_point(self, st: Analysis, fuel: nat)
        requires
            self.wf(),
            self.analysis_inv(st),
            self.analysis_run(st, fuel) is Ok,
        ensures
            self.is_fixed_point(self.analysis_run(st, fuel)->Ok_0),
        decreases fuel,
    {
        if st.work.len() == 0 {
            assert forall|node: int| 0 <= node < self.len() implies #[trigger] self.spec_out(
                st.outs,
                node,
            ) == Ok::<Facts, Fault>(st.outs[node]) by {
                let u = node as usize;
                assert(!st.work.contains(u));
                assert(self.spec_out(st.outs, u as int) == Ok::<Facts, Fault>(st.outs[u as int]));
            }
        } else {
            self.lemma_step_inv(st);
            self.lemma_run_fixed_point(self.analysis_step(st)->Ok_0, (fuel - 1) as nat);
        }
    }
}

impl CfgView {
    /// Facts that constant propagation returns solve the dataflow
    /// equations, whatever the number of steps it is given.
    pub proof fn lemma_constant_propagation_fixed_point(self, fuel: nat)
        requires
            self.wf(),
            self.spec_constant_propagation(fuel) is Ok,
        ensures
            self.is_fixed_point(self.spec_constant_propagation(fuel)->Ok_0),
    {
        self.lemma_start_inv();
        self.lemma_run_fixed_point(self.analysis_start(), fuel);
    }

    /// Going over a solution of the dataflow equations again changes
    /// nothing: whichever instructions are looked at, in whatever order,
    /// the facts stay as they are.
    pub proof fn lemma_fixed_point_is_stable(self, outs: Seq<Facts>, work: Seq<usize>, fuel: nat)
        requires
            self.is_fixed_point(outs),
            forall|k: int| 0 <= k < work.len() ==> #[trigger] work[k] < self.len(),
            fuel >= work.len(),
        ensures
            self.analysis_run(Analysis { outs, work }, fuel) == Ok::<Seq<Facts>, Fault>(outs),
        decreases work.len(),
    {
        if work.len() > 0 {
            let node = work.last();
            assert(work[work.len() - 1] == node);
            assert(self.spec_out(outs, node as int) == Ok::<Facts, Fault>(outs[node as int]));
            let rest = work.drop_last();
            assert forall|k: int| 0 <= k < rest.len() implies #[trigger] rest[k] < self.len() by {
                assert(rest[k] == work[k]);
            }
            self.lemma_fixed_point_is_stable(outs, rest, (fuel - 1) as nat);
        }
    }
}

/// The facts `a` after the first `upto` of the given bindings were joined
/// into them, one by one.
pub open spec fn merge_prefix(
    a: Facts,
    names: Seq<Seq<char>>,
    values: Seq<Option<i32>>,
    upto: int,
) -> Facts
    decreases upto,
{
    if upto <= 0 {
        a
    } else {
        let m = merge_prefix(a, names, values, upto - 1);
        m.insert(names[upto - 1], join(lookup(m, names[upto - 1]), values[upto - 1]))
    }
}

/// Joining the bindings of a map in one by one gives the merge with the map.
pub proof fn lemma_merge_prefix(
    a: Facts,
    names: Seq<Seq<char>>,
    values: Seq<Option<i32>>,
    upto: int,
)
    requires
        names.no_duplicates(),
        names.len() == values.len(),
        0 <= upto <= names.len(),
    ensures
        merge_prefix(a, names, values, upto) == merge(
            a,
            entries_map(names.take(upto), values.take(upto)),
        ),
    decreases upto,
{
    if upto == 0 {
        assert(merge(a, entries_map(names.take(0), values.take(0))) =~= a);
    } else {
        lemma_merge_prefix(a, names, values, upto - 1);
        let k = names[upto - 1];
        let v = values[upto - 1];
        let shorter = entries_map(names.take(upto - 1), values.take(upto - 1));
        assert(!names.take(upto - 1).contains(k)) by {
            let shorter_names = names.take(upto - 1);
            if shorter_names.contains(k) {
                let j = choose|j: int| 0 <= j < shorter_names.len() && shorter_names[j] == k;
                assert(names[j] == names[upto - 1]);
            }
        }
        lemma_push(names.take(upto - 1), values.take(upto - 1), k, v);
        assert(names.take(upto) =~= names.take(upto - 1).push(k));
        assert(values.take(upto) =~= values.take(upto - 1).push(v));
        assert(merge_prefix(a, names, values, upto) =~= merge(a, shorter.insert(k, v)));
    }
}

/// The facts found after one instruction.
#[derive(Debug)]
pub struct ConstMap {
    /// For each variable of which something is known: `Some` of the
    /// constant it holds, or `None` if it is not a constant.
    pub outs: NameMap<Option<i32>>,
}

impl ConstMap {
    /// No facts.
    pub fn new() -> (m: Self)
        ensures
            m.outs@ == Map::<Seq<char>, Option<i32>>::empty(),
    {
        ConstMap { outs: NameMap::new() }
    }
}

/// The facts that a list of [`ConstMap`]s holds, in order.
pub open spec fn facts_of(maps: Seq<ConstMap>) -> Seq<Facts> {
    maps.map_values(|m: ConstMap| m.outs@)
}

/// Whether an operand is known to hold a constant.
pub fn is_constant(ins: &NameMap<Option<i32>>, tok: &Token) -> (known: bool)
    ensures
        known == constant_of(ins@, tok@) is Some,
{
    match tok.ty {
        TokenType::NumLiteral(_) => true,
        TokenType::Ident => match ins.get(&tok.string) {
            Some(fact) => fact.is_some(),
            None => false,
        },
        _ => false,
    }
}

/// The constant that an operand is known to hold, if any.
pub fn get_constant_var(ins: &NameMap<Option<i32>>, tok: &Token) -> (value: Option<i32>)
    ensures
        value == constant_of(ins@, tok@),
{
    match tok.ty {
        TokenType::NumLiteral(n) => Some(n),
        TokenType::Ident => match ins.get(&tok.string) {
            Some(fact) => *fact,
            None => None,
        },
        _ => None,
    }
}

/// Joins the facts of `from` into `ins`.
fn merge_into(ins: &mut NameMap<Option<i32>>, from: &NameMap<Option<i32>>)
    ensures
        final(ins)@ == merge(old(ins)@, from@),
{
    let n = from.len();
    let ghost start = ins@;
    let ghost names = from.names();
    let ghost values = from.values();
    proof {
        from.lemma_entries();
    }
    let mut i: usize = 0;
    while i < n
        invariant
            i <= n,
            n == names.len(),
            n == values.len(),
            names == from.names(),
            values == from.values(),
            ins@ == merge_prefix(start, names, values, i as int),
        decreases n - i,
    {
        let name = from.name_at(i);
        let fact = *from.value_at(i);
        let joined = match ins.get(name) {
            None => fact,
            Some(seen) => match (*seen, fact) {
                (Some(c), Some(f)) => if c == f {
                    Some(c)
                } else {
                    None
                },
                _ => None,
            },
        };
        ins.insert(name.clone(), joined);
        i += 1;
    }
    proof {
        lemma_merge_prefix(start, names, values, n as int);
        assert(names.take(n as int) =~= names);
        assert(values.take(n as int) =~= values);
    }
}

/// Whether every fact of `a` is a fact of `b`.
fn facts_included(a: &NameMap<Option<i32>>, b: &NameMap<Option<i32>>) -> (all: bool)
    ensures
        all == (forall|k: Seq<char>| #[trigger]
            a@.contains_key(k) ==> b@.contains_key(k) && b@[k] == a@[k]),
{
    let n = a.len();
    proof {
        a.lemma_entries();
    }
    let mut i: usize = 0;
    while i < n
        invariant
            i <= n,
            n == a.names().len(),
            n == a.values().len(),
            a.wf(),
            forall|j: int|
                0 <= j < i ==> b@.contains_key(#[trigger] a.names()[j]) && b@[a.names()[j]]
                    == a.values()[j],
        decreases n - i,
    {
        let name = a.name_at(i);
        let fact = *a.value_at(i);
        let same = match b.get(name) {
            None => false,
            Some(other) => match (*other, fact) {
                (Some(x), Some(y)) => x == y,
                (None, None) => true,
                _ => false,
            },
        };
        if !same {
            proof {
                a.lemma_entries();
                assert(a@.contains_key(a.names()[i as int]));
            }
            return false;
        }
        i += 1;
    }
    proof {
        a.lemma_entries();
    }
    true
}

/// Whether two maps hold the same facts.
fn facts_equal(a: &NameMap<Option<i32>>, b: &NameMap<Option<i32>>) -> (same: bool)
    ensures
        same == (a@ == b@),
{
    let same = facts_included(a, b) && facts_included(b, a);
    proof {
        if same {
            assert(a@ =~= b@);
        }
    }
    same
}

/// Applies an instruction to the facts before it.
fn transfer_in_place(op: &Operation, ins: &mut NameMap<Option<i32>>) -> (done: Result<(), Fault>)
    ensures
        match transfer(op@, old(ins)@) {
            Ok(out) => done is Ok && final(ins)@ == out,
            Err(fault) => done == Err::<(), Fault>(fault),
        },
{
    match op {
        Operation::Copy(dist, operand) => {
            let operand_val = get_constant_var(ins, operand);
            if is_constant(ins, operand) {
                ins.insert(dist.string.clone(), Some(operand_val.unwrap()));
            } else {
                ins.insert(dist.string.clone(), None);
            }
            Ok(())
        },
        _ => match op.binary_parts() {
            Some((kind, dist, operand1, operand2)) => {
                let operand1_val = get_constant_var(ins, operand1);
                let operand2_val = get_constant_var(ins, operand2);
                if is_constant(ins, operand1) && is_constant(ins, operand2) {
                    match kind.apply(operand1_val.unwrap(), operand2_val.unwrap()) {
                        Ok(ret) => {
                            ins.insert(dist.string.clone(), Some(ret));
                            Ok(())
                        },
                        Err(fault) => Err(fault),
                    }
                } else {
                    ins.insert(dist.string.clone(), None);
                    Ok(())
                }
            },
            None => Ok(()),
        },
    }
}

impl Cfg {
    /// Constant propagation: for each instruction, what is known of the
    /// variables right after it.
    ///
    /// The facts are found by the worklist algorithm of
    /// [`CfgView::analysis_run`], which is given the steps of
    /// [`CfgView::analysis_budget`]; a run that needs more is given up with
    /// [`Fault::StepLimit`]. Facts that are returned solve the dataflow
    /// equations.
    pub fn constant_propagation(&self) -> (found: Result<Vec<ConstMap>, Fault>)
        requires
            self@.wf(),
        ensures
            match self@.spec_constant_propagation(self@.analysis_budget()) {
                Ok(outs) => found matches Ok(maps) && facts_of(maps@) == outs,
                Err(fault) => found matches Err(f) && f == fault,
            },
            found matches Ok(maps) ==> self@.is_fixed_point(facts_of(maps@)),
    {
        let n = self.nodes.len() as u64;
        assert(n + 4 * n * n <= u64::MAX) by (nonlinear_arith)
            requires
                0 <= n <= 0x7fff_ffff,
        ;
        assert(4 * n * n <= u64::MAX && n * n <= u64::MAX) by (nonlinear_arith)
            requires
                0 <= n <= 0x7fff_ffff,
        ;
        self.constant_propagation_within(n + 4 * n * n)
    }

    /// Constant propagation that gives up with [`Fault::StepLimit`] when
    /// the worklist is not empty after `budget` steps.
    pub fn constant_propagation_within(&self, budget: u64) -> (found: Result<Vec<ConstMap>, Fault>)
        requires
            self@.wf(),
        ensures
            match self@.spec_constant_propagation(budget as nat) {
                Ok(outs) => found matches Ok(maps) && facts_of(maps@) == outs,
                Err(fault) => found matches Err(f) && f == fault,
            },
            found matches Ok(maps) ==> self@.is_fixed_point(facts_of(maps@)),
    {
        let n = self.nodes.len();
        let mut const_maps: Vec<ConstMap> = Vec::new();
        let mut worklist: Vec<usize> = Vec::new();
        let mut queued: Vec<bool> = Vec::new();
        let mut i: usize = 0;
        while i < n
            invariant
                i <= n,
                n == self@.len(),
                const_maps@.len() == i,
                worklist@.len() == i,
                queued@.len() == i,
                forall|k: int|
                    0 <= k < i ==> (#[trigger] const_maps@[k]).outs@ == Map::<
                        Seq<char>,
                        Option<i32>,
                    >::empty(),
                forall|k: int| 0 <= k < i ==> #[trigger] worklist@[k] == (n - 1 - k) as usize,
                forall|k: int| 0 <= k < i ==> #[trigger] queued@[k],
            decreases n - i,
        {
            const_maps.push(ConstMap::new());
            worklist.push(n - 1 - i);
            queued.push(true);
            i += 1;
        }
        let ghost mut st = self@.analysis_start();
        proof {
            self@.lemma_start_inv();
            assert(worklist@ =~= st.work);
            assert(facts_of(const_maps@) =~= st.outs);
            assert forall|x: usize| x < n implies st.work.contains(x) by {
                assert(st.work[n - 1 - x] == x);
            }
        }
        let mut steps: u64 = 0;
        loop
            invariant
                self@.wf(),
                n == self@.len(),
                steps <= budget,
                self@.analysis_inv(st),
                const_maps@.len() == n,
                facts_of(const_maps@) == st.outs,
                worklist@ == st.work,
                queued@.len() == n,
                forall|x: usize| x < n ==> (#[trigger] queued@[x as int] <==> st.work.contains(x)),
                self@.analysis_run(st, (budget - steps) as nat) == self@.spec_constant_propagation(
                    budget as nat,
                ),
            decreases budget - steps,
        {
            if worklist.len() == 0 {
                proof {
                    self@.lemma_run_fixed_point(st, (budget - steps) as nat);
                }
                return Ok(const_maps);
            }
            if steps == budget {
                return Err(Fault::StepLimit);
            }
            steps += 1;
            let ghost rest = st.work.drop_last();
            let node = worklist.pop().unwrap();
            assert(st.work[st.work.len() - 1] == node);
            queued.set(node, false);
            proof {
                assert forall|x: usize| x < n implies (#[trigger] queued@[x as int] <==> rest.contains(
                    x,
                )) by {
                    if rest.contains(x) {
                        let k = choose|k: int| 0 <= k < rest.len() && rest[k] == x;
                        assert(st.work[k] == x);
                    }
                    if st.work.contains(x) && x != node {
                        let k = choose|k: int| 0 <= k < st.work.len() && st.work[k] == x;
                        assert(rest[k] == x);
                    }
                }
            }
            let mut ins: NameMap<Option<i32>> = NameMap::new();
            let preds = &self.preds[node];
            let mut k: usize = 0;
            while k < preds.len()
                invariant
                    k <= preds@.len(),
                    self@.wf(),
                    n == self@.len(),
                    node < n,
                    preds@ == self@.preds[node as int],
                    const_maps@.len() == n,
                    facts_of(const_maps@) == st.outs,
                    ins@ == merge_all(st.outs, preds@, k as int),
                decreases preds@.len() - k,
            {
                let p = preds[k];
                assert(self@.preds[node as int][k as int] < n);
                assert(facts_of(const_maps@)[p as int] == const_maps@[p as int].outs@);
                merge_into(&mut ins, &const_maps[p].outs);
                k += 1;
            }
            assert(ins@ == self@.spec_ins(st.outs, node as int));
            match transfer_in_place(&self.nodes[node], &mut ins) {
                Err(fault) => {
                    return Err(fault);
                },
                Ok(()) => {},
            }
            assert(self@.spec_out(st.outs, node as int) == Ok::<Facts, Fault>(ins@));
            assert(facts_of(const_maps@)[node as int] == const_maps@[node as int].outs@);
            let changed = !facts_equal(&ins, &const_maps[node].outs);
            proof {
                self@.lemma_step_inv(st);
            }
            if changed {
                let ghost out = ins@;
                const_maps.set(node, ConstMap { outs: ins });
                assert(facts_of(const_maps@) =~= st.outs.update(node as int, out));
                let succs = &self.succs[node];
                let mut j: usize = 0;
                while j < succs.len()
                    invariant
                        j <= succs@.len(),
                        n == self@.len(),
                        node < n,
                        self@.wf(),
                        succs@ == self@.succs[node as int],
                        queued@.len() == n,
                        worklist@ == enqueue(rest, succs@, j as int, n as int),
                        forall|x: usize|
                            x < n ==> (#[trigger] queued@[x as int] <==> worklist@.contains(x)),
                    decreases succs@.len() - j,
                {
                    let s = succs[j];
                    if s < n && !queued[s] {
                        let ghost before = worklist@;
                        queued.set(s, true);
                        worklist.push(s);
                        proof {
                            assert(worklist@[before.len() as int] == s);
                            assert forall|x: usize| x < n implies (#[trigger] queued@[x as int]
                                <==> worklist@.contains(x)) by {
                                if before.contains(x) {
                                    let t = choose|t: int| 0 <= t < before.len() && before[t] == x;
                                    assert(worklist@[t] == x);
                                }
                                if worklist@.contains(x) && x != s {
                                    let t = choose|t: int|
                                        0 <= t < worklist@.len() && worklist@[t] == x;
                                    assert(before[t] == x);
                                }
                            }
                        }
                    }
                    j += 1;
                }
            }
            proof {
                st = self@.analysis_step(st)->Ok_0;
            }
        }
    }
}

/// What folding makes of an instruction, given the facts after it: an
/// instruction whose destination is proved to hold a constant becomes a
/// copy of that constant. A copy of a number is left as it is.
pub open spec fn fold_op(op: OpView, facts: Facts) -> OpView {
    match op {
        OpView::Copy { dst, src } => match lookup(facts, dst.string) {
            Some(Some(n)) if src.ty is Ident => OpView::Copy { dst, src: num_token(n, None) },
            _ => op,
        },
        OpView::Binary { dst, .. } => match lookup(facts, dst.string) {
            Some(Some(n)) => OpView::Copy { dst, src: num_token(n, None) },
            _ => op,
        },
        _ => op,
    }
}

/// Every instruction of `code` folded with the facts after it.
pub open spec fn fold_code(code: Seq<OpView>, outs: Seq<Facts>) -> Seq<OpView> {
    Seq::new(code.len(), |i: int| fold_op(code[i], outs[i]))
}

/// The program that constant folding makes of `code`: its control-flow
/// graph is built, constants are propagated over it, and each instruction
/// is folded with the facts found after it.
pub open spec fn spec_constant_folding(code: Seq<OpView>, labels: Map<Seq<char>, i32>) -> Result<
    Seq<OpView>,
    Fault,
> {
    if code.len() > max_program_len() {
        Err(Fault::ProgramTooLong)
    } else {
        match first_fault(code, labels, 0) {
            Some(fault) => Err(fault),
            None => match graph_of(code, labels).spec_constant_propagation(
                graph_of(code, labels).analysis_budget(),
            ) {
                Ok(outs) => Ok(fold_code(code, outs)),
                Err(fault) => Err(fault),
            },
        }
    }
}

/// The instruction that replaces `op` when folded with `facts`, if any.
fn folded(op: &Operation, facts: &ConstMap) -> (new_op: Option<Operation>)
    ensures
        match new_op {
            Some(o) => o@ == fold_op(op@, facts.outs@),
            None => op@ == fold_op(op@, facts.outs@),
        },
{
    let dist = match op {
        Operation::Copy(dist, operand) => {
            if operand.ty == TokenType::Ident {
                dist
            } else {
                return None;
            }
        },
        _ => match op.binary_parts() {
            Some((_, dist, _, _)) => dist,
            None => {
                return None;
            },
        },
    };
    match facts.outs.get(&dist.string) {
        Some(Some(n)) => Some(Operation::Copy(dist.clone(), Token::new_num(*n, None))),
        _ => None,
    }
}

impl Parser {
    /// Constant folding: replaces every instruction whose destination is
    /// proved constant right after it by a copy of that constant. The
    /// instructions keep their positions. On a fault nothing changes.
    pub fn optimize_constant_folding(&mut self, var_map: &mut VariableMap) -> (done: Result<
        (),
        Fault,
    >)
        ensures
            *final(var_map) == *old(var_map),
            *final(self) == old(self).with_code(final(self).internal_code),
            match spec_constant_folding(ops_view(old(self).internal_code@), old(var_map)@.labels) {
                Ok(code) => done is Ok && ops_view(final(self).internal_code@) == code,
                Err(fault) => done == Err::<(), Fault>(fault) && final(self).internal_code == old(
                    self,
                ).internal_code,
            },
    {
        let cfg = match ic_to_cfg(&self.internal_code, var_map) {
            Ok(cfg) => cfg,
            Err(fault) => {
                return Err(fault);
            },
        };
        let const_maps = match cfg.constant_propagation() {
            Ok(maps) => maps,
            Err(fault) => {
                return Err(fault);
            },
        };
        let ghost code = ops_view(self.internal_code@);
        let ghost outs = facts_of(const_maps@);
        let n = self.internal_code.len();
        let mut i: usize = 0;
        while i < n
            invariant
                i <= n,
                n == code.len(),
                self.internal_code@.len() == n,
                const_maps@.len() == n,
                outs == facts_of(const_maps@),
                *self == old(self).with_code(self.internal_code),
                forall|k: int|
                    0 <= k < i ==> (#[trigger] self.internal_code@[k])@ == fold_op(code[k], outs[k]),
                forall|k: int| i <= k < n ==> (#[trigger] self.internal_code@[k])@ == code[k],
            decreases n - i,
        {
            if let Some(op) = folded(&self.internal_code[i], &const_maps[i]) {
                self.internal_code[i] = op;
            }
            i += 1;
        }
        assert(ops_view(self.internal_code@) =~= fold_code(code, outs));
        Ok(())
    }
}

} // verus!
