//! The control-flow graph of a program.

use crate::error::Fault;
use crate::parser::{ops_view, OpView, Operation};
use crate::var_map::VariableMap;
use vstd::prelude::*;

verus! {

/// The control-flow graph of a program of `nodes.len()` instructions. Node
/// `i` is instruction `i`; the node after the last instruction stands for
/// the end of the program.
#[derive(Debug)]
pub struct Cfg {
    /// The nodes that control can pass to from each node.
    pub succs: Vec<Vec<usize>>,
    /// The nodes that control can come from to each node.
    pub preds: Vec<Vec<usize>>,
    /// The instructions.
    pub nodes: Vec<Operation>,
}

/// The most instructions a program may have: a label holds an `i32`.
pub open spec fn max_program_len() -> int {
    i32::MAX as int
}

/// Where a jump to `label` lands in a program of `n` instructions.
pub open spec fn jump_target(labels: Map<Seq<char>, i32>, label: Seq<char>, n: int) -> Result<
    usize,
    Fault,
> {
    if !labels.contains_key(label) {
        Err(Fault::UndefinedLabel)
    } else if !(0 <= labels[label] <= n) {
        Err(Fault::LabelOutOfRange)
    } else {
        Ok(labels[label] as usize)
    }
}

/// The successors of instruction `i`: a `Goto` passes control to its target
/// alone, an `IfGoto` to its target and to the next instruction, every
/// other instruction to the next instruction alone.
pub open spec fn spec_succs(ops: Seq<OpView>, labels: Map<Seq<char>, i32>, i: int) -> Result<
    Seq<usize>,
    Fault,
>
    recommends
        0 <= i < ops.len(),
{
    match ops[i] {
        OpView::Goto { label } => match jump_target(labels, label.string, ops.len() as int) {
            Ok(target) => Ok(seq![target]),
            Err(fault) => Err(fault),
        },
        OpView::IfGoto { label, .. } => match jump_target(labels, label.string, ops.len() as int) {
            Ok(target) => Ok(seq![target, (i + 1) as usize]),
            Err(fault) => Err(fault),
        },
        _ => Ok(seq![(i + 1) as usize]),
    }
}

/// Every instruction but a `Goto` has one edge to the instruction after
/// it; a `Goto` has none. A `Goto` and an `IfGoto` have one more edge, to
/// the instruction that their label stands for, and it comes first.
pub proof fn lemma_successors(ops: Seq<OpView>, labels: Map<Seq<char>, i32>, i: int)
    requires
        0 <= i < ops.len() <= max_program_len(),
        spec_succs(ops, labels, i) is Ok,
    ensures
        ({
            let succs = spec_succs(ops, labels, i)->Ok_0;
            match ops[i] {
                OpView::Goto { label } => succs.len() == 1 && succs[0] == labels[label.string],
                OpView::IfGoto { label, .. } => succs.len() == 2 && succs[0]
                    == labels[label.string] && succs[1] == i + 1,
                _ => succs.len() == 1 && succs[0] == i + 1,
            }
        }),
{
}

/// The fault of the first instruction at or after `i` whose jump cannot be
/// resolved, if there is one.
pub open spec fn first_fault(ops: Seq<OpView>, labels: Map<Seq<char>, i32>, i: int) -> Option<
    Fault,
>
    decreases ops.len() - i,
{
    if i < 0 || i >= ops.len() {
        None
    } else {
        match spec_succs(ops, labels, i) {
            Err(fault) => Some(fault),
            Ok(_) => first_fault(ops, labels, i + 1),
        }
    }
}

/// One copy of `from` for each time `node` occurs in `targets`.
pub open spec fn edges_into(targets: Seq<usize>, node: usize, from: usize) -> Seq<usize>
    decreases targets.len(),
{
    if targets.len() == 0 {
        Seq::empty()
    } else if targets.last() == node {
        edges_into(targets.drop_last(), node, from).push(from)
    } else {
        edges_into(targets.drop_last(), node, from)
    }
}

/// The predecessors of `node` among the first `upto` nodes: each node that
/// has `node` as a successor, in ascending order, once per edge.
pub open spec fn spec_preds(succs: Seq<Seq<usize>>, node: usize, upto: int) -> Seq<usize>
    decreases upto,
{
    if upto <= 0 {
        Seq::empty()
    } else {
        spec_preds(succs, node, upto - 1) + edges_into(succs[upto - 1], node, (upto - 1) as usize)
    }
}

/// The successor lists of a graph.
pub open spec fn succ_lists(succs: Seq<Vec<usize>>) -> Seq<Seq<usize>> {
    succs.map_values(|s: Vec<usize>| s@)
}

/// The mathematical content of a [`Cfg`].
pub ghost struct CfgView {
    pub succs: Seq<Seq<usize>>,
    pub preds: Seq<Seq<usize>>,
    pub nodes: Seq<OpView>,
}

impl View for Cfg {
    type V = CfgView;

    open spec fn view(&self) -> CfgView {
        CfgView {
            succs: succ_lists(self.succs@),
            preds: succ_lists(self.preds@),
            nodes: ops_view(self.nodes@),
        }
    }
}

impl CfgView {
    /// The number of instructions.
    pub open spec fn len(self) -> int {
        self.nodes.len() as int
    }

    /// The graph has a node for each instruction and one for the end of the
    /// program, the program is not too long, every edge leads to a node,
    /// and each predecessor of a node has that node as a successor.
    pub open spec fn wf(self) -> bool {
        &&& self.len() <= max_program_len()
        &&& self.succs.len() == self.len() + 1
        &&& self.preds.len() == self.len() + 1
        &&& forall|i: int, k: int|
            0 <= i <= self.len() && 0 <= k < self.succs[i].len() ==> #[trigger] self.succs[i][k]
                <= self.len()
        &&& forall|j: int, k: int|
            0 <= j <= self.len() && 0 <= k < self.preds[j].len() ==> (#[trigger] self.preds[j][k])
                < self.len() && self.succs[self.preds[j][k] as int].contains(j as usize)
    }
}

/// The successors of every node of the program `ops`; the node after the
/// last instruction has none.
pub open spec fn all_succs(ops: Seq<OpView>, labels: Map<Seq<char>, i32>) -> Seq<Seq<usize>> {
    Seq::new(
        ops.len() + 1,
        |i: int|
            if i < ops.len() {
                spec_succs(ops, labels, i)->Ok_0
            } else {
                Seq::empty()
            },
    )
}

/// The control-flow graph of the program `ops` under `labels`, where every
/// jump can be resolved.
pub open spec fn graph_of(ops: Seq<OpView>, labels: Map<Seq<char>, i32>) -> CfgView {
    CfgView {
        succs: all_succs(ops, labels),
        preds: Seq::new(
            ops.len() + 1,
            |j: int| spec_preds(all_succs(ops, labels), j as usize, ops.len() as int),
        ),
        nodes: ops,
    }
}

impl Cfg {
    /// A graph with `ops` as its instructions and no edges yet.
    fn new(ops: Vec<Operation>) -> (cfg: Self)
        requires
            ops@.len() <= max_program_len(),
        ensures
            cfg.nodes == ops,
            cfg.succs@.len() == ops@.len() + 1,
            cfg.preds@.len() == ops@.len() + 1,
            forall|i: int| 0 <= i <= ops@.len() ==> (#[trigger] cfg.succs@[i])@.len() == 0,
            forall|i: int| 0 <= i <= ops@.len() ==> (#[trigger] cfg.preds@[i])@.len() == 0,
    {
        let n = ops.len() + 1;
        let mut succs: Vec<Vec<usize>> = Vec::new();
        let mut preds: Vec<Vec<usize>> = Vec::new();
        let mut i: usize = 0;
        while i < n
            invariant
                i <= n,
                succs@.len() == i,
                preds@.len() == i,
                forall|k: int| 0 <= k < i ==> (#[trigger] succs@[k])@.len() == 0,
                forall|k: int| 0 <= k < i ==> (#[trigger] preds@[k])@.len() == 0,
            decreases n - i,
        {
            succs.push(Vec::new());
            preds.push(Vec::new());
            i += 1;
        }
        Cfg { succs, preds, nodes: ops }
    }
}

/// A node occurs among the edges into it exactly when it is a target.
pub proof fn lemma_edges_into(targets: Seq<usize>, node: usize, from: usize)
    ensures
        edges_into(targets, node, from).len() > 0 <==> targets.contains(node),
        forall|k: int|
            0 <= k < edges_into(targets, node, from).len() ==> #[trigger] edges_into(
                targets,
                node,
                from,
            )[k] == from,
    decreases targets.len(),
{
    if targets.len() > 0 {
        let init = targets.drop_last();
        lemma_edges_into(init, node, from);
        if init.contains(node) {
            let k = choose|k: int| 0 <= k < init.len() && init[k] == node;
            assert(targets[k] == node);
        }
        if targets.contains(node) && targets.last() != node {
            let k = choose|k: int| 0 <= k < targets.len() && targets[k] == node;
            assert(init[k] == node);
        }
        if targets.last() == node {
            assert(targets[targets.len() - 1] == node);
        }
    }
}

/// Every predecessor is an earlier node that has `node` among its
/// successors.
pub proof fn lemma_preds_are_edges(succs: Seq<Seq<usize>>, node: usize, upto: int)
    requires
        0 <= upto <= succs.len(),
        upto <= usize::MAX,
    ensures
        forall|k: int|
            0 <= k < spec_preds(succs, node, upto).len() ==> (#[trigger] spec_preds(
                succs,
                node,
                upto,
            )[k]) < upto && succs[spec_preds(succs, node, upto)[k] as int].contains(node),
    decreases upto,
{
    if upto > 0 {
        lemma_preds_are_edges(succs, node, upto - 1);
        lemma_edges_into(succs[upto - 1], node, (upto - 1) as usize);
        let earlier = spec_preds(succs, node, upto - 1);
        let last = edges_into(succs[upto - 1], node, (upto - 1) as usize);
        assert forall|k: int| 0 <= k < spec_preds(succs, node, upto).len() implies (
        #[trigger] spec_preds(succs, node, upto)[k]) < upto && succs[spec_preds(
            succs,
            node,
            upto,
        )[k] as int].contains(node) by {
            if k < earlier.len() {
                assert(spec_preds(succs, node, upto)[k] == earlier[k]);
            } else {
                assert(spec_preds(succs, node, upto)[k] == last[k - earlier.len()]);
            }
        }
    }
}

/// Builds the control-flow graph of `ops`, resolving jumps through the
/// label table of `var_map`.
pub fn ic_to_cfg(ops: &Vec<Operation>, var_map: &mut VariableMap) -> (graph: Result<Cfg, Fault>)
    ensures
        *final(var_map) == *old(var_map),
        match graph {
            Ok(cfg) => {
                &&& ops@.len() <= max_program_len()
                &&& first_fault(ops_view(ops@), old(var_map)@.labels, 0) is None
                &&& cfg.nodes@ == ops@
                &&& cfg@ == graph_of(ops_view(ops@), old(var_map)@.labels)
                &&& cfg@.wf()
            },
            Err(fault) => if ops@.len() > max_program_len() {
                fault == Fault::ProgramTooLong
            } else {
                first_fault(ops_view(ops@), old(var_map)@.labels, 0) == Some(fault)
            },
        },
{
    let n = ops.len();
    if n > 0x7fff_ffff {
        return Err(Fault::ProgramTooLong);
    }
    let ghost code = ops_view(ops@);
    let ghost labels = var_map@.labels;
    let mut cfg = Cfg::new(ops.clone());
    assert(cfg.nodes@ =~= ops@);
    let mut i: usize = 0;
    while i < n
        invariant
            i <= n,
            n == ops@.len(),
            n <= max_program_len(),
            *var_map == *old(var_map),
            labels == var_map@.labels,
            code == ops_view(ops@),
            cfg.nodes@ == ops@,
            cfg.succs@.len() == n + 1,
            cfg.preds@.len() == n + 1,
            first_fault(code, labels, 0) == first_fault(code, labels, i as int),
            forall|k: int|
                0 <= k < i ==> spec_succs(code, labels, k) == Ok::<Seq<usize>, Fault>(
                    #[trigger] cfg.succs@[k]@,
                ),
            forall|k: int| i <= k <= n ==> (#[trigger] cfg.succs@[k])@.len() == 0,
            forall|j: int|
                0 <= j <= n ==> (#[trigger] cfg.preds@[j])@ == spec_preds(
                    succ_lists(cfg.succs@),
                    j as usize,
                    i as int,
                ),
        decreases n - i,
    {
        let ghost succs0 = succ_lists(cfg.succs@);
        let ghost raw_succs = cfg.succs@;
        let ghost preds0 = cfg.preds@;
        let mut targets: Vec<usize> = Vec::new();
        let mut falls_through = true;
        match &ops[i] {
            Operation::Goto(label) => {
                let target = match resolve(var_map, label, n) {
                    Ok(target) => target,
                    Err(fault) => {
                        return Err(fault);
                    },
                };
                targets.push(target);
                falls_through = false;
            },
            Operation::IfGoto(_, label) => {
                let target = match resolve(var_map, label, n) {
                    Ok(target) => target,
                    Err(fault) => {
                        return Err(fault);
                    },
                };
                targets.push(target);
            },
            _ => {},
        }
        if falls_through {
            targets.push(i + 1);
        }
        assert(spec_succs(code, labels, i as int) == Ok::<Seq<usize>, Fault>(targets@)) by {
            assert(code[i as int] == ops@[i as int]@);
            assert(spec_succs(code, labels, i as int)->Ok_0 =~= targets@);
        }
        let mut k: usize = 0;
        while k < targets.len()
            invariant
                k <= targets@.len(),
                i < n,
                cfg.nodes@ == ops@,
                cfg.succs@.len() == n + 1,
                cfg.preds@.len() == n + 1,
                succ_lists(cfg.succs@) == succs0,
                cfg.succs@ == raw_succs,
                preds0.len() == n + 1,
                forall|t: int| 0 <= t < targets@.len() ==> #[trigger] targets@[t] <= n,
                forall|j: int|
                    0 <= j <= n ==> (#[trigger] cfg.preds@[j])@ == preds0[j]@ + edges_into(
                        targets@.subrange(0, k as int),
                        j as usize,
                        i,
                    ),
            decreases targets@.len() - k,
        {
            let target = targets[k];
            let ghost before = cfg.preds@;
            cfg.preds[target].push(i);
            proof {
                assert forall|j: int| 0 <= j <= n implies (#[trigger] cfg.preds@[j])@ == preds0[j]@
                    + edges_into(targets@.subrange(0, k + 1), j as usize, i) by {
                    let wider = targets@.subrange(0, k + 1);
                    assert(wider.drop_last() =~= targets@.subrange(0, k as int));
                    assert(wider.last() == target);
                    if j == target {
                        assert(cfg.preds@[j]@ =~= before[j]@.push(i));
                    } else {
                        assert(cfg.preds@[j] == before[j]);
                    }
                }
            }
            k += 1;
        }
        assert(targets@.subrange(0, targets@.len() as int) =~= targets@);
        cfg.succs[i] = targets;
        proof {
            let succs1 = succ_lists(cfg.succs@);
            assert(succs1 =~= succs0.update(i as int, targets@));
            assert forall|k: int| i + 1 <= k <= n implies (#[trigger] cfg.succs@[k])@.len() == 0 by {
                assert(cfg.succs@[k] == raw_succs[k]);
            }
            assert forall|j: int| 0 <= j <= n implies (#[trigger] cfg.preds@[j])@ == spec_preds(
                succs1,
                j as usize,
                i + 1,
            ) by {
                lemma_preds_ignore_later(succs0, succs1, j as usize, i as int);
            }
            assert forall|k: int| 0 <= k < i + 1 implies spec_succs(code, labels, k) == Ok::<
                Seq<usize>,
                Fault,
            >(#[trigger] cfg.succs@[k]@) by {
                if k < i {
                    assert(succs1[k] == succs0[k]);
                }
            }
        }
        i += 1;
    }
    proof {
        let g = cfg@;
        let want = graph_of(code, labels);
        assert(g.succs =~= want.succs) by {
            assert forall|a: int| 0 <= a <= n implies g.succs[a] == want.succs[a] by {
                if a < n {
                    assert(spec_succs(code, labels, a) == Ok::<Seq<usize>, Fault>(cfg.succs@[a]@));
                } else {
                    assert(cfg.succs@[a]@ =~= Seq::<usize>::empty());
                }
            }
        }
        assert(g.preds =~= want.preds);
        assert forall|j: int, k: int| 0 <= j <= g.len() && 0 <= k < g.preds[j].len() implies (
        #[trigger] g.preds[j][k]) < g.len() && g.succs[g.preds[j][k] as int].contains(
            j as usize,
        ) by {
            lemma_preds_are_edges(g.succs, j as usize, n as int);
        }
        assert forall|a: int, k: int|
            0 <= a <= g.len() && 0 <= k < g.succs[a].len() implies #[trigger] g.succs[a][k]
            <= g.len() by {
            if a < n {
                assert(spec_succs(code, labels, a) == Ok::<Seq<usize>, Fault>(cfg.succs@[a]@));
            }
        }
    }
    Ok(cfg)
}

/// The predecessors among the first `upto` nodes depend on the successor
/// lists of those nodes alone.
pub proof fn lemma_preds_ignore_later(
    a: Seq<Seq<usize>>,
    b: Seq<Seq<usize>>,
    node: usize,
    upto: int,
)
    requires
        0 <= upto <= a.len(),
        a.len() == b.len(),
        forall|i: int| 0 <= i < upto ==> a[i] == b[i],
    ensures
        spec_preds(a, node, upto) == spec_preds(b, node, upto),
    decreases upto,
{
    if upto > 0 {
        lemma_preds_ignore_later(a, b, node, upto - 1);
    }
}

/// Resolves a jump label to a node of a program of `n` instructions.
fn resolve(var_map: &mut VariableMap, label: &crate::lexer::Token, n: usize) -> (target: Result<
    usize,
    Fault,
>)
    requires
        n <= max_program_len(),
    ensures
        *final(var_map) == *old(var_map),
        target == jump_target(old(var_map)@.labels, label@.string, n as int),
{
    match var_map.label_get(label) {
        Err(fault) => Err(fault),
        Ok(line) => {
            if line < 0 || line as usize > n {
                Err(Fault::LabelOutOfRange)
            } else {
                Ok(line as usize)
            }
        },
    }
}

} // verus!
