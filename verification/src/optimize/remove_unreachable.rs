//! The removal of instructions that control can never reach.

use super::cfg::{first_fault, graph_of, ic_to_cfg, max_program_len, Cfg, CfgView};
use super::remove_nop::{lemma_select_same, lemma_select_view, not_nop, renumber, select};
use crate::error::Fault;
use crate::parser::{ops_view, OpView, Operation, Parser};
use crate::var_map::VariableMap;
use vstd::prelude::*;

verus! {

/// `path` leads through the graph from its first node to its last.
pub open spec fn is_path(g: CfgView, path: Seq<usize>) -> bool {
    &&& path.len() > 0
    &&& forall|k: int| 0 <= k < path.len() ==> #[trigger] path[k] <= g.len()
    &&& forall|k: int|
        0 <= k < path.len() - 1 ==> g.succs[#[trigger] path[k] as int].contains(path[k + 1])
}

/// Control can pass from the first instruction to `node`.
pub open spec fn reachable(g: CfgView, node: usize) -> bool {
    exists|path: Seq<usize>| is_path(g, path) && path[0] == 0 && #[trigger] path.last() == node
}

/// For each instruction of `code`, whether it stays when the unreachable
/// instructions and the `Nop`s are removed.
pub open spec fn stays(code: Seq<OpView>, labels: Map<Seq<char>, i32>) -> Seq<bool> {
    Seq::new(code.len(), |i: int| reachable(graph_of(code, labels), i as usize) && !(code[i] is Nop))
}

/// The program and the label table that are left when the unreachable
/// instructions and the `Nop`s of `code` are removed: the instructions
/// that stay keep their order, and every label moves up by the number of
/// removed instructions below the index it stood for.
pub open spec fn spec_remove_unreachable(code: Seq<OpView>, labels: Map<Seq<char>, i32>) -> Result<
    (Seq<OpView>, Map<Seq<char>, i32>),
    Fault,
> {
    if code.len() > max_program_len() {
        Err(Fault::ProgramTooLong)
    } else {
        match first_fault(code, labels, 0) {
            Some(fault) => Err(fault),
            None => Ok(
                (
                    select(code, stays(code, labels), code.len() as int),
                    labels.map_values(|line: i32| renumber(stays(code, labels), line)),
                ),
            ),
        }
    }
}

/// How many of the marks are not set.
pub open spec fn unmarked(marks: Seq<bool>) -> nat
    decreases marks.len(),
{
    if marks.len() == 0 {
        0
    } else {
        unmarked(marks.drop_last()) + if marks.last() {
            0nat
        } else {
            1nat
        }
    }
}

/// Setting a mark that was not set leaves one unmarked position less.
pub proof fn lemma_mark(marks: Seq<bool>, i: int)
    requires
        0 <= i < marks.len(),
        !marks[i],
    ensures
        unmarked(marks.update(i, true)) + 1 == unmarked(marks),
    decreases marks.len(),
{
    let after = marks.update(i, true);
    if i == marks.len() - 1 {
        assert(after.drop_last() =~= marks.drop_last());
    } else {
        assert(after.drop_last() =~= marks.drop_last().update(i, true));
        lemma_mark(marks.drop_last(), i);
    }
}

/// A path can be extended along an edge.
pub proof fn lemma_extend_path(g: CfgView, path: Seq<usize>, next: usize)
    requires
        is_path(g, path),
        next <= g.len(),
        g.succs[path.last() as int].contains(next),
    ensures
        is_path(g, path.push(next)),
        path.push(next)[0] == path[0],
        path.push(next).last() == next,
{
    let longer = path.push(next);
    assert forall|k: int| 0 <= k < longer.len() - 1 implies g.succs[#[trigger] longer[k] as int].contains(
        longer[k + 1],
    ) by {
        if k < path.len() - 1 {
            assert(longer[k] == path[k]);
            assert(longer[k + 1] == path[k + 1]);
        }
    }
}

/// A set of nodes that holds the first instruction and the successors of
/// each of its nodes holds every node on a path from the first instruction.
pub proof fn lemma_closed_holds_path(g: CfgView, marks: Seq<bool>, path: Seq<usize>, k: int)
    requires
        g.wf(),
        marks.len() == g.len() + 1,
        marks[0],
        forall|x: int, j: int|
            0 <= x <= g.len() && marks[x] && 0 <= j < g.succs[x].len() ==> marks[#[trigger] g.succs[x][j] as int],
        is_path(g, path),
        path[0] == 0,
        0 <= k < path.len(),
    ensures
        marks[path[k] as int],
    decreases k,
{
    if k > 0 {
        lemma_closed_holds_path(g, marks, path, k - 1);
        let x = path[k - 1];
        assert(g.succs[x as int].contains(path[k - 1 + 1]));
        let j = choose|j: int| 0 <= j < g.succs[x as int].len() && g.succs[x as int][j] == path[k];
        assert(marks[g.succs[x as int][j] as int]);
    }
}

/// For each node of the graph, whether control can reach it from the first
/// instruction.
pub fn reachable_nodes(cfg: &Cfg) -> (marks: Vec<bool>)
    requires
        cfg@.wf(),
    ensures
        marks@.len() == cfg@.len() + 1,
        forall|x: usize| x <= cfg@.len() ==> (#[trigger] marks@[x as int] <==> reachable(cfg@, x)),
{
    let ghost g = cfg@;
    let n = cfg.nodes.len();
    let mut marks: Vec<bool> = Vec::new();
    let mut i: usize = 0;
    while i <= n
        invariant
            i <= n + 1,
            n == g.len(),
            n <= max_program_len(),
            marks@.len() == i,
            forall|k: int| 0 <= k < i ==> !(#[trigger] marks@[k]),
        decreases n + 1 - i,
    {
        marks.push(false);
        i += 1;
    }
    let mut worklist: Vec<usize> = Vec::new();
    worklist.push(0);
    proof {
        assert(worklist@[0] == 0);
        let start = seq![0usize];
        assert(is_path(g, start) && start[0] == 0 && start.last() == 0);
    }
    while worklist.len() > 0
        invariant
            g == cfg@,
            g.wf(),
            n == g.len(),
            marks@.len() == n + 1,
            forall|k: int| 0 <= k < worklist@.len() ==> #[trigger] worklist@[k] <= n,
            forall|k: int| 0 <= k < worklist@.len() ==> reachable(g, #[trigger] worklist@[k]),
            forall|x: usize| x <= n && #[trigger] marks@[x as int] ==> reachable(g, x),
            marks@[0] || worklist@.contains(0),
            forall|x: int, j: int|
                0 <= x <= n && marks@[x] && 0 <= j < g.succs[x].len() ==> marks@[#[trigger] g.succs[x][j] as int]
                    || worklist@.contains(g.succs[x][j]),
        decreases unmarked(marks@), worklist@.len(),
    {
        let ghost before = worklist@;
        let ghost old_marks = marks@;
        let node = worklist.pop().unwrap();
        proof {
            assert(before[before.len() - 1] == node);
            assert forall|x: usize| before.contains(x) && x != node implies worklist@.contains(x) by {
                let k = choose|k: int| 0 <= k < before.len() && before[k] == x;
                assert(worklist@[k] == x);
            }
        }
        if !marks[node] {
            marks.set(node, true);
            proof {
                lemma_mark(old_marks, node as int);
            }
            let succs = &cfg.succs[node];
            let ghost popped = worklist@;
            let mut j: usize = 0;
            while j < succs.len()
                invariant
                    j <= succs@.len(),
                    g == cfg@,
                    g.wf(),
                    n == g.len(),
                    node <= n,
                    reachable(g, node),
                    succs@ == g.succs[node as int],
                    worklist@.len() == popped.len() + j,
                    forall|k: int| 0 <= k < popped.len() ==> worklist@[k] == popped[k],
                    forall|k: int| 0 <= k < j ==> worklist@[popped.len() + k] == succs@[k],
                    forall|k: int| 0 <= k < worklist@.len() ==> #[trigger] worklist@[k] <= n,
                    forall|k: int| 0 <= k < worklist@.len() ==> reachable(g, #[trigger] worklist@[k]),
                decreases succs@.len() - j,
            {
                let s = succs[j];
                proof {
                    assert(g.succs[node as int][j as int] <= n);
                    let path = choose|path: Seq<usize>|
                        is_path(g, path) && path[0] == 0 && #[trigger] path.last() == node;
                    assert(g.succs[node as int].contains(s));
                    lemma_extend_path(g, path, s);
                    assert(reachable(g, s));
                }
                worklist.push(s);
                j += 1;
            }
            proof {
                assert forall|x: usize| popped.contains(x) implies worklist@.contains(x) by {
                    let k = choose|k: int| 0 <= k < popped.len() && popped[k] == x;
                    assert(worklist@[k] == x);
                }
                assert forall|x: int, j: int|
                    0 <= x <= n && marks@[x] && 0 <= j < g.succs[x].len() implies marks@[#[trigger] g.succs[x][j] as int]
                    || worklist@.contains(g.succs[x][j]) by {
                    let t = g.succs[x][j];
                    if x == node {
                        assert(worklist@[popped.len() + j] == t);
                    } else {
                        assert(old_marks[x]);
                        if !old_marks[t as int] {
                            assert(before.contains(t));
                            if t != node {
                                assert(popped.contains(t));
                            }
                        }
                    }
                }
            }
        } else {
            proof {
                assert forall|x: int, j: int|
                    0 <= x <= n && marks@[x] && 0 <= j < g.succs[x].len() implies marks@[#[trigger] g.succs[x][j] as int]
                    || worklist@.contains(g.succs[x][j]) by {
                    let t = g.succs[x][j];
                    if !marks@[t as int] {
                        assert(before.contains(t));
                    }
                }
            }
        }
    }
    proof {
        assert(!worklist@.contains(0));
        assert forall|x: usize| x <= n && reachable(g, x) implies #[trigger] marks@[x as int] by {
            let path = choose|path: Seq<usize>|
                is_path(g, path) && path[0] == 0 && #[trigger] path.last() == x;
            assert forall|a: int, j: int|
                0 <= a <= g.len() && marks@[a] && 0 <= j < g.succs[a].len() implies marks@[#[trigger] g.succs[a][j] as int] by {
                assert(!worklist@.contains(g.succs[a][j]));
            }
            lemma_closed_holds_path(g, marks@, path, path.len() - 1);
        }
    }
    marks
}

impl Parser {
    /// Removes every instruction that control cannot reach from the first
    /// instruction, and every `Nop`. The instructions that stay keep their
    /// order, and every label moves up by the number of removed
    /// instructions below the index it stood for. On a fault nothing
    /// changes.
    pub fn remove_unreachable_ops(&mut self, var_map: &mut VariableMap) -> (done: Result<(), Fault>)
        ensures
            *final(self) == old(self).with_code(final(self).internal_code),
            final(var_map).map == old(var_map).map,
            final(var_map).array_map == old(var_map).array_map,
            match spec_remove_unreachable(ops_view(old(self).internal_code@), old(var_map)@.labels) {
                Ok((code, labels)) => {
                    &&& done is Ok
                    &&& ops_view(final(self).internal_code@) == code
                    &&& final(var_map)@.labels == labels
                },
                Err(fault) => {
                    &&& done == Err::<(), Fault>(fault)
                    &&& final(self).internal_code == old(self).internal_code
                    &&& *final(var_map) == *old(var_map)
                },
            },
    {
        let cfg = match ic_to_cfg(&self.internal_code, var_map) {
            Ok(cfg) => cfg,
            Err(fault) => {
                return Err(fault);
            },
        };
        let is_reachable = reachable_nodes(&cfg);
        let ghost code = self.internal_code@;
        let ghost labels = var_map@.labels;
        let ghost keep = stays(ops_view(code), labels);
        let n = self.internal_code.len();
        let mut i: usize = 0;
        while i < n
            invariant
                i <= n,
                n == code.len(),
                n <= max_program_len(),
                self.internal_code@.len() == n,
                *self == old(self).with_code(self.internal_code),
                code == old(self).internal_code@,
                cfg@ == graph_of(ops_view(code), labels),
                is_reachable@.len() == n + 1,
                forall|x: usize|
                    x <= n ==> (#[trigger] is_reachable@[x as int] <==> reachable(cfg@, x)),
                forall|k: int|
                    0 <= k < i ==> #[trigger] self.internal_code@[k] == if is_reachable@[k] {
                        code[k]
                    } else {
                        Operation::Nop
                    },
                forall|k: int| i <= k < n ==> #[trigger] self.internal_code@[k] == code[k],
            decreases n - i,
        {
            if !is_reachable[i] {
                self.internal_code[i] = Operation::Nop;
            }
            i += 1;
        }
        let ghost mid = self.internal_code@;
        proof {
            assert forall|k: int| 0 <= k < n implies not_nop(mid)[k] == keep[k] by {
                let x = k as usize;
                assert(is_reachable@[x as int] <==> reachable(cfg@, x));
                assert(ops_view(code)[k] == code[k]@);
            }
            lemma_select_same(mid, code, not_nop(mid), keep, n as int);
            assert(not_nop(mid) =~= keep);
            lemma_select_view(code, keep, n as int);
        }
        self.remove_nop(var_map);
        Ok(())
    }
}

} // verus!
