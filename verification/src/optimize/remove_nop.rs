//! Compaction: the removal of `Nop` instructions, with the labels moved
//! along.

use crate::name_map::{lemma_index_of_unique, NameMap};
use crate::parser::{ops_view, Operation, Parser};
use crate::var_map::VariableMap;
use vstd::prelude::*;

verus! {

/// The elements of `s` at the positions below `upto` that `keep` marks, in
/// order.
pub open spec fn select<T>(s: Seq<T>, keep: Seq<bool>, upto: int) -> Seq<T>
    decreases upto,
{
    if upto <= 0 {
        Seq::empty()
    } else if keep[upto - 1] {
        select(s, keep, upto - 1).push(s[upto - 1])
    } else {
        select(s, keep, upto - 1)
    }
}

/// How many of the positions below `upto` are not marked by `keep`.
/// Positions past the end of `keep` do not count.
pub open spec fn count_dropped(keep: Seq<bool>, upto: int) -> int
    decreases upto,
{
    if upto <= 0 {
        0
    } else if upto > keep.len() {
        count_dropped(keep, upto - 1)
    } else if keep[upto - 1] {
        count_dropped(keep, upto - 1)
    } else {
        count_dropped(keep, upto - 1) + 1
    }
}

/// Where a label that stood for index `line` points once the unmarked
/// positions are gone: it moves up by one for each of them below it.
pub open spec fn renumber(keep: Seq<bool>, line: i32) -> i32 {
    (line - count_dropped(keep, line as int)) as i32
}

/// For each instruction, whether it is anything but a `Nop`.
pub open spec fn not_nop(code: Seq<Operation>) -> Seq<bool> {
    Seq::new(code.len(), |i: int| !(code[i]@ is Nop))
}

/// Selecting among instructions and then looking at what they are is the
/// same as selecting among what they are.
pub proof fn lemma_select_view(code: Seq<Operation>, keep: Seq<bool>, upto: int)
    requires
        0 <= upto <= code.len(),
    ensures
        ops_view(select(code, keep, upto)) == select(ops_view(code), keep, upto),
    decreases upto,
{
    if upto > 0 {
        lemma_select_view(code, keep, upto - 1);
        assert(ops_view(code)[upto - 1] == code[upto - 1]@);
        if keep[upto - 1] {
            assert(ops_view(select(code, keep, upto)) =~= ops_view(
                select(code, keep, upto - 1),
            ).push(code[upto - 1]@));
        }
    } else {
        assert(ops_view(select(code, keep, upto)) =~= select(ops_view(code), keep, upto));
    }
}

/// No more positions are dropped than there are, and the count only grows.
pub proof fn lemma_count_dropped(keep: Seq<bool>, upto: int)
    ensures
        0 <= count_dropped(keep, upto),
        count_dropped(keep, upto) <= upto || upto < 0,
        count_dropped(keep, upto) <= keep.len(),
        upto >= keep.len() ==> count_dropped(keep, upto) == count_dropped(keep, keep.len() as int),
    decreases upto,
{
    if upto > 0 {
        lemma_count_dropped(keep, upto - 1);
    }
}

/// A selection depends only on the marks and on the elements it keeps.
pub proof fn lemma_select_same<T>(a: Seq<T>, b: Seq<T>, keep: Seq<bool>, other: Seq<bool>, upto: int)
    requires
        0 <= upto <= keep.len(),
        upto <= other.len(),
        forall|i: int| 0 <= i < upto ==> keep[i] == other[i],
        forall|i: int| 0 <= i < upto && keep[i] ==> a[i] == b[i],
    ensures
        select(a, keep, upto) == select(b, other, upto),
        count_dropped(keep, upto) == count_dropped(other, upto),
    decreases upto,
{
    if upto > 0 {
        lemma_select_same(a, b, keep, other, upto - 1);
    }
}

/// Moves every label of `labels` up by the number of dropped positions
/// below it. `dropped[k]` is that number for index `k`.
fn renumber_labels(labels: &mut NameMap<i32>, dropped: &Vec<usize>, Ghost(keep): Ghost<Seq<bool>>)
    requires
        dropped@.len() == keep.len() + 1,
        forall|k: int| 0 <= k <= keep.len() ==> #[trigger] dropped@[k] == count_dropped(keep, k),
    ensures
        final(labels)@ == old(labels)@.map_values(|line: i32| renumber(keep, line)),
{
    let n = labels.len();
    let last = dropped.len() - 1;
    let ghost names = labels.names();
    let ghost values = labels.values();
    proof {
        labels.lemma_entries();
    }
    let mut i: usize = 0;
    while i < n
        invariant
            i <= n,
            n == names.len(),
            n == values.len(),
            names.no_duplicates(),
            last == keep.len(),
            dropped@.len() == keep.len() + 1,
            forall|k: int| 0 <= k <= keep.len() ==> #[trigger] dropped@[k] == count_dropped(keep, k),
            labels.names() == names,
            labels.values().len() == n,
            forall|j: int| 0 <= j < i ==> #[trigger] labels.values()[j] == renumber(keep, values[j]),
            forall|j: int| i <= j < n ==> #[trigger] labels.values()[j] == values[j],
        decreases n - i,
    {
        let line = *labels.value_at(i);
        if line > 0 {
            let below = if line as usize > last {
                dropped[last]
            } else {
                dropped[line as usize]
            };
            proof {
                lemma_count_dropped(keep, line as int);
                lemma_index_of_unique(names, i as int);
            }
            if below > 0 {
                let name = labels.name_at(i).clone();
                labels.insert(name, line - below as i32);
            }
        }
        i += 1;
    }
    proof {
        use_type_invariant(&*labels);
        labels.lemma_entries();
        let want = old(labels)@.map_values(|line: i32| renumber(keep, line));
        assert forall|k: Seq<char>| labels@.contains_key(k) <==> want.contains_key(k) by {
            if labels@.contains_key(k) {
                let j = names.index_of(k);
                assert(names[j] == k);
            }
            if want.contains_key(k) {
                let j = names.index_of(k);
                assert(names[j] == k);
            }
        }
        assert forall|k: Seq<char>| #[trigger] labels@.contains_key(k) implies labels@[k]
            == want[k] by {
            let j = names.index_of(k);
            assert(names[j] == k);
            assert(labels.values()[j] == renumber(keep, values[j]));
        }
        assert(labels@ =~= want);
    }
}

impl Parser {
    /// Removes every `Nop` from the program. The other instructions keep
    /// their order, and every label moves up by the number of removed
    /// instructions below the index it stood for.
    pub fn remove_nop(&mut self, var_map: &mut VariableMap)
        ensures
            *final(self) == old(self).with_code(final(self).internal_code),
            final(self).internal_code@ == select(
                old(self).internal_code@,
                not_nop(old(self).internal_code@),
                old(self).internal_code@.len() as int,
            ),
            final(var_map)@.labels == old(var_map)@.labels.map_values(
                |line: i32| renumber(not_nop(old(self).internal_code@), line),
            ),
            final(var_map).map == old(var_map).map,
            final(var_map).array_map == old(var_map).array_map,
    {
        let n = self.internal_code.len();
        let ghost code = self.internal_code@;
        let ghost keep = not_nop(code);
        let mut kept: Vec<Operation> = Vec::new();
        let mut dropped: Vec<usize> = Vec::new();
        let mut count: usize = 0;
        dropped.push(0);
        let mut i: usize = 0;
        while i < n
            invariant
                i <= n,
                n == code.len(),
                keep == not_nop(code),
                self.internal_code@ == code,
                *self == *old(self),
                kept@ == select(code, keep, i as int),
                count == count_dropped(keep, i as int),
                count <= i,
                dropped@.len() == i + 1,
                forall|k: int| 0 <= k <= i ==> #[trigger] dropped@[k] == count_dropped(keep, k),
            decreases n - i,
        {
            match &self.internal_code[i] {
                Operation::Nop => {
                    count += 1;
                },
                op => {
                    kept.push(op.clone());
                },
            }
            dropped.push(count);
            i += 1;
        }
        self.internal_code = kept;
        renumber_labels(&mut var_map.label_map, &dropped, Ghost(keep));
    }
}

} // verus!
