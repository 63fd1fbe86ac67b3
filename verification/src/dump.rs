//! The listing of a program: its labels and instructions as lines of text.

use crate::parser::{dump_operation, ops_view, spec_dump_operation, OpView, Parser};
use crate::var_map::VariableMap;
use vstd::prelude::*;
use vstd::string::*;

verus! {

/// The lines that declare the labels which stand for `line`, among the
/// first `upto` labels of the table: the name of each, then a colon.
pub open spec fn label_lines(names: Seq<Seq<char>>, values: Seq<i32>, line: int, upto: int) -> Seq<
    Seq<char>,
>
    decreases upto,
{
    if upto <= 0 {
        Seq::empty()
    } else if values[upto - 1] == line {
        label_lines(names, values, line, upto - 1).push(names[upto - 1] + ":"@)
    } else {
        label_lines(names, values, line, upto - 1)
    }
}

/// The lines of the positions below `upto` of the listing: for each
/// position, its labels in the order of the label table, then the
/// instruction behind a tab. The position after the last instruction has
/// labels only.
pub open spec fn listing(code: Seq<OpView>, names: Seq<Seq<char>>, values: Seq<i32>, upto: int)
    -> Seq<Seq<char>>
    decreases upto,
{
    if upto <= 0 {
        Seq::empty()
    } else {
        let labels = label_lines(names, values, upto - 1, names.len() as int);
        let before = listing(code, names, values, upto - 1) + labels;
        if upto - 1 < code.len() {
            before.push("\t"@ + spec_dump_operation(code[upto - 1]))
        } else {
            before
        }
    }
}

/// The texts of a list of strings.
pub open spec fn lines_view(lines: Seq<String>) -> Seq<Seq<char>> {
    lines.map_values(|s: String| s@)
}

/// Appends the lines of the labels that stand for `line`.
fn push_label_lines(var_map: &VariableMap, lines: &mut Vec<String>, line: usize)
    ensures
        lines_view(final(lines)@) == lines_view(old(lines)@) + label_lines(
            var_map.label_map.names(),
            var_map.label_map.values(),
            line as int,
            var_map.label_map.names().len() as int,
        ),
{
    let ghost names = var_map.label_map.names();
    let ghost values = var_map.label_map.values();
    let ghost before = lines_view(lines@);
    let count = var_map.label_map.len();
    assert(before + label_lines(names, values, line as int, 0) =~= before);
    let mut k: usize = 0;
    while k < count
        invariant
            k <= count,
            names == var_map.label_map.names(),
            values == var_map.label_map.values(),
            count == names.len(),
            count == values.len(),
            lines_view(lines@) == before + label_lines(names, values, line as int, k as int),
        decreases count - k,
    {
        let value = *var_map.label_map.value_at(k);
        if value >= 0 && value as usize == line {
            let ghost shown = lines_view(lines@);
            let mut text = var_map.label_map.name_at(k).clone();
            text.append(":");
            lines.push(text);
            assert(lines_view(lines@) =~= shown.push(names[k as int] + ":"@));
            assert(lines_view(lines@) =~= before + label_lines(names, values, line as int, k + 1));
        } else {
            assert(before + label_lines(names, values, line as int, k as int) =~= before
                + label_lines(names, values, line as int, k + 1));
        }
        k += 1;
    }
}

impl Parser {
    /// The listing of the program: one line for each label and each
    /// instruction.
    pub fn dump_internal_code(&self, var_map: &mut VariableMap) -> (lines: Vec<String>)
        ensures
            *final(var_map) == *old(var_map),
            lines_view(lines@) == listing(
                ops_view(self.internal_code@),
                old(var_map).label_map.names(),
                old(var_map).label_map.values(),
                self.internal_code@.len() as int + 1,
            ),
    {
        let ghost code = ops_view(self.internal_code@);
        let ghost names = var_map.label_map.names();
        let ghost values = var_map.label_map.values();
        let n = self.internal_code.len();
        let mut lines: Vec<String> = Vec::new();
        assert(lines_view(lines@) =~= Seq::<Seq<char>>::empty());
        let mut i: usize = 0;
        while i < n
            invariant
                i <= n,
                n == code.len(),
                code == ops_view(self.internal_code@),
                *var_map == *old(var_map),
                names == var_map.label_map.names(),
                values == var_map.label_map.values(),
                lines_view(lines@) == listing(code, names, values, i as int),
            decreases n - i,
        {
            push_label_lines(var_map, &mut lines, i);
            let ghost shown = lines_view(lines@);
            let mut text = String::from_str("\t");
            text.append(dump_operation(&self.internal_code[i]).as_str());
            lines.push(text);
            assert(code[i as int] == self.internal_code@[i as int]@);
            assert(lines_view(lines@) =~= shown.push("\t"@ + spec_dump_operation(code[i as int])));
            i += 1;
        }
        push_label_lines(var_map, &mut lines, n);
        lines
    }
}

} // verus!
