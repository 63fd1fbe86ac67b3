//! The value store: scalar variables, integer arrays and the label table.

use crate::error::Fault;
use crate::lexer::{Token, TokenType, TokenView};
use crate::name_map::NameMap;
use vstd::prelude::*;

verus! {

/// The store that a session works on.
pub struct VariableMap {
    /// Integer variables.
    pub map: NameMap<i32>,
    /// Integer arrays.
    pub array_map: NameMap<Vec<i32>>,
    /// For each label, the index of the instruction that follows it.
    pub label_map: NameMap<i32>,
}

/// The mathematical content of a [`VariableMap`].
pub ghost struct StoreView {
    pub vars: Map<Seq<char>, i32>,
    pub arrays: Map<Seq<char>, Seq<i32>>,
    pub labels: Map<Seq<char>, i32>,
}

impl View for VariableMap {
    type V = StoreView;

    open spec fn view(&self) -> StoreView {
        StoreView {
            vars: self.map@,
            arrays: self.array_map@.map_values(|a: Vec<i32>| a@),
            labels: self.label_map@,
        }
    }
}

/// A token that a value can be read from: a variable or a number.
pub open spec fn is_operand(tok: TokenView) -> bool {
    tok.ty is NumLiteral || tok.ty is Ident
}

/// The value of an operand: a number stands for itself, a variable for what
/// it holds, and a variable that was never written for 0.
pub open spec fn operand_value(vars: Map<Seq<char>, i32>, tok: TokenView) -> i32 {
    match tok.ty {
        TokenType::NumLiteral(n) => n,
        _ => if vars.contains_key(tok.string) {
            vars[tok.string]
        } else {
            0
        },
    }
}

/// The variables after an operand was read: reading a variable that was
/// never written records it with the value 0.
pub open spec fn vars_after_read(vars: Map<Seq<char>, i32>, tok: TokenView) -> Map<
    Seq<char>,
    i32,
> {
    if tok.ty is Ident && !vars.contains_key(tok.string) {
        vars.insert(tok.string, 0)
    } else {
        vars
    }
}

/// An array of `n` zeros.
pub open spec fn zeros(n: nat) -> Seq<i32> {
    Seq::new(n, |i: int| 0i32)
}

impl VariableMap {
    /// The empty store.
    pub fn new() -> (store: Self)
        ensures
            store@.vars == Map::<Seq<char>, i32>::empty(),
            store@.arrays == Map::<Seq<char>, Seq<i32>>::empty(),
            store@.labels == Map::<Seq<char>, i32>::empty(),
    {
        let store = VariableMap {
            map: NameMap::new(),
            array_map: NameMap::new(),
            label_map: NameMap::new(),
        };
        assert(store@.arrays =~= Map::<Seq<char>, Seq<i32>>::empty());
        store
    }

    /// Reads an operand.
    pub fn get(&mut self, tok: &Token) -> (value: i32)
        requires
            is_operand(tok@),
        ensures
            value == operand_value(old(self)@.vars, tok@),
            final(self)@.vars == vars_after_read(old(self)@.vars, tok@),
            final(self).array_map == old(self).array_map,
            final(self).label_map == old(self).label_map,
    {
        match tok.ty {
            TokenType::NumLiteral(n) => n,
            _ => {
                let found = match self.map.get(&tok.string) {
                    Some(n) => Some(*n),
                    None => None,
                };
                match found {
                    Some(n) => n,
                    None => {
                        self.map.insert(tok.string.clone(), 0);
                        0
                    },
                }
            },
        }
    }

    /// Writes `val` to the variable named by `tok`.
    pub fn set(&mut self, tok: &Token, val: i32)
        ensures
            final(self)@.vars == old(self)@.vars.insert(tok@.string, val),
            final(self).array_map == old(self).array_map,
            final(self).label_map == old(self).label_map,
    {
        self.map.insert(tok.string.clone(), val);
    }

    /// Creates the array named by `ident` with `size` zeros, in place of any
    /// array of that name.
    pub fn array_init(&mut self, ident: &Token, size: usize)
        ensures
            final(self)@.arrays == old(self)@.arrays.insert(ident@.string, zeros(size as nat)),
            final(self).map == old(self).map,
            final(self).label_map == old(self).label_map,
    {
        let fresh: Vec<i32> = vec![0i32; size];
        assert(fresh@ =~= zeros(size as nat));
        self.array_map.insert(ident.string.clone(), fresh);
        assert(self@.arrays =~= old(self)@.arrays.insert(ident@.string, zeros(size as nat)));
    }

    /// Reads element `index` of the array named by `ident`.
    pub fn array_get(&mut self, ident: &Token, index: usize) -> (value: Result<i32, Fault>)
        ensures
            *final(self) == *old(self),
            value == spec_array_get(old(self)@.arrays, ident@.string, index as int),
    {
        match self.array_map.get(&ident.string) {
            None => Err(Fault::UndeclaredArray),
            Some(arr) => {
                if index >= arr.len() {
                    Err(Fault::IndexOutOfBounds)
                } else {
                    Ok(arr[index])
                }
            },
        }
    }

    /// Writes `val` to element `index` of the array named by `ident`.
    pub fn array_set(&mut self, ident: &Token, index: usize, val: i32) -> (done: Result<(), Fault>)
        ensures
            final(self).map == old(self).map,
            final(self).label_map == old(self).label_map,
            match spec_array_set(old(self)@.arrays, ident@.string, index as int, val) {
                Ok(arrays) => done is Ok && final(self)@.arrays == arrays,
                Err(fault) => done == Err::<(), Fault>(fault) && final(self)@.arrays == old(
                    self,
                )@.arrays,
            },
    {
        let len = match self.array_map.get(&ident.string) {
            None => {
                return Err(Fault::UndeclaredArray);
            },
            Some(arr) => arr.len(),
        };
        if index >= len {
            return Err(Fault::IndexOutOfBounds);
        }
        match self.array_map.remove(&ident.string) {
            None => Err(Fault::UndeclaredArray),
            Some(arr) => {
                let mut arr = arr;
                arr.set(index, val);
                self.array_map.insert(ident.string.clone(), arr);
                assert(self@.arrays =~= old(self)@.arrays.insert(
                    ident@.string,
                    old(self)@.arrays[ident@.string].update(index as int, val),
                ));
                Ok(())
            },
        }
    }

    /// The instruction index that the label named by `tok` stands for.
    pub fn label_get(&mut self, tok: &Token) -> (line: Result<i32, Fault>)
        ensures
            *final(self) == *old(self),
            line == spec_label_get(old(self)@.labels, tok@.string),
    {
        match self.label_map.get(&tok.string) {
            Some(line) => Ok(*line),
            None => Err(Fault::UndefinedLabel),
        }
    }

    /// Binds the label named by `tok` to the instruction index `val`.
    pub fn label_set(&mut self, tok: &Token, val: i32)
        ensures
            final(self)@.labels == old(self)@.labels.insert(tok@.string, val),
            final(self).map == old(self).map,
            final(self).array_map == old(self).array_map,
    {
        self.label_map.insert(tok.string.clone(), val);
    }
}

/// Element `index` of the array `name`, or the fault that reading it raises.
pub open spec fn spec_array_get(arrays: Map<Seq<char>, Seq<i32>>, name: Seq<char>, index: int)
    -> Result<i32, Fault> {
    if !arrays.contains_key(name) {
        Err(Fault::UndeclaredArray)
    } else if !(0 <= index < arrays[name].len()) {
        Err(Fault::IndexOutOfBounds)
    } else {
        Ok(arrays[name][index])
    }
}

/// The arrays after element `index` of `name` was set to `val`, or the fault
/// that writing it raises.
pub open spec fn spec_array_set(
    arrays: Map<Seq<char>, Seq<i32>>,
    name: Seq<char>,
    index: int,
    val: i32,
) -> Result<Map<Seq<char>, Seq<i32>>, Fault> {
    if !arrays.contains_key(name) {
        Err(Fault::UndeclaredArray)
    } else if !(0 <= index < arrays[name].len()) {
        Err(Fault::IndexOutOfBounds)
    } else {
        Ok(arrays.insert(name, arrays[name].update(index, val)))
    }
}

/// The index that a label stands for, or the fault of a label that the
/// table does not hold.
pub open spec fn spec_label_get(labels: Map<Seq<char>, i32>, name: Seq<char>) -> Result<
    i32,
    Fault,
> {
    if labels.contains_key(name) {
        Ok(labels[name])
    } else {
        Err(Fault::UndefinedLabel)
    }
}

} // verus!
