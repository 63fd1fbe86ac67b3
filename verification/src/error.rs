//! The faults that stop an analysis or a run.

use vstd::prelude::*;

verus! {

/// Why a program could not be analysed, rewritten or run to its end.
#[derive(Debug, Clone, Copy, PartialEq, Eq, Structural)]
pub enum Fault {
    /// A jump names a label that the label table does not hold.
    UndefinedLabel,
    /// The program has more instructions than a label can address.
    ProgramTooLong,
    /// A label of a jump resolves to an index outside the program.
    LabelOutOfRange,
    /// A value is read from a token that is neither a variable nor a number.
    BadOperand,
    /// A division whose divisor is zero.
    ZeroDivision,
    /// An array is created with a negative length.
    NegativeArraySize,
    /// An array is read or written that was never created.
    UndeclaredArray,
    /// An array is read or written outside its bounds.
    IndexOutOfBounds,
    /// A token is printed that is neither a text, a number nor a variable.
    CannotPrint,
    /// The step budget ran out before the work was done.
    StepLimit,
}

} // verus!
