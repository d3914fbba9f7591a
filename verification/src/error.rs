use vstd::prelude::*;

verus! {

/// Why a run stopped before the end of its program.
#[derive(Clone, Copy, Debug, PartialEq, Eq, Structural)]
pub enum Error {
    /// The loop brackets of the program do not pair up.
    UnbalancedBrackets,
    /// The byte is not one of the eight instructions.
    UnexpectedCharacter(u8),
    /// A move to the left was asked for at the first cell.
    PointerUnderflow,
}

} // verus!
