//! The instruction set: one token per recognized command character.

use vstd::prelude::*;

verus! {

/// One resolved instruction.  The two jump variants carry the index of the
/// instruction execution resumes at when the branch is taken: one past the
/// matching bracket, not the bracket itself.
#[derive(Clone, Copy, Debug, PartialEq, Eq, Structural)]
pub enum BfToken {
    IncermentDataPtr,
    DecrementDataPtr,
    IncrementCurrent,
    DecrementCurrent,
    OutputByte,
    InputByte,
    JumpStart(usize),
    JumpEnd(usize),
}

/// An ordered, immutable-after-build sequence of resolved instructions.
pub type Program = Vec<BfToken>;

} // verus!
