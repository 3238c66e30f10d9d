use vstd::prelude::*;

verus! {

/// The ways in which an instruction can fail.
#[derive(Debug, Clone, Copy, PartialEq, Eq, Structural)]
pub enum TodoError {
    /// The instruction bytes do not follow the instruction layout.
    InvalidInstruction,
    /// No task carries the requested id.
    TaskNotFound,
    /// A task with the id about to be assigned is already in the list.
    TaskAlreadyExists,
    /// The account bytes could not be read or written back.
    ProcessingError,
}

} // verus!
