use vstd::prelude::*;

verus! {

/// The conditions under which the interpreter refuses to go on.
///
/// A program image that does not fit behind the entry offset is rejected
/// before anything is written. An instruction word with no defined behavior
/// stops execution with the faulting address and the raw word, never as a
/// silent no-op. Exceeding the fixed call depth, returning with no matching
/// call, and an address computation that would leave the memory region are
/// surfaced as typed faults rather than wrapping silently.
#[derive(Debug, Clone, Copy, PartialEq, Eq, Structural)]
pub enum Fault {
    /// The program image is larger than the memory behind the entry offset.
    ProgramTooLarge { size: usize },
    /// The word fetched at `pc` has no defined behavior.
    UnknownOpcode { pc: u16, opcode: u16 },
    /// A call was made while the return stack was full.
    StackOverflow { pc: u16 },
    /// A return was executed with no matching call.
    StackUnderflow { pc: u16 },
    /// A fetch, memory access or program-counter update would leave the
    /// address space.
    AddressOutOfRange { pc: u16 },
    /// A key-state test named a register value that is not a key identifier.
    KeyOutOfRange { pc: u16 },
}

} // verus!
