//! What an opcode leaves for the loop that runs it.
use vstd::prelude::*;

verus! {

/// How a process gives up its turn.
#[derive(Copy, Clone, Debug, PartialEq, Eq, Structural)]
pub enum YieldType {
    /// It waits for a message.
    InfiniteWait,
}

/// What comes after an opcode.
#[derive(Copy, Clone, Debug, PartialEq, Eq, Structural)]
pub enum DispatchResult {
    /// The next opcode.
    Normal,
    /// Another process.
    Yield(YieldType),
}

} // verus!
