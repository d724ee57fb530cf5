//! Sizes in bytes and in machine words.
use vstd::prelude::*;

verus! {

/// Bits in a byte.
pub const BYTE_BITS: usize = 8;

/// Bytes in a machine word.
pub const WORD_BYTES: usize = 8;

/// A size in bytes.
#[derive(Copy, Clone, Debug, PartialEq, Eq, Structural)]
pub struct SizeBytes {
    pub count: usize,
}

impl SizeBytes {
    pub fn new(count: usize) -> (r: Self)
        ensures
            r.count == count,
    {
        Self { count }
    }

    pub fn bytes(&self) -> (r: usize)
        ensures
            r == self.count,
    {
        self.count
    }
}

/// A size in machine words.
#[derive(Copy, Clone, Debug, PartialEq, Eq, Structural)]
pub struct SizeWords {
    pub words: usize,
}

impl SizeWords {
    pub fn new(words: usize) -> (r: Self)
        ensures
            r.words == words,
    {
        Self { words }
    }
}

} // verus!
