//! Moving values between the registers for floating point and the others.
use vstd::prelude::*;
use crate::term::{Term, TermV};

verus! {

/// The number of a register for floating point.
pub fn fp_index(t: &Term) -> (r: usize)
    requires
        t@ is RegFp,
    ensures
        t@ == TermV::RegFp(r),
{
    match t {
        Term::RegFp(n) => *n,
        _ => 0,
    }
}

/// Which way a value moves.
#[derive(Copy, Clone, Debug, PartialEq, Eq, Structural)]
pub enum FloatMove {
    /// From one register for floating point to another.
    Within(usize, usize),
    /// From a register for floating point, as a value, to another kind of register.
    Out(usize),
    /// From another kind of register to one for floating point.
    In(usize),
    /// No register for floating point is named.
    Plain,
}

/// Moves a value from or to a register for floating point.
pub struct OpcodeFmove;

impl OpcodeFmove {
    /// Which way a value moves.
    pub fn fmove_impl(src: &Term, dst: &Term) -> (r: FloatMove)
        ensures
            r == match (src@, dst@) {
                (TermV::RegFp(a), TermV::RegFp(b)) => FloatMove::Within(a, b),
                (TermV::RegFp(a), _) => FloatMove::Out(a),
                (_, TermV::RegFp(b)) => FloatMove::In(b),
                _ => FloatMove::Plain,
            },
    {
        match (src, dst) {
            (Term::RegFp(a), Term::RegFp(b)) => FloatMove::Within(*a, *b),
            (Term::RegFp(a), _) => FloatMove::Out(*a),
            (_, Term::RegFp(b)) => FloatMove::In(*b),
            _ => FloatMove::Plain,
        }
    }
}

} // verus!
