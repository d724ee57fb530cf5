//! Writing bytes that stand in the code.
use vstd::prelude::*;
use crate::beam::disp_result::DispatchResult;
use crate::beam::opcodes::binary::bs_match_string;
use crate::beam::opcodes::binary::bs_match_string::read_bytes;
use crate::beam::opcodes::binary::bs_utf8;
use crate::beam::opcodes::binary::bs_utf8::write_bytes;
use crate::beam::runtime;
use crate::beam::runtime::{ProcV, Process, RuntimeContext};
use crate::defs::bits;
use crate::fail::RtErr;
use crate::term::{BinRef, Term, TermV};

verus! {

/// How many bytes of a binary are copied: as many as are asked for, if it has them.
pub open spec fn copy_len(b: BinRef, len: usize) -> int {
    let has = (b.bits + 7) / 8;
    if len < has {
        len as int
    } else {
        has
    }
}

/// The bytes that are written: those of a binary, or zeros.
pub open spec fn string_bytes(p: ProcV, t: TermV, len: usize) -> Seq<u8> {
    match t {
        TermV::Binary(b) => bs_match_string::bytes_of(p, b, copy_len(b, len)),
        _ => Seq::new(len as nat, |i: int| 0u8),
    }
}

/// Writes bytes that stand in the code.
pub struct OpcodeBsPutString;

impl OpcodeBsPutString {
    /// Writes `len` bytes to the binary that is being built.
    pub fn bs_put_string(ctx: &mut RuntimeContext, proc: &mut Process, len: usize, string: &Term) -> (r:
        Result<DispatchResult, RtErr>)
        requires
            bs_utf8::can_write(old(ctx)@, old(proc)@, len as int),
            string@ matches TermV::Binary(b) ==> runtime::valid(old(proc)@, b),
        ensures
            r == Ok::<DispatchResult, RtErr>(DispatchResult::Normal),
            (final(ctx)@, final(proc)@) == bs_utf8::written(
                old(ctx)@,
                old(proc)@,
                string_bytes(old(proc)@, string@, len),
                len as int,
            ),
    {
        let b: Vec<u8> = match string {
            Term::Binary(b) => {
                assert(b.bits > 0 ==> 8 * proc@.bins[b.bin as int].len() <= usize::MAX / 2 - 8);
                let has: usize = (b.bits + 7) / 8;
                let n: usize = if len < has {
                    len
                } else {
                    has
                };
                read_bytes(proc, *b, n)
            },
            _ => {
                let mut v: Vec<u8> = Vec::new();
                let mut i: usize = 0;
                while i < len
                    invariant
                        i <= len,
                        v@ == Seq::new(i as nat, |k: int| 0u8),
                    decreases len - i,
                {
                    v.push(0);
                    i += 1;
                    assert(v@ =~= Seq::new(i as nat, |k: int| 0u8));
                }
                v
            },
        };
        assert(b@ =~= string_bytes(proc@, string@, len));
        write_bytes(ctx, proc, &b, len);
        Ok(DispatchResult::Normal)
    }
}

/// What is written is as many bytes of the binary as are asked for, from its first bit on.
pub proof fn law_bits_of_string_written(p: ProcV, b: BinRef, len: usize, k: int)
    requires
        runtime::valid(p, b),
        8 * len <= b.bits,
        0 <= k < 8 * len,
    ensures
        string_bytes(p, TermV::Binary(b), len).len() == len,
        bits::bits_of(string_bytes(p, TermV::Binary(b), len))[k] == runtime::bits_at(p, b)[k],
{
    bs_match_string::law_bytes_have_bits(p, b, len as int, k);
}

} // verus!
