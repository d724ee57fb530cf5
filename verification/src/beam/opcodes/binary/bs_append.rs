//! Appending to a binary.
use vstd::prelude::*;
use crate::beam::disp_result::DispatchResult;
use crate::beam::opcodes::binary::bs_create_bin;
use crate::beam::opcodes::binary::bs_init_bits;
use crate::beam::opcodes::binary::bs_init_bits::{is_refused, start_binary};
use crate::beam::opcodes::binary::bs_match_string;
use crate::beam::opcodes::binary::bs_match_string::read_bytes;
use crate::beam::opcodes::binary::bs_utf8;
use crate::beam::runtime;
use crate::beam::runtime::{CtxV, CurrentBin, ProcV, Process, RuntimeContext};
use crate::defs::bits;
use crate::defs::bitsize::BitSize;
use crate::fail;
use crate::fail::{badarg, system_limit, RtErr, RtErrV};
use crate::term::{BinRef, Term, TermV};

verus! {

/// The bytes of a binary, with room behind them.
pub open spec fn grown(p: ProcV, b: BinRef, more: int) -> Seq<u8> {
    Seq::new(
        ((b.bits + more + 7) / 8) as nat,
        |i: int|
            if i < (b.bits + 7) / 8 {
                bs_match_string::byte_of(p, b, i)
            } else {
                0u8
            },
    )
}

/// A binary is built that begins with another one.
pub open spec fn appended(c: CtxV, p: ProcV, label: TermV, more: int, bin: TermV, dst: TermV) -> bs_init_bits::Step {
    match bin {
        TermV::Binary(b) => bs_init_bits::started(
            c,
            p,
            label,
            grown(p, b, more),
            b.bits + more,
            b.bits,
            dst,
        ),
        _ => {
            let (c1, r) = bs_utf8::failed(c, label);
            (c1, p, r)
        },
    }
}

/// Appends to a binary.
pub struct OpcodeBsAppend;

impl OpcodeBsAppend {
    /// Starts to build a binary that begins with another one and has room for so many units of
    /// bits more. Where there is a label, a binary that would be too large is refused before
    /// anything is built; where there is none, it has to fit.
    pub fn bs_append(
        ctx: &mut RuntimeContext,
        proc: &mut Process,
        label: &Term,
        sz: usize,
        unit: usize,
        bin: &Term,
        dst: &Term,
    ) -> (r: Result<DispatchResult, RtErr>)
        requires
            runtime::proc_ok(old(proc)@),
            unit > 0,
            sz < usize::MAX / unit,
            bin@ matches TermV::Binary(b) ==> runtime::valid(old(proc)@, b) && (label@ is Nil ==> sz
                * unit + b.bits <= runtime::bit_limit()),
        ensures
            (final(ctx)@, final(proc)@, fail::result_view(r)) == appended(
                old(ctx)@,
                old(proc)@,
                label@,
                sz * unit,
                bin@,
                dst@,
            ),
    {
        let more: BitSize = BitSize::with_unit(sz, unit);
        let b: BinRef = match bin {
            Term::Binary(b) => *b,
            _ => {
                if label.is_nil() {
                    return Err(badarg());
                }
                ctx.jump(label);
                return Ok(DispatchResult::Normal);
            },
        };
        assert(b.bits > 0 ==> 8 * proc@.bins[b.bin as int].len() <= usize::MAX / 2 - 8);
        if more.bits > usize::MAX / 2 - 15 || is_refused(ctx, label, more.bits + b.bits) {
            return Err(system_limit());
        }
        let has: usize = (b.bits + 7) / 8;
        let mut data: Vec<u8> = read_bytes(proc, b, has);
        let bytes: usize = (more + BitSize::with_bits(b.bits)).get_byte_size_rounded_up().bytes();
        let ghost goal = grown(proc@, b, sz * unit);
        let mut i: usize = has;
        assert(data@ =~= goal.take(has as int));
        while i < bytes
            invariant
                has <= i <= bytes,
                has == (b.bits + 7) / 8,
                bytes == (sz * unit + b.bits + 7) / 8,
                goal == grown(proc@, b, sz * unit),
                data@ == goal.take(i as int),
                goal.len() == bytes,
            decreases bytes - i,
        {
            data.push(0);
            i += 1;
            assert(data@ =~= goal.take(i as int));
        }
        assert(data@ =~= goal);
        start_binary(ctx, proc, label, data, more.bits + b.bits, b.bits, dst)
    }
}

/// Appending keeps what is there: the new binary begins with all bits of the old one, has as many
/// bits more as were asked for, and is built on right behind the old ones. The old one stays.
pub proof fn law_append_keeps_front(c: CtxV, p: ProcV, label: TermV, more: int, b: BinRef, reg: usize)
    requires
        runtime::proc_ok(p),
        runtime::valid(p, b),
        more >= 0,
        0 < b.bits + more <= runtime::bit_limit(),
        (b.bits + more + 7) / 8 <= c.max_binary,
        reg < c.x.len(),
        p.bins.len() <= usize::MAX,
    ensures
        ({
            let (c1, p1, r) = appended(c, p, label, more, TermV::Binary(b), TermV::RegX(reg));
            &&& r == Ok::<DispatchResult, RtErrV>(DispatchResult::Normal)
            &&& p1.bins.take(p.bins.len() as int) == p.bins
            &&& c1.x[reg as int] matches TermV::Binary(n) && runtime::valid(p1, n) && n.bits == b.bits
                + more && runtime::bits_at(p1, n).take(b.bits as int) == runtime::bits_at(p, b)
                && c1.current == Some(
                CurrentBin { bin: n.bin, offset: BitSize { bits: b.bits } },
            )
        }),
{
    let (c1, p1, r) = appended(c, p, label, more, TermV::Binary(b), TermV::RegX(reg));
    let n = c1.x[reg as int]->Binary_0;
    let data = grown(p, b, more);
    assert(p1.bins.take(p.bins.len() as int) =~= p.bins);
    assert(p1.bins[n.bin as int] == data);
    let got = runtime::bits_at(p1, n).take(b.bits as int);
    let want = runtime::bits_at(p, b);
    assert forall|i: int| 0 <= i < b.bits implies got[i] == want[i] by {
        let w = bits::window(bits::bits_of(p.bins[b.bin as int]), b.offset + 8 * (i / 8), 8);
        bs_create_bin::lemma_byte_has_bits(w, i % 8);
        assert(data[i / 8] == bits::number(w) as u8);
        assert(w[i % 8] == want[i]);
        assert(got[i] == bits::bits_of(data)[i]);
    }
    assert(got =~= want);
}

} // verus!
