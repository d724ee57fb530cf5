//! Starting to build a binary.
use vstd::prelude::*;
use crate::beam::disp_result::DispatchResult;
use crate::beam::runtime;
use crate::beam::runtime::{CtxV, CurrentBin, ProcV, Process, RuntimeContext};
use crate::defs::bitsize::BitSize;
use crate::fail;
use crate::fail::{system_limit, RtErr, RtErrV};
use crate::term::{BinRef, Term, TermV};

verus! {

/// What an opcode makes of the machine.
pub type Step = (CtxV, ProcV, Result<DispatchResult, RtErrV>);

/// The result of an opcode that keeps a value.
pub open spec fn kept(c: CtxV, p: ProcV, val: TermV, dst: TermV) -> Step {
    let (c1, p1) = runtime::stored(c, p, val, dst);
    (
        c1,
        p1,
        match runtime::store_result(c, p, dst) {
            Ok(()) => Ok(DispatchResult::Normal),
            Err(e) => Err(e),
        },
    )
}

/// A binary of so many bits is refused: there is a label, and it would be larger than a binary may
/// be.
pub open spec fn refused(c: CtxV, label: TermV, bits: int) -> bool {
    label != TermV::Nil && (bits > runtime::bit_limit() || (bits + 7) / 8 > c.max_binary)
}

/// A binary of so many bits is started: these bytes stand, and building goes on at `at`.
pub open spec fn started(
    c: CtxV,
    p: ProcV,
    label: TermV,
    data: Seq<u8>,
    bits: int,
    at: usize,
    dst: TermV,
) -> Step {
    if bits == 0 {
        kept(c, p, runtime::empty_binary(), dst)
    } else if refused(c, label, bits) {
        (c, p, Err(fail::atom_error("system_limit"@)))
    } else {
        let bin = p.bins.len() as usize;
        kept(
            CtxV { current: Some(CurrentBin { bin, offset: BitSize { bits: at } }), ..c },
            ProcV { bins: p.bins.push(data), ..p },
            TermV::Binary(BinRef { bin, offset: 0, bits: bits as usize }),
            dst,
        )
    }
}

/// Whether a binary of so many bits is refused.
pub fn is_refused(ctx: &RuntimeContext, label: &Term, bits: usize) -> (r: bool)
    ensures
        r == refused(ctx@, label@, bits as int),
{
    !label.is_nil() && (bits > usize::MAX / 2 - 15 || (bits + 7) / 8 > ctx.max_binary)
}

/// Starts a binary that is not refused.
pub fn start_binary(
    ctx: &mut RuntimeContext,
    proc: &mut Process,
    label: &Term,
    data: Vec<u8>,
    bits: usize,
    at: usize,
    dst: &Term,
) -> (r: Result<DispatchResult, RtErr>)
    requires
        runtime::proc_ok(old(proc)@),
        8 * data@.len() <= usize::MAX / 2 - 8,
        !refused(old(ctx)@, label@, bits as int),
    ensures
        (final(ctx)@, final(proc)@, fail::result_view(r)) == started(
            old(ctx)@,
            old(proc)@,
            label@,
            data@,
            bits as int,
            at,
            dst@,
        ),
{
    let val: Term = if bits == 0 {
        Term::Binary(BinRef { bin: 0, offset: 0, bits: 0 })
    } else {
        let bin: usize = proc.add_bytes(data);
        ctx.current_bin = Some(CurrentBin { bin, offset: BitSize::with_bits(at) });
        Term::Binary(BinRef { bin, offset: 0, bits })
    };
    match ctx.store_value(val, dst, proc) {
        Ok(()) => Ok(DispatchResult::Normal),
        Err(e) => Err(e),
    }
}

/// Starts to build a binary.
pub struct OpcodeBsInitBits;

impl OpcodeBsInitBits {
    /// Starts to build a binary of so many units of bits, all zeros. Where there is a label, a
    /// binary that would be too large is refused before anything is built; where there is none,
    /// it has to fit.
    pub fn bs_init_bits(
        ctx: &mut RuntimeContext,
        proc: &mut Process,
        label: &Term,
        sz: usize,
        unit: usize,
        dst: &Term,
    ) -> (r: Result<DispatchResult, RtErr>)
        requires
            runtime::proc_ok(old(proc)@),
            unit > 0,
            sz < usize::MAX / unit,
            label@ is Nil ==> sz * unit <= runtime::bit_limit(),
        ensures
            (final(ctx)@, final(proc)@, fail::result_view(r)) == started(
                old(ctx)@,
                old(proc)@,
                label@,
                Seq::new(((sz * unit + 7) / 8) as nat, |i: int| 0u8),
                sz * unit,
                0,
                dst@,
            ),
    {
        let bits: BitSize = BitSize::with_unit(sz, unit);
        if is_refused(ctx, label, bits.bits) {
            return Err(system_limit());
        }
        let bytes: usize = bits.get_byte_size_rounded_up().bytes();
        let mut data: Vec<u8> = Vec::new();
        let mut i: usize = 0;
        while i < bytes
            invariant
                i <= bytes,
                data@ == Seq::new(i as nat, |k: int| 0u8),
            decreases bytes - i,
        {
            data.push(0);
            i += 1;
            assert(data@ =~= Seq::new(i as nat, |k: int| 0u8));
        }
        start_binary(ctx, proc, label, data, bits.bits, 0, dst)
    }
}

/// A binary that is started stands in storage of its own and in the register that was named; it has
/// the bytes it was started with, and building goes on at the place that was given.
pub proof fn law_started_binary(
    c: CtxV,
    p: ProcV,
    label: TermV,
    data: Seq<u8>,
    bits: int,
    at: usize,
    reg: usize,
)
    requires
        0 < bits <= runtime::bit_limit(),
        bits <= 8 * data.len(),
        (bits + 7) / 8 <= c.max_binary,
        reg < c.x.len(),
        p.bins.len() <= usize::MAX,
    ensures
        ({
            let (c1, p1, r) = started(c, p, label, data, bits, at, TermV::RegX(reg));
            &&& r == Ok::<DispatchResult, RtErrV>(DispatchResult::Normal)
            &&& p1.bins == p.bins.push(data)
            &&& c1.x[reg as int] matches TermV::Binary(b) && b.bits == bits && b.offset == 0
                && p1.bins[b.bin as int] == data && c1.current == Some(
                CurrentBin { bin: b.bin, offset: BitSize { bits: at } },
            )
        }),
{
}

/// Where there is a label, a binary larger than a binary may be is refused, and nothing changes;
/// without a label none is refused.
pub proof fn law_too_large_refused(
    c: CtxV,
    p: ProcV,
    label: TermV,
    data: Seq<u8>,
    bits: int,
    at: usize,
    dst: TermV,
)
    requires
        bits > 0,
        (bits + 7) / 8 > c.max_binary,
    ensures
        label != TermV::Nil ==> started(c, p, label, data, bits, at, dst) == (
            c,
            p,
            Err::<DispatchResult, RtErrV>(fail::atom_error("system_limit"@)),
        ),
        label == TermV::Nil && runtime::is_register(c, p, dst) ==> started(
            c,
            p,
            label,
            data,
            bits,
            at,
            dst,
        ).2 is Ok,
{
}

} // verus!
