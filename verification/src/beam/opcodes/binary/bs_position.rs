//! The position of a match, and what lies behind it.
use vstd::prelude::*;
use crate::beam::disp_result::DispatchResult;
use crate::beam::opcodes::binary::bs_match;
use crate::beam::opcodes::binary::bs_match::{bits_remaining, increase_offset, take_rest};
use crate::beam::runtime;
use crate::beam::runtime::{CtxV, MatchState, ProcV, Process, RuntimeContext};
use crate::fail;
use crate::fail::{RtErr, RtErrV};
use crate::term::{Term, TermV};

verus! {

/// So many bits of a match are skipped, or the code goes on at the label.
pub open spec fn skipped(c: CtxV, p: ProcV, label: TermV, ms: int, n: int) -> (CtxV, ProcV) {
    if n > bs_match::remaining(p, ms) {
        (runtime::jumped(c, label), p)
    } else {
        (c, bs_match::moved(p, ms, n))
    }
}

/// Skips bits of a match.
pub struct OpcodeBsSkipBits2;

impl OpcodeBsSkipBits2 {
    /// Skips so many units of bits, or goes on at the label where there are not so many.
    pub fn bs_skip_bits2(
        ctx: &mut RuntimeContext,
        proc: &mut Process,
        label: &Term,
        ms: usize,
        size: usize,
        unit: usize,
    ) -> (r: Result<DispatchResult, RtErr>)
        requires
            bs_match::match_ok(old(proc)@, ms as int),
        ensures
            r == Ok::<DispatchResult, RtErr>(DispatchResult::Normal),
            (final(ctx)@, final(proc)@) == skipped(
                old(ctx)@,
                old(proc)@,
                label@,
                ms as int,
                size * unit,
            ),
    {
        assert(0 <= size * unit <= 0xffff_ffff_ffff_ffff * 0xffff_ffff_ffff_ffff)
            by (nonlinear_arith)
            requires
                0 <= size <= 0xffff_ffff_ffff_ffff,
                0 <= unit <= 0xffff_ffff_ffff_ffff,
        ;
        let skip: u128 = size as u128 * unit as u128;
        if skip > bits_remaining(proc, ms) as u128 {
            ctx.jump(label);
            return Ok(DispatchResult::Normal);
        }
        increase_offset(proc, ms, skip as usize);
        Ok(DispatchResult::Normal)
    }
}

/// The rest of a match.
pub struct OpcodeBsGetTail;

impl OpcodeBsGetTail {
    /// Keeps the rest of a match in a register.
    pub fn bs_get_tail(
        ctx: &mut RuntimeContext,
        proc: &mut Process,
        ms: usize,
        dst: &Term,
        live: usize,
    ) -> (r: Result<DispatchResult, RtErr>)
        requires
            bs_match::match_ok(old(proc)@, ms as int),
        ensures
            ({
                let (c1, p1, kept) = bs_match::tail_kept(
                    old(ctx)@,
                    old(proc)@,
                    ms as int,
                    live,
                    dst@,
                );
                final(ctx)@ == c1 && final(proc)@ == p1 && fail::result_view(r) == match kept {
                    Ok(_) => Ok::<DispatchResult, RtErrV>(DispatchResult::Normal),
                    Err(e) => Err(e),
                }
            }),
    {
        if bits_remaining(proc, ms) > 0 {
            ctx.live = live;
        }
        let val: Term = take_rest(proc, ms);
        match ctx.store_value(val, dst, proc) {
            Ok(()) => Ok(DispatchResult::Normal),
            Err(e) => Err(e),
        }
    }
}

/// The position of a match.
pub struct OpcodeBsGetPosition;

impl OpcodeBsGetPosition {
    /// Keeps the position of a match in a register.
    pub fn bs_get_position(ctx: &mut RuntimeContext, proc: &mut Process, ms: usize, dst: &Term) -> (r:
        Result<DispatchResult, RtErr>)
        requires
            bs_match::match_ok(old(proc)@, ms as int),
        ensures
            (final(ctx)@, final(proc)@) == runtime::stored(
                old(ctx)@,
                old(proc)@,
                TermV::Small(old(proc)@.matches[ms as int].offset as i64),
                dst@,
            ),
            old(proc)@.matches[ms as int].offset <= i64::MAX,
            match runtime::store_result(old(ctx)@, old(proc)@, dst@) {
                Ok(()) => r == Ok::<DispatchResult, RtErr>(DispatchResult::Normal),
                Err(e) => r matches Err(f) && f@ == e,
            },
    {
        let m: MatchState = proc.matches[ms];
        proof {
            assert(m == proc@.matches[ms as int]);
            assert(runtime::valid(proc@, m.src));
            assert(m.src.bits > 0 ==> 8 * proc@.bins[m.src.bin as int].len() <= usize::MAX / 2 - 8);
        }
        match ctx.store_value(Term::Small(m.offset as i64), dst, proc) {
            Ok(()) => Ok(DispatchResult::Normal),
            Err(e) => Err(e),
        }
    }
}

/// The position that a term stands for.
pub open spec fn position_of(t: TermV) -> usize {
    match bs_match::usize_of(t) {
        Some(n) => n,
        None => 0,
    }
}

/// Goes back to a position.
pub struct OpcodeBsSetPosition;

impl OpcodeBsSetPosition {
    /// Goes back to a position that was kept.
    pub fn bs_set_position(ctx: &mut RuntimeContext, proc: &mut Process, ms: usize, pos: &Term) -> (r:
        Result<DispatchResult, RtErr>)
        requires
            bs_match::match_ok(old(proc)@, ms as int),
            position_of(runtime::loaded(old(ctx)@, old(proc)@, pos@)) <= old(
                proc,
            )@.matches[ms as int].src.bits,
        ensures
            r == Ok::<DispatchResult, RtErr>(DispatchResult::Normal),
            final(ctx)@ == old(ctx)@,
            final(proc)@ == (ProcV {
                matches: old(proc)@.matches.update(
                    ms as int,
                    MatchState {
                        offset: position_of(runtime::loaded(old(ctx)@, old(proc)@, pos@)),
                        ..old(proc)@.matches[ms as int]
                    },
                ),
                ..old(proc)@
            }),
            bs_match::match_ok(final(proc)@, ms as int),
    {
        let ghost p = proc@;
        let val: Term = ctx.load(pos, proc);
        let at: usize = match bs_match::OpcodeBsMatch::to_usize(&val) {
            Some(n) => n,
            None => 0,
        };
        let m: MatchState = proc.matches[ms];
        assert(m == p.matches[ms as int]);
        proc.matches.set(ms, MatchState { src: m.src, offset: at });
        proof {
            assert(proc@.bins =~= p.bins);
            let q = proc@;
            assert forall|i: int| 0 <= i < q.matches.len() implies runtime::valid(
                q,
                (#[trigger] q.matches[i]).src,
            ) && q.matches[i].offset <= q.matches[i].src.bits by {
                assert(runtime::valid(p, p.matches[i].src));
            }
        }
        Ok(DispatchResult::Normal)
    }
}

/// Going back to a position that was kept leaves the match as it was then.
pub proof fn law_position_restores(p: ProcV, ms: int, later: ProcV)
    requires
        bs_match::match_ok(p, ms),
        later.matches.len() == p.matches.len(),
        later.matches[ms].src == p.matches[ms].src,
    ensures
        position_of(TermV::Small(p.matches[ms].offset as i64)) == p.matches[ms].offset,
        later.matches.update(
            ms,
            MatchState {
                offset: position_of(TermV::Small(p.matches[ms].offset as i64)),
                ..later.matches[ms]
            },
        )[ms] == p.matches[ms],
{
    let m = p.matches[ms];
    assert(runtime::valid(p, m.src));
    assert(m.src.bits > 0 ==> 8 * p.bins[m.src.bin as int].len() <= usize::MAX / 2 - 8);
}

/// Bits that are there are skipped, all of them and no more; where there are not so many, the code
/// goes on at the label, and the match stays where it is.
pub proof fn law_skipped_or_not(c: CtxV, p: ProcV, label: usize, ms: int, n: int)
    requires
        bs_match::match_ok(p, ms),
        n >= 0,
    ensures
        ({
            let (d, q) = skipped(c, p, TermV::Code(label), ms, n);
            &&& n <= bs_match::remaining(p, ms) ==> d == c && q.matches[ms].offset
                == p.matches[ms].offset + n && bs_match::remaining(q, ms) == bs_match::remaining(
                p,
                ms,
            ) - n
            &&& n > bs_match::remaining(p, ms) ==> d.ip == label && q == p
            &&& forall|i: int|
                0 <= i < p.matches.len() && i != ms ==> #[trigger] q.matches[i] == p.matches[i]
        }),
{
    assert(runtime::valid(p, p.matches[ms].src));
}

} // verus!
