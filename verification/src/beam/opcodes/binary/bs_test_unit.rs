//! Testing how many bits remain.
use vstd::prelude::*;
use crate::beam::disp_result::DispatchResult;
use crate::beam::opcodes::binary::bs_match;
use crate::beam::opcodes::binary::bs_match::bits_remaining;
use crate::beam::runtime;
use crate::beam::runtime::{CtxV, Process, RuntimeContext};
use crate::fail::RtErr;
use crate::term::{Term, TermV};

verus! {

/// The code goes on at the label unless what is left is whole units.
pub open spec fn unit_tested(c: CtxV, label: TermV, left: int, unit: usize) -> CtxV {
    if unit == 0 || left % unit as int != 0 {
        runtime::jumped(c, label)
    } else {
        c
    }
}

/// The code goes on at the label unless just so many bits are left.
pub open spec fn tail_tested(c: CtxV, label: TermV, left: int, n: usize) -> CtxV {
    if left != n {
        runtime::jumped(c, label)
    } else {
        c
    }
}

/// Tests whether the bits that remain are whole units.
pub struct OpcodeBsTestUnit;

impl OpcodeBsTestUnit {
    /// Goes on at the label unless the bits that remain are whole units.
    pub fn bs_test_unit(ctx: &mut RuntimeContext, proc: &Process, label: &Term, ms: usize, unit: usize) -> (r: Result<
        DispatchResult,
        RtErr,
    >)
        requires
            bs_match::match_ok(proc@, ms as int),
        ensures
            r == Ok::<DispatchResult, RtErr>(DispatchResult::Normal),
            final(ctx)@ == unit_tested(
                old(ctx)@,
                label@,
                bs_match::remaining(proc@, ms as int),
                unit,
            ),
    {
        let left: usize = bits_remaining(proc, ms);
        if unit == 0 || left % unit != 0 {
            ctx.jump(label);
        }
        Ok(DispatchResult::Normal)
    }
}

/// Tests whether so many bits remain.
pub struct OpcodeBsTestTail2;

impl OpcodeBsTestTail2 {
    /// Goes on at the label unless just so many bits remain.
    pub fn bs_test_tail2(ctx: &mut RuntimeContext, proc: &Process, label: &Term, ms: usize, bits: usize) -> (r: Result<
        DispatchResult,
        RtErr,
    >)
        requires
            bs_match::match_ok(proc@, ms as int),
        ensures
            r == Ok::<DispatchResult, RtErr>(DispatchResult::Normal),
            final(ctx)@ == tail_tested(
                old(ctx)@,
                label@,
                bs_match::remaining(proc@, ms as int),
                bits,
            ),
    {
        if bits_remaining(proc, ms) != bits {
            ctx.jump(label);
        }
        Ok(DispatchResult::Normal)
    }
}

/// Where the bits that remain are so many whole units, the code goes on as it stands; with any bits
/// over, it goes on at the label.
pub proof fn law_whole_units_pass(c: CtxV, label: usize, unit: usize, units: nat, over: nat)
    requires
        over < unit,
    ensures
        over == 0 ==> unit_tested(c, TermV::Code(label), (units * unit + over) as int, unit) == c,
        over > 0 ==> unit_tested(c, TermV::Code(label), (units * unit + over) as int, unit).ip
            == label,
{
    vstd::arithmetic::div_mod::lemma_fundamental_div_mod_converse(
        (units * unit + over) as int,
        unit as int,
        units as int,
        over as int,
    );
}

/// Only where just so many bits remain does the code go on as it stands.
pub proof fn law_just_so_many_pass(c: CtxV, label: usize, left: int, n: usize)
    ensures
        left == n ==> tail_tested(c, TermV::Code(label), left, n) == c,
        left != n ==> tail_tested(c, TermV::Code(label), left, n).ip == label,
{
}

} // verus!
