//! Turning a match context into the binary that remains.
use vstd::prelude::*;
use crate::beam::disp_result::DispatchResult;
use crate::beam::opcodes::binary::bs_match;
use crate::beam::opcodes::binary::bs_match::take_rest;
use crate::beam::runtime;
use crate::beam::runtime::{Process, RuntimeContext};
use crate::fail::RtErr;
use crate::term::{Term, TermV};

verus! {

/// Turns a match context into the binary that remains.
pub struct OpcodeBsContextToBinary;

impl OpcodeBsContextToBinary {
    /// Where a register holds a match context, it holds the rest of the binary afterwards;
    /// otherwise it stays as it is.
    pub fn bs_context_to_binary(ctx: &mut RuntimeContext, proc: &mut Process, reg: &Term) -> (r: Result<
        DispatchResult,
        RtErr,
    >)
        requires
            runtime::proc_ok(old(proc)@),
            runtime::loaded(old(ctx)@, old(proc)@, reg@) matches TermV::Matching(ms) ==> ms < old(
                proc,
            )@.matches.len(),
        ensures
            match runtime::loaded(old(ctx)@, old(proc)@, reg@) {
                TermV::Matching(ms) => {
                    let val = if bs_match::remaining(old(proc)@, ms as int) == 0 {
                        runtime::empty_binary()
                    } else {
                        TermV::Binary(bs_match::rest(old(proc)@, ms as int))
                    };
                    (final(ctx)@, final(proc)@) == runtime::stored(
                        old(ctx)@,
                        old(proc)@,
                        val,
                        reg@,
                    ) && match runtime::store_result(old(ctx)@, old(proc)@, reg@) {
                        Ok(()) => r == Ok::<DispatchResult, RtErr>(DispatchResult::Normal),
                        Err(e) => r matches Err(f) && f@ == e,
                    }
                },
                _ => final(ctx)@ == old(ctx)@ && final(proc)@ == old(proc)@ && r == Ok::<
                    DispatchResult,
                    RtErr,
                >(DispatchResult::Normal),
            },
    {
        let val: Term = ctx.load(reg, proc);
        match val {
            Term::Matching(ms) => {
                let left: Term = take_rest(proc, ms);
                match ctx.store_value(left, reg, proc) {
                    Ok(()) => Ok(DispatchResult::Normal),
                    Err(e) => Err(e),
                }
            },
            _ => Ok(DispatchResult::Normal),
        }
    }
}

} // verus!
