//! Sending and receiving messages.
use vstd::prelude::*;
use crate::beam::disp_result::{DispatchResult, YieldType};
use crate::beam::runtime;
use crate::beam::runtime::{CtxV, ProcV, Process, RuntimeContext};
use crate::fail;
use crate::fail::{badarg, RtErr, RtErrV};
use crate::term;
use crate::term::{Term, TermV};
use crate::util::assoc::AssocMap;

verus! {

/// The processes that messages can be sent to, with the messages that wait for each.
pub struct Processes {
    pub waiting: AssocMap<u64, Vec<Term>>,
}

impl View for Processes {
    type V = Map<u64, Seq<TermV>>;

    open spec fn view(&self) -> Map<u64, Seq<TermV>> {
        self.waiting@.map_values(|v: Vec<Term>| term::terms_view(v@))
    }
}

/// A message is sent: what is in register 1 goes to the process in register 0, if there is one,
/// and is then in register 0.
pub open spec fn sent(all: Map<u64, Seq<TermV>>, c: CtxV) -> (
    Map<u64, Seq<TermV>>,
    CtxV,
    Result<DispatchResult, RtErrV>,
) {
    match c.x[0] {
        TermV::Pid(n) => (
            if all.dom().contains(n) {
                all.insert(n, all[n].push(c.x[1]))
            } else {
                all
            },
            CtxV { x: c.x.update(0, c.x[1]), ..c },
            Ok(DispatchResult::Normal),
        ),
        _ => (all, c, Err(fail::atom_error("badarg"@))),
    }
}

/// Sends a message.
pub struct OpcodeSend;

impl OpcodeSend {
    /// Sends what is in register 1 to the process in register 0.
    pub fn send(all: &mut Processes, ctx: &mut RuntimeContext) -> (r: Result<DispatchResult, RtErr>)
        requires
            old(ctx)@.x.len() >= 2,
        ensures
            (final(all)@, final(ctx)@, fail::result_view(r)) == sent(old(all)@, old(ctx)@),
    {
        let ghost was = all@;
        let msg: Term = ctx.get_x(1);
        let to: Term = ctx.get_x(0);
        let pid: u64 = match to {
            Term::Pid(n) => n,
            _ => {
                return Err(badarg());
            },
        };
        match all.waiting.remove(&pid) {
            Some(v) => {
                let mut msgs: Vec<Term> = v;
                let ghost had = msgs@;
                msgs.push(msg.copy());
                proof {
                    assert(term::terms_view(msgs@) =~= term::terms_view(had).push(msg@));
                }
                all.waiting.insert(pid, msgs);
                assert(all@ =~= was.insert(pid, was[pid].push(msg@)));
            },
            None => {
                assert(all@ =~= was);
            },
        }
        ctx.set_x(0, msg);
        Ok(DispatchResult::Normal)
    }
}

/// The message that is looked at.
pub open spec fn current_message(p: ProcV) -> Option<TermV> {
    if p.read_index < p.messages.len() {
        Some(p.messages[p.read_index as int])
    } else {
        None
    }
}

/// The message that is looked at is in register 0; where there is none, the code goes on at the
/// label.
pub open spec fn seen(c: CtxV, p: ProcV, label: TermV) -> CtxV {
    match current_message(p) {
        Some(m) => CtxV { x: c.x.update(0, m), ..c },
        None => runtime::jumped(c, label),
    }
}

/// The next message is looked at.
pub open spec fn next_looked_at(p: ProcV) -> ProcV {
    ProcV { read_index: (p.read_index + 1) as usize, ..p }
}

/// The message that is looked at leaves the queue for register 0.
pub open spec fn taken_out(c: CtxV, p: ProcV) -> (CtxV, ProcV) {
    (
        CtxV { x: c.x.update(0, current_message(p)->0), ..c },
        ProcV { messages: p.messages.remove(p.read_index as int), read_index: 0, ..p },
    )
}

/// Looks at a message.
pub struct OpcodeLoopRec;

impl OpcodeLoopRec {
    /// Takes the message that is looked at to register 0, or goes on at the label where there is
    /// none.
    pub fn loop_rec(ctx: &mut RuntimeContext, proc: &Process, label: &Term) -> (r: Result<
        DispatchResult,
        RtErr,
    >)
        requires
            old(ctx)@.x.len() >= 1,
        ensures
            r == Ok::<DispatchResult, RtErr>(DispatchResult::Normal),
            final(ctx)@ == seen(old(ctx)@, proc@, label@),
    {
        let i: usize = proc.mailbox.read_index;
        if i < proc.mailbox.messages.len() {
            let m: Term = proc.mailbox.messages[i].copy();
            assert(m@ == proc@.messages[i as int]);
            ctx.set_x(0, m);
        } else {
            ctx.jump(label);
        }
        Ok(DispatchResult::Normal)
    }
}

/// Goes to the next message.
pub struct OpcodeLoopRecEnd;

impl OpcodeLoopRecEnd {
    /// Looks at the next message, and goes on at the label.
    pub fn loop_rec_end(ctx: &mut RuntimeContext, proc: &mut Process, label: &Term) -> (r: Result<
        DispatchResult,
        RtErr,
    >)
        requires
            old(proc)@.read_index < usize::MAX,
        ensures
            r == Ok::<DispatchResult, RtErr>(DispatchResult::Normal),
            final(ctx)@ == runtime::jumped(old(ctx)@, label@),
            final(proc)@ == next_looked_at(old(proc)@),
    {
        proc.mailbox.read_index = proc.mailbox.read_index + 1;
        ctx.jump(label);
        Ok(DispatchResult::Normal)
    }
}

/// Takes a message out.
pub struct OpcodeRemoveMessage;

impl OpcodeRemoveMessage {
    /// Takes the message that is looked at out of the queue, to register 0.
    pub fn remove_message(ctx: &mut RuntimeContext, proc: &mut Process) -> (r: Result<
        DispatchResult,
        RtErr,
    >)
        requires
            old(ctx)@.x.len() >= 1,
            current_message(old(proc)@) is Some,
        ensures
            r == Ok::<DispatchResult, RtErr>(DispatchResult::Normal),
            (final(ctx)@, final(proc)@) == taken_out(old(ctx)@, old(proc)@),
    {
        let ghost p = proc@;
        let i: usize = proc.mailbox.read_index;
        let m: Term = proc.mailbox.messages.remove(i);
        proc.mailbox.read_index = 0;
        proof {
            assert(m@ == p.messages[i as int]);
            assert(proc@.messages =~= p.messages.remove(i as int));
        }
        ctx.set_x(0, m);
        Ok(DispatchResult::Normal)
    }
}

/// Waits for a message.
pub struct OpcodeWait;

impl OpcodeWait {
    /// Gives up the turn; the code goes on at the label.
    pub fn wait(ctx: &mut RuntimeContext, label: &Term) -> (r: Result<DispatchResult, RtErr>)
        ensures
            r == Ok::<DispatchResult, RtErr>(DispatchResult::Yield(YieldType::InfiniteWait)),
            final(ctx)@ == runtime::jumped(old(ctx)@, label@),
    {
        ctx.jump(label);
        Ok(DispatchResult::Yield(YieldType::InfiniteWait))
    }
}

/// Ends a wait.
pub struct OpcodeTimeout;

impl OpcodeTimeout {
    /// Looks at the first message again.
    pub fn timeout(proc: &mut Process) -> (r: Result<DispatchResult, RtErr>)
        ensures
            r == Ok::<DispatchResult, RtErr>(DispatchResult::Normal),
            final(proc)@ == (ProcV { read_index: 0, ..old(proc)@ }),
    {
        proc.mailbox.read_index = 0;
        Ok(DispatchResult::Normal)
    }
}

/// Waits for a message, but not for ever.
pub struct OpcodeWaitTimeout;

impl OpcodeWaitTimeout {
    /// A time of zero is over at once, and the next opcode comes; otherwise the turn is given up,
    /// and the code goes on at the label.
    pub fn wait_timeout(ctx: &mut RuntimeContext, label: &Term, time: &Term) -> (r: Result<
        DispatchResult,
        RtErr,
    >)
        ensures
            if time@ == TermV::Small(0) {
                r == Ok::<DispatchResult, RtErr>(DispatchResult::Normal) && final(ctx)@ == old(ctx)@
            } else {
                r == Ok::<DispatchResult, RtErr>(DispatchResult::Yield(YieldType::InfiniteWait))
                    && final(ctx)@ == runtime::jumped(old(ctx)@, label@)
            },
    {
        match time {
            Term::Small(n) => {
                if *n == 0 {
                    return Ok(DispatchResult::Normal);
                }
            },
            _ => {},
        }
        ctx.jump(label);
        Ok(DispatchResult::Yield(YieldType::InfiniteWait))
    }
}

/// A message that is sent waits behind all others at its receiver, and nobody else gets one.
pub proof fn law_sent_waits_last(all: Map<u64, Seq<TermV>>, c: CtxV, n: u64, other: u64)
    requires
        c.x.len() >= 2,
        c.x[0] == TermV::Pid(n),
        all.dom().contains(n),
        other != n,
        all.dom().contains(other),
    ensures
        sent(all, c).0[n] == all[n].push(c.x[1]),
        sent(all, c).0[other] == all[other],
{
}

/// A process that has passed over so many messages.
pub open spec fn passed(p: ProcV, n: nat) -> ProcV
    decreases n,
{
    if n == 0 {
        p
    } else {
        next_looked_at(passed(p, (n - 1) as nat))
    }
}

proof fn lemma_passed(p: ProcV, n: nat)
    requires
        p.read_index == 0,
        n <= usize::MAX,
    ensures
        passed(p, n).read_index == n,
        passed(p, n).messages == p.messages,
    decreases n,
{
    if n > 0 {
        lemma_passed(p, (n - 1) as nat);
    }
}

/// Messages are looked at one by one, from the first to the last, none is passed over unseen, and
/// behind the last the code goes on at the label.
pub proof fn law_messages_seen_in_order(c: CtxV, p: ProcV, label: TermV, k: nat)
    requires
        c.x.len() >= 1,
        p.read_index == 0,
        p.messages.len() <= usize::MAX,
        k <= p.messages.len(),
    ensures
        k < p.messages.len() ==> seen(c, passed(p, k), label).x[0] == p.messages[k as int] && seen(
            c,
            passed(p, k),
            label,
        ).ip == c.ip,
        k == p.messages.len() ==> seen(c, passed(p, k), label) == runtime::jumped(c, label),
        passed(p, k).messages == p.messages,
{
    lemma_passed(p, k);
}

/// A message that is taken out is the one that was looked at; all others stay in their order, and the
/// next look is at the first of them.
pub proof fn law_one_message_taken(c: CtxV, p: ProcV, label: TermV)
    requires
        c.x.len() >= 1,
        current_message(p) is Some,
    ensures
        ({
            let (d, q) = taken_out(c, p);
            let i = p.read_index as int;
            &&& d.x[0] == p.messages[i]
            &&& d == seen(c, p, label)
            &&& q.messages == p.messages.take(i) + p.messages.skip(i + 1)
            &&& q.messages.len() + 1 == p.messages.len()
            &&& q.read_index == 0
            &&& q.y == p.y && q.catches == p.catches && q.exception == p.exception
        }),
{
    let i = p.read_index as int;
    assert(taken_out(c, p).1.messages =~= p.messages.take(i) + p.messages.skip(i + 1));
}

} // verus!
