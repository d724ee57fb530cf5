//! The bridge between the scheduler and those who do its input and output.
use vstd::prelude::*;
use crossbeam_channel::{Receiver, Sender};
use crate::agent_rt::types::{AgentPid, IoOp, IoOpV, IoResult, IoResultV, Message, SystemMsg};
use crate::json::{JsonV, NumV, ObjectBuilder};

verus! {

/// How many requests may wait.
pub const REQUEST_QUEUE_SIZE: usize = 1024;

/// How many responses may wait.
pub const RESPONSE_QUEUE_SIZE: usize = 4096;

/// An operation that a process asked for.
#[derive(Debug, PartialEq, Eq)]
pub struct IoRequest {
    pub correlation_id: u64,
    pub source_pid: AgentPid,
    pub op: IoOp,
}

/// What became of an operation.
#[derive(Debug, PartialEq, Eq)]
pub struct IoResponse {
    pub correlation_id: u64,
    pub source_pid: AgentPid,
    pub result: IoResult,
}

/// The sending end of a channel of `crossbeam_channel`.
#[verifier::external_type_specification]
#[verifier::external_body]
#[verifier::reject_recursive_types(T)]
pub struct ExSender<T>(Sender<T>);

/// The receiving end of a channel of `crossbeam_channel`.
#[verifier::external_type_specification]
#[verifier::external_body]
#[verifier::reject_recursive_types(T)]
pub struct ExReceiver<T>(Receiver<T>);

/// What became of a request that was put on the channel.
#[derive(Debug, Clone, Copy, PartialEq, Eq, Structural)]
pub enum Handover {
    /// It waits there.
    Sent,
    /// There was no room.
    Full,
    /// Nobody is at the other end.
    Disconnected,
}

/// How many requests a channel was made to hold.
pub uninterp spec fn request_limit(tx: Sender<IoRequest>) -> nat;

/// How many responses a channel was made to hold.
pub uninterp spec fn response_limit(tx: Sender<IoResponse>) -> nat;

/// Whether requests put in at one end arrive at the other: both are ends of one channel.
pub uninterp spec fn requests_arrive(tx: Sender<IoRequest>, rx: Receiver<IoRequest>) -> bool;

/// Whether responses put in at one end arrive at the other: both are ends of one channel.
pub uninterp spec fn responses_arrive(tx: Sender<IoResponse>, rx: Receiver<IoResponse>) -> bool;

/// Calls [`crossbeam_channel::bounded`] for requests: both ends of one new channel that holds as
/// many requests as it is told. When they come out is not stated: that depends on who uses the
/// ends.
#[verifier::external_body]
fn request_channel(limit: usize) -> (r: (Sender<IoRequest>, Receiver<IoRequest>))
    requires
        limit <= 65536,
    ensures
        request_limit(r.0) == limit,
        requests_arrive(r.0, r.1),
{
    crossbeam_channel::bounded(limit)
}

/// Calls [`crossbeam_channel::bounded`] for responses: both ends of one new channel that holds as
/// many responses as it is told. When they come out is not stated: that depends on who uses the
/// ends.
#[verifier::external_body]
fn response_channel(limit: usize) -> (r: (Sender<IoResponse>, Receiver<IoResponse>))
    requires
        limit <= 65536,
    ensures
        response_limit(r.0) == limit,
        responses_arrive(r.0, r.1),
{
    crossbeam_channel::bounded(limit)
}

/// Whether this can become of this request, put on this channel.
pub uninterp spec fn can_become(tx: Sender<IoRequest>, request: IoRequest, h: Handover) -> bool;

/// Whether these responses can wait, in this order, at this end of a channel.
pub uninterp spec fn can_wait(rx: Receiver<IoResponse>, xs: Seq<IoResponse>) -> bool;

/// Calls [`Sender::try_send`]. Whether there is room, and whether somebody is at the other end,
/// depends on the other end, so all that is stated is that what came back can become of this
/// request on this channel.
#[verifier::external_body]
fn hand_over(tx: &Sender<IoRequest>, request: IoRequest) -> (r: Handover)
    ensures
        can_become(*tx, request, r),
{
    match tx.try_send(request) {
        Ok(()) => Handover::Sent,
        Err(crossbeam_channel::TrySendError::Full(_)) => Handover::Full,
        Err(crossbeam_channel::TrySendError::Disconnected(_)) => Handover::Disconnected,
    }
}

/// Calls [`Receiver::try_iter`] and takes all that is there. What is there depends on the other
/// end, so all that is stated is that it can wait at this end.
#[verifier::external_body]
fn take_waiting(rx: &Receiver<IoResponse>) -> (r: Vec<IoResponse>)
    ensures
        can_wait(*rx, r@),
{
    rx.try_iter().collect()
}

/// The scheduler's end of the bridge.
pub struct BridgeHandle {
    pub request_tx: Sender<IoRequest>,
    pub response_rx: Receiver<IoResponse>,
    pub next_correlation_id: u64,
}

/// The other end of the bridge.
pub struct BridgeWorker {
    pub request_rx: Receiver<IoRequest>,
    pub response_tx: Sender<IoResponse>,
}

/// Both ends of a new bridge: requests of one arrive at the other, and responses come back. The
/// first request has the number zero.
pub fn create_bridge() -> (r: (BridgeHandle, BridgeWorker))
    ensures
        r.0.next_correlation_id == 0,
        request_limit(r.0.request_tx) == REQUEST_QUEUE_SIZE,
        response_limit(r.1.response_tx) == RESPONSE_QUEUE_SIZE,
        requests_arrive(r.0.request_tx, r.1.request_rx),
        responses_arrive(r.1.response_tx, r.0.response_rx),
{
    let (request_tx, request_rx) = request_channel(REQUEST_QUEUE_SIZE);
    let (response_tx, response_rx) = response_channel(RESPONSE_QUEUE_SIZE);
    (
        BridgeHandle { request_tx, response_rx, next_correlation_id: 0 },
        BridgeWorker { request_rx, response_tx },
    )
}

/// What a request leads to: its number, or why it was not taken; and the number of the next.
pub open spec fn submitted(next: u64, h: Handover) -> (u64, Result<u64, Seq<char>>) {
    match h {
        Handover::Sent => ((next + 1) as u64, Ok(next)),
        Handover::Full => (next, Err("request queue full"@)),
        Handover::Disconnected => (next, Err("bridge worker disconnected"@)),
    }
}

/// What came back of a request.
pub open spec fn number_view(r: Result<u64, String>) -> Result<u64, Seq<char>> {
    match r {
        Ok(n) => Ok(n),
        Err(e) => Err(e@),
    }
}

/// What a request leads to, after it was put on the channel.
pub fn after_handover(next: u64, h: Handover) -> (r: (u64, Result<u64, String>))
    requires
        next < u64::MAX,
    ensures
        (r.0, number_view(r.1)) == submitted(next, h),
{
    match h {
        Handover::Sent => (next + 1, Ok(next)),
        Handover::Full => (next, Err("request queue full".to_owned())),
        Handover::Disconnected => (next, Err("bridge worker disconnected".to_owned())),
    }
}

/// The message that tells a process what became of its operation.
pub open spec fn told(r: IoResponse) -> (AgentPid, Message) {
    (
        r.source_pid,
        Message::System(
            SystemMsg::IoResponse { correlation_id: r.correlation_id, result: r.result },
        ),
    )
}

/// The messages that tell of several operations, in order.
pub open spec fn all_told(xs: Seq<IoResponse>) -> Seq<(AgentPid, Message)> {
    xs.map_values(|x: IoResponse| told(x))
}

/// The messages that tell processes what became of their operations, in order.
pub fn responses_to_messages(responses: Vec<IoResponse>) -> (r: Vec<(AgentPid, Message)>)
    ensures
        r@ == all_told(responses@),
{
    let ghost all = responses@;
    let mut out: Vec<(AgentPid, Message)> = Vec::new();
    for x in it: responses
        invariant
            it.seq() == all,
            out@.len() == it.index(),
            forall|j: int| 0 <= j < out@.len() ==> #[trigger] out@[j] == told(all[j]),
    {
        out.push(
            (
                x.source_pid,
                Message::System(
                    SystemMsg::IoResponse { correlation_id: x.correlation_id, result: x.result },
                ),
            ),
        );
    }
    assert(out@ =~= all_told(all));
    out
}

impl BridgeHandle {
    /// Asks for an operation: what is put on the channel is the operation, who asked for it and
    /// the number of the request, which comes back where it was taken.
    pub fn submit(&mut self, pid: AgentPid, op: IoOp) -> (r: Result<u64, String>)
        requires
            old(self).next_correlation_id < u64::MAX,
        ensures
            final(self).request_tx == old(self).request_tx,
            final(self).response_rx == old(self).response_rx,
            exists|h: Handover| #[trigger]
                can_become(
                    old(self).request_tx,
                    (IoRequest {
                        correlation_id: old(self).next_correlation_id,
                        source_pid: pid,
                        op,
                    }),
                    h,
                ) && (final(self).next_correlation_id, number_view(r)) == submitted(
                    old(self).next_correlation_id,
                    h,
                ),
    {
        let cid: u64 = self.next_correlation_id;
        let request = IoRequest { correlation_id: cid, source_pid: pid, op };
        let h: Handover = hand_over(&self.request_tx, request);
        let (next, r) = after_handover(cid, h);
        self.next_correlation_id = next;
        r
    }

    /// Takes all responses that wait, as messages to the processes that asked.
    pub fn drain_responses(&self) -> (r: Vec<(AgentPid, Message)>)
        ensures
            exists|xs: Seq<IoResponse>| #[trigger]
                can_wait(self.response_rx, xs) && r@ == all_told(xs),
    {
        let waiting: Vec<IoResponse> = take_waiting(&self.response_rx);
        responses_to_messages(waiting)
    }
}

/// The result of an operation that is over: a timer says how long it took, a request over HTTP
/// is not made yet. The others are done elsewhere.
pub open spec fn finished(op: IoOpV) -> Option<IoResultV> {
    match op {
        IoOpV::Timer { duration_ms } => Some(
            IoResultV::Done(
                JsonV::Object(
                    seq![
                        ("kind"@, JsonV::Str("timer"@)),
                        ("elapsed_ms"@, JsonV::Num(NumV::PosInt(duration_ms))),
                    ],
                ),
            ),
        ),
        IoOpV::HttpRequest { method, url, body: _ } => Some(
            IoResultV::Done(
                JsonV::Object(
                    seq![
                        ("kind"@, JsonV::Str("http"@)),
                        ("method"@, JsonV::Str(method)),
                        ("url"@, JsonV::Str(url)),
                        ("status"@, JsonV::Str("placeholder"@)),
                    ],
                ),
            ),
        ),
        _ => None,
    }
}

/// The result of an operation that is over.
pub fn execute_io_op(op: &IoOp) -> (r: Option<IoResult>)
    ensures
        (match r {
            Some(x) => Some(x@),
            None => None,
        }) == finished(op@),
{
    match op {
        IoOp::Timer { duration_ms } => {
            let mut o = ObjectBuilder::new();
            o.put_str("kind", "timer");
            o.put_u64("elapsed_ms", *duration_ms);
            assert(o@ =~= seq![
                ("kind"@, JsonV::Str("timer"@)),
                ("elapsed_ms"@, JsonV::Num(NumV::PosInt(*duration_ms))),
            ]);
            Some(IoResult::Done(o.build()))
        },
        IoOp::HttpRequest { method, url, body: _ } => {
            let mut o = ObjectBuilder::new();
            o.put_str("kind", "http");
            o.put_str("method", method.as_str());
            o.put_str("url", url.as_str());
            o.put_str("status", "placeholder");
            assert(o@ =~= seq![
                ("kind"@, JsonV::Str("http"@)),
                ("method"@, JsonV::Str(method@)),
                ("url"@, JsonV::Str(url@)),
                ("status"@, JsonV::Str("placeholder"@)),
            ]);
            Some(IoResult::Done(o.build()))
        },
        _ => None,
    }
}

/// Requests that are taken one after the other have different numbers.
pub proof fn law_numbers_increase(next: u64)
    requires
        next < u64::MAX - 1,
    ensures
        submitted(next, Handover::Sent).1 == Ok::<u64, Seq<char>>(next),
        submitted(submitted(next, Handover::Sent).0, Handover::Sent).1 == Ok::<u64, Seq<char>>(
            (next + 1) as u64,
        ),
{
}

/// Every response is told to the process that asked, under the number of its request, with its
/// result, and in order.
pub proof fn law_each_response_told(xs: Seq<IoResponse>, i: int)
    requires
        0 <= i < xs.len(),
    ensures
        all_told(xs).len() == xs.len(),
        all_told(xs)[i].0 == xs[i].source_pid,
        all_told(xs)[i].1 matches Message::System(SystemMsg::IoResponse { correlation_id, result })
            && correlation_id == xs[i].correlation_id && result == xs[i].result,
{
}

/// A request that was not taken uses up no number, and the caller learns of it.
pub proof fn law_refused_uses_no_number(next: u64, h: Handover)
    requires
        next < u64::MAX,
    ensures
        submitted(next, h).1 is Ok <==> h == Handover::Sent,
        h != Handover::Sent ==> submitted(next, h).0 == next,
        h == Handover::Sent ==> submitted(next, h).0 == next + 1,
{
}

/// A timer tells how long it ran.
pub proof fn law_timer_tells_time(duration_ms: u64)
    ensures
        finished(IoOpV::Timer { duration_ms }) matches Some(IoResultV::Done(v)) && v.get_text(
            "kind"@,
        ) == Some("timer"@) && v.get_unsigned("elapsed_ms"@) == Some(duration_ms),
{
    reveal_strlit("kind");
    reveal_strlit("elapsed_ms");
    assert("kind"@.len() == 4 && "elapsed_ms"@.len() == 10);
    let m = seq![
        ("kind"@, JsonV::Str("timer"@)),
        ("elapsed_ms"@, JsonV::Num(NumV::PosInt(duration_ms))),
    ];
    crate::json::lemma_member_at(m, 0);
    crate::json::lemma_member_at(m, 1);
}

} // verus!
