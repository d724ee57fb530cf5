//! Common shapes of agents: servers, state machines, and event managers.
use vstd::prelude::*;
use crate::agent_rt::types::{AgentPid, Message, MessageV};
use crate::json::{Json, JsonV, ObjectBuilder};
use crate::util::text::str_eq;

verus! {

// ---------------------------------------------------------------------------
// Servers
// ---------------------------------------------------------------------------
/// What a server answers to a request.
#[derive(Debug, PartialEq, Eq)]
pub enum Reply {
    Done(Json),
    Error(String),
    Stop(String),
}

/// What a server does after a message that wants no answer.
#[derive(Debug, PartialEq, Eq)]
pub enum Noreply {
    Done,
    Stop(String),
}

/// A server: it answers requests and takes notifications. Users write servers of their own;
/// nothing is assumed of what they answer.
pub trait GenAgent: Sized {
    /// What the server keeps between messages.
    type State;

    /// The state that the server starts with.
    fn init(&self, args: Json) -> (r: Result<Self::State, String>);

    /// Answers a request.
    fn handle_request(&self, state: &mut Self::State, from: AgentPid, request: Json) -> (r: Reply);

    /// Takes a notification.
    fn handle_notify(&self, state: &mut Self::State, notification: Json) -> (r: Noreply);

    /// Takes any other message.
    fn handle_info(&self, state: &mut Self::State, msg: Message) -> (r: Noreply);

    /// Carries the state over from an older version. By default it stays as it is.
    fn code_change(&self, state: &mut Self::State, old_vsn: &str, extra: Json) -> (r: Result<
        (),
        String,
    >)
        default_ensures
            r is Ok,
            *final(state) == *old(state),
    {
        Ok(())
    }

    /// The server ends. By default it does nothing more.
    fn terminate(&self, state: &mut Self::State, reason: &str)
        default_ensures
            *final(state) == *old(state),
    {
    }
}

/// Hands a request to a server: its state afterwards, and its answer.
pub fn request<T: GenAgent>(agent: &T, state: T::State, from: AgentPid, payload: Json) -> (r: (
    T::State,
    Reply,
))
    ensures
        exists|m: &mut T::State|
            *m == state && *final(m) == r.0 && #[trigger] call_ensures(
                T::handle_request,
                (agent, m, from, payload),
                r.1,
            ),
{
    let mut s = state;
    let reply: Reply = agent.handle_request(&mut s, from, payload);
    let ghost after = s;
    let ghost m = choose|m: &mut T::State|
        *m == state && *final(m) == after && #[trigger] call_ensures(
            T::handle_request,
            (agent, m, from, payload),
            reply,
        );
    let r: (T::State, Reply) = (s, reply);
    assert(call_ensures(T::handle_request, (agent, m, from, payload), r.1));
    r
}

/// Hands a notification to a server: its state afterwards.
pub fn notify_agent<T: GenAgent>(agent: &T, state: T::State, payload: Json) -> (r: T::State)
    ensures
        exists|m: &mut T::State, reply: Noreply|
            *m == state && *final(m) == r && #[trigger] call_ensures(
                T::handle_notify,
                (agent, m, payload),
                reply,
            ),
{
    let mut s = state;
    let reply: Noreply = agent.handle_notify(&mut s, payload);
    let ghost after = s;
    let ghost m = choose|m: &mut T::State|
        *m == state && *final(m) == after && #[trigger] call_ensures(
            T::handle_notify,
            (agent, m, payload),
            reply,
        );
    assert(call_ensures(T::handle_notify, (agent, m, payload), reply));
    s
}

/// Hands any other message to a server: its state afterwards.
pub fn inform<T: GenAgent>(agent: &T, state: T::State, msg: Message) -> (r: T::State)
    ensures
        exists|m: &mut T::State, reply: Noreply|
            *m == state && *final(m) == r && #[trigger] call_ensures(
                T::handle_info,
                (agent, m, msg),
                reply,
            ),
{
    let mut s = state;
    let reply: Noreply = agent.handle_info(&mut s, msg);
    let ghost after = s;
    let ghost m = choose|m: &mut T::State|
        *m == state && *final(m) == after && #[trigger] call_ensures(
            T::handle_info,
            (agent, m, msg),
            reply,
        );
    assert(call_ensures(T::handle_info, (agent, m, msg), reply));
    s
}

/// An answer as a JSON value.
pub open spec fn reply_value(reply: Reply) -> JsonV {
    match reply {
        Reply::Done(v) => v@,
        Reply::Error(e) => JsonV::Object(seq![("$error"@, JsonV::Str(e@))]),
        Reply::Stop(e) => JsonV::Object(seq![("$stop"@, JsonV::Str(e@))]),
    }
}

/// Who a message comes from; process zero where it does not say.
pub open spec fn sender_of(msg: JsonV) -> AgentPid {
    match msg.get_unsigned("$from"@) {
        Some(n) => AgentPid(n),
        None => AgentPid(0),
    }
}

/// A message to a server: a `$call` is a request, whose answer comes back; a `$cast` is a
/// notification; anything else is handed over as it stands.
pub open spec fn dispatched<T: GenAgent>(
    agent: T,
    s0: T::State,
    msg: JsonV,
    s1: T::State,
    r: Option<JsonV>,
) -> bool {
    match (msg.get("$call"@), msg.get("$cast"@)) {
        (Some(call), _) => exists|p: Json, reply: Reply| #[trigger]
            call_ensures(request::<T>, (&agent, s0, sender_of(msg), p), (s1, reply)) && p@ == call
                && r == Some(reply_value(reply)),
        (None, Some(cast)) => r is None && exists|p: Json| #[trigger]
            call_ensures(notify_agent::<T>, (&agent, s0, p), s1) && p@ == cast,
        (None, None) => r is None && exists|m: Message| #[trigger]
            call_ensures(inform::<T>, (&agent, s0, m), s1) && m@ == MessageV::Json(msg),
    }
}

fn tagged(k: &str, e: String) -> (r: Json)
    ensures
        r@ == JsonV::Object(seq![(k@, JsonV::Str(e@))]),
{
    let mut o = ObjectBuilder::new();
    o.put_str(k, e.as_str());
    assert(o@ =~= seq![(k@, JsonV::Str(e@))]);
    o.build()
}

/// The view of an optional value.
pub open spec fn opt_value(o: Option<Json>) -> Option<JsonV> {
    match o {
        Some(j) => Some(j@),
        None => None,
    }
}

/// Hands a message to a server: its state afterwards, and the answer to a request.
pub fn dispatch_gen_agent_message<T: GenAgent>(agent: &T, state: T::State, msg: Json) -> (r: (
    T::State,
    Option<Json>,
))
    ensures
        dispatched(*agent, state, msg@, r.0, opt_value(r.1)),
{
    if let Some(call) = msg.get("$call") {
        let from: AgentPid = match msg.get_u64("$from") {
            Some(n) => AgentPid::from_raw(n),
            None => AgentPid::from_raw(0),
        };
        let payload: Json = call.dup();
        let (s, reply) = request(agent, state, from, payload);
        assert(call_ensures(request::<T>, (agent, state, from, payload), (s, reply)));
        let value: Json = match reply {
            Reply::Done(v) => v,
            Reply::Error(e) => tagged("$error", e),
            Reply::Stop(e) => tagged("$stop", e),
        };
        (s, Some(value))
    } else if let Some(cast) = msg.get("$cast") {
        let payload: Json = cast.dup();
        let s = notify_agent(agent, state, payload);
        assert(call_ensures(notify_agent::<T>, (agent, state, payload), s));
        (s, None)
    } else {
        let m: Message = Message::Json(msg);
        let s = inform(agent, state, m);
        assert(call_ensures(inform::<T>, (agent, state, m), s));
        assert(m@ == MessageV::Json(msg@));
        (s, None)
    }
}

// ---------------------------------------------------------------------------
// State machines
// ---------------------------------------------------------------------------
/// Where a state machine goes after an event.
#[derive(Debug, PartialEq, Eq)]
pub enum Transition {
    Next { state: String },
    Same,
    Stop(String),
}

/// A state machine with named states. Users write machines of their own; nothing is assumed of
/// where they go.
pub trait StateMachine: Sized {
    /// What the machine keeps beside its state.
    type Data;

    /// The state and the data that the machine starts with.
    fn init(&self, args: Json) -> (r: Result<(String, Self::Data), String>);

    /// Takes an event.
    fn handle_event(&self, state_name: &str, data: &mut Self::Data, event: Json) -> (r: Transition);

    /// Carries the data over from an older version. By default they stay as they are.
    fn code_change(&self, state_name: &str, data: &mut Self::Data, old_vsn: &str) -> (r: Result<
        (),
        String,
    >)
        default_ensures
            r is Ok,
            *final(data) == *old(data),
    {
        Ok(())
    }
}

// ---------------------------------------------------------------------------
// Event managers
// ---------------------------------------------------------------------------
/// What becomes of a handler after an event.
#[derive(Debug, Clone, Copy, PartialEq, Eq, Structural)]
pub enum EventAction {
    Keep,
    Remove,
}

/// Takes events. Users write handlers of their own; nothing is assumed of what they answer.
pub trait EventHandler: Sized {
    /// Takes an event.
    fn handle_event(&self, event: &Json) -> (r: EventAction);

    /// The name of this handler.
    fn id(&self) -> (r: &str);
}

/// Hands events to its handlers.
pub struct EventManager<H: EventHandler> {
    pub handlers: Vec<H>,
}

/// The handlers that are kept.
pub open spec fn kept<H>(handlers: Seq<H>, keep: Seq<bool>) -> Seq<H>
    decreases handlers.len(),
{
    if handlers.len() == 0 {
        Seq::empty()
    } else if keep.last() {
        kept(handlers.drop_last(), keep.drop_last()).push(handlers.last())
    } else {
        kept(handlers.drop_last(), keep.drop_last())
    }
}

/// Every handler that wants to stay after an event is kept.
pub open spec fn after_event<H: EventHandler>(handlers: Seq<H>, event: Json, keep: Seq<bool>) -> bool {
    keep.len() == handlers.len() && forall|i: int|
        0 <= i < handlers.len() ==> call_ensures(
            H::handle_event,
            (&#[trigger] handlers[i], &event),
            if keep[i] {
                EventAction::Keep
            } else {
                EventAction::Remove
            },
        )
}

/// A handler is kept where it gives another name than `id`.
pub open spec fn name_decides<H: EventHandler>(h: H, id: Seq<char>, keep: bool) -> bool {
    exists|name: &str| #[trigger] call_ensures(H::id, (&h,), name) && keep == (name@ != id)
}

/// Every handler with another name is kept.
pub open spec fn without_name<H: EventHandler>(handlers: Seq<H>, id: Seq<char>, keep: Seq<bool>) -> bool {
    keep.len() == handlers.len() && forall|i: int|
        0 <= i < handlers.len() ==> name_decides(#[trigger] handlers[i], id, keep[i])
}

impl<H: EventHandler> EventManager<H> {
    /// A manager without handlers.
    pub fn new() -> (r: Self)
        ensures
            r.handlers@ == Seq::<H>::empty(),
    {
        EventManager { handlers: Vec::new() }
    }

    /// Adds a handler at the end.
    pub fn add_handler(&mut self, handler: H)
        ensures
            final(self).handlers@ == old(self).handlers@.push(handler),
    {
        self.handlers.push(handler);
    }

    /// Drops the handlers with a name.
    pub fn remove_handler(&mut self, id: &str)
        ensures
            exists|keep: Seq<bool>| #[trigger]
                without_name(old(self).handlers@, id@, keep) && final(self).handlers@ == kept(
                    old(self).handlers@,
                    keep,
                ),
    {
        let mut all: Vec<H> = Vec::new();
        core::mem::swap(&mut all, &mut self.handlers);
        let ghost hs = all@;
        let ghost mut keep: Seq<bool> = Seq::empty();
        let mut out: Vec<H> = Vec::new();
        assert(hs.take(0) =~= Seq::<H>::empty());
        for h in it: all
            invariant
                it.seq() == hs,
                keep.len() == it.index(),
                without_name(hs.take(it.index()), id@, keep),
                out@ == kept(hs.take(it.index()), keep),
        {
            let ghost n = it.index();
            let ghost now = hs.take(n + 1);
            assert(now.drop_last() =~= hs.take(n));
            let name: &str = h.id();
            let stays: bool = !str_eq(name, id);
            let ghost next = keep.push(stays);
            proof {
                assert(call_ensures(H::id, (&h,), name));
                assert(name_decides(h, id@, stays));
                assert(next.drop_last() =~= keep);
                assert forall|i: int| 0 <= i < now.len() implies name_decides(
                    #[trigger] now[i],
                    id@,
                    next[i],
                ) by {
                    if i < n {
                        assert(hs.take(n)[i] == now[i]);
                        assert(next[i] == keep[i]);
                    } else {
                        assert(now[i] == h);
                    }
                }
                keep = next;
            }
            if stays {
                out.push(h);
            }
        }
        assert(hs.take(hs.len() as int) =~= hs);
        self.handlers = out;
    }

    /// Hands an event to every handler, in order. Those that do not want to stay are dropped.
    pub fn notify(&mut self, event: &Json)
        ensures
            exists|keep: Seq<bool>| #[trigger]
                after_event(old(self).handlers@, *event, keep) && final(self).handlers@ == kept(
                    old(self).handlers@,
                    keep,
                ),
    {
        let mut all: Vec<H> = Vec::new();
        core::mem::swap(&mut all, &mut self.handlers);
        let ghost hs = all@;
        let ghost mut keep: Seq<bool> = Seq::empty();
        let mut out: Vec<H> = Vec::new();
        assert(hs.take(0) =~= Seq::<H>::empty());
        for h in it: all
            invariant
                it.seq() == hs,
                keep.len() == it.index(),
                after_event(hs.take(it.index()), *event, keep),
                out@ == kept(hs.take(it.index()), keep),
        {
            let ghost n = it.index();
            let ghost now = hs.take(n + 1);
            assert(now.drop_last() =~= hs.take(n));
            let action: EventAction = h.handle_event(event);
            let stays: bool = match action {
                EventAction::Keep => true,
                EventAction::Remove => false,
            };
            let ghost next = keep.push(stays);
            proof {
                assert(next.drop_last() =~= keep);
                assert forall|i: int| 0 <= i < now.len() implies call_ensures(
                    H::handle_event,
                    (&#[trigger] now[i], event),
                    if next[i] {
                        EventAction::Keep
                    } else {
                        EventAction::Remove
                    },
                ) by {
                    if i < n {
                        assert(hs.take(n)[i] == now[i]);
                        assert(next[i] == keep[i]);
                    } else {
                        assert(now[i] == h);
                    }
                }
                keep = next;
            }
            if stays {
                out.push(h);
            }
        }
        assert(hs.take(hs.len() as int) =~= hs);
        self.handlers = out;
    }

    /// How many handlers there are.
    pub fn handler_count(&self) -> (r: usize)
        ensures
            r == self.handlers@.len(),
    {
        self.handlers.len()
    }
}

/// Handlers that all want to stay are all kept, in order.
pub proof fn law_all_kept<H>(handlers: Seq<H>, keep: Seq<bool>)
    requires
        keep.len() == handlers.len(),
        forall|i: int| 0 <= i < keep.len() ==> #[trigger] keep[i],
    ensures
        kept(handlers, keep) == handlers,
    decreases handlers.len(),
{
    if handlers.len() > 0 {
        let k = keep.drop_last();
        assert forall|i: int| 0 <= i < k.len() implies #[trigger] k[i] by {
            assert(k[i] == keep[i]);
        }
        assert(keep.last() == keep[keep.len() - 1]);
        law_all_kept(handlers.drop_last(), k);
        assert(kept(handlers, keep) =~= handlers);
    } else {
        assert(kept(handlers, keep) =~= handlers);
    }
}

/// Of the handlers those that want to stay are kept, in their order, and no others.
pub proof fn law_kept_want_to_stay<H>(handlers: Seq<H>, keep: Seq<bool>, i: int)
    requires
        keep.len() == handlers.len(),
        0 <= i < handlers.len(),
    ensures
        kept(handlers, keep) == kept(handlers.take(i), keep.take(i)) + (if keep[i] {
            seq![handlers[i]]
        } else {
            Seq::empty()
        }) + kept(handlers.skip(i + 1), keep.skip(i + 1)),
        kept(Seq::<H>::empty(), Seq::empty()) == Seq::<H>::empty(),
    decreases handlers.len(),
{
    let h = handlers.drop_last();
    let k = keep.drop_last();
    let mid = if keep[i] {
        seq![handlers[i]]
    } else {
        Seq::empty()
    };
    if i < h.len() {
        law_kept_want_to_stay(h, k, i);
        assert(h.take(i) =~= handlers.take(i));
        assert(k.take(i) =~= keep.take(i));
        let a = handlers.skip(i + 1);
        let b = keep.skip(i + 1);
        assert(a.drop_last() =~= h.skip(i + 1));
        assert(b.drop_last() =~= k.skip(i + 1));
        assert(a.last() == handlers.last());
        assert(b.last() == keep.last());
        assert(h[i] == handlers[i] && k[i] == keep[i]);
    } else {
        assert(h =~= handlers.take(i));
        assert(k =~= keep.take(i));
        assert(handlers.skip(i + 1) =~= Seq::<H>::empty());
    }
    assert(kept(handlers, keep) =~= kept(handlers.take(i), keep.take(i)) + mid + kept(
        handlers.skip(i + 1),
        keep.skip(i + 1),
    ));
}

/// What a server answers reaches the one that asked: a value as it is, and an error or a stop under
/// a name of its own, with its text.
pub proof fn law_reply_is_told(v: Json, e: String)
    ensures
        reply_value(Reply::Done(v)) == v@,
        reply_value(Reply::Error(e)).get_text("$error"@) == Some(e@),
        reply_value(Reply::Error(e)).get("$stop"@) is None,
        reply_value(Reply::Stop(e)).get_text("$stop"@) == Some(e@),
        reply_value(Reply::Stop(e)).get("$error"@) is None,
{
    reveal_strlit("$error");
    reveal_strlit("$stop");
    assert("$error"@.len() == 6 && "$stop"@.len() == 5);
    let a = seq![("$error"@, JsonV::Str(e@))];
    let b = seq![("$stop"@, JsonV::Str(e@))];
    assert(a.drop_first() =~= Seq::empty());
    assert(b.drop_first() =~= Seq::empty());
    reveal_with_fuel(crate::json::member, 2);
}

} // verus!
