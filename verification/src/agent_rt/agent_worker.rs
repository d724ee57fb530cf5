//! A worker that hands every prompt that it gets to a language model, one at a time.
use vstd::prelude::*;
use crate::agent_rt::types;
use crate::agent_rt::types::{
    Action, ActionV, AgentBehavior, AgentPid, IoOp, IoOpV, Message, Reason, SystemMsg,
};
use crate::json::Json;
use crate::util::text;

verus! {

/// What a worker keeps between messages.
#[derive(Debug)]
pub struct AgentWorkerState {
    /// A conversation is going on.
    pub busy: bool,
    pub last_requester: Option<AgentPid>,
    /// The prompts that came in meanwhile.
    pub pending_messages: Vec<Message>,
}

/// What a worker's state is.
#[verifier::ext_equal]
pub struct WorkerV {
    pub busy: bool,
    pub last_requester: Option<AgentPid>,
    pub pending: Seq<Message>,
}

impl View for AgentWorkerState {
    type V = WorkerV;

    open spec fn view(&self) -> WorkerV {
        WorkerV {
            busy: self.busy,
            last_requester: self.last_requester,
            pending: self.pending_messages@,
        }
    }
}

/// How a worker talks to its language model.
#[derive(Debug, PartialEq, Eq)]
pub struct AgentWorkerBehavior {
    pub name: String,
    pub provider: String,
    pub model: Option<String>,
    pub system_prompt: Option<String>,
    pub tools: Vec<String>,
    pub max_iterations: Option<usize>,
    pub timeout_ms: Option<u64>,
}

/// The conversation that a worker opens with a prompt.
pub open spec fn chat(b: AgentWorkerBehavior, prompt: Seq<char>) -> IoOpV {
    IoOpV::AgentChat {
        provider: b.provider@,
        model: types::opt_str(b.model),
        system_prompt: types::opt_str(b.system_prompt),
        prompt,
        tools: if b.tools@.len() == 0 {
            None
        } else {
            Some(text::strings_view(b.tools@))
        },
        max_iterations: b.max_iterations,
        timeout_ms: b.timeout_ms,
    }
}

/// The prompt of a message: a text as it stands, or the member `prompt` of a value where it is
/// a text that is not empty.
pub open spec fn prompt_of(msg: Message) -> Option<Seq<char>> {
    match msg {
        Message::Text(s) => Some(s@),
        Message::Json(v) => match v@.get_text("prompt"@) {
            Some(p) => if p.len() == 0 {
                None
            } else {
                Some(p)
            },
            None => None,
        },
        Message::System(_) => None,
    }
}

/// A message is the answer of the language model.
pub open spec fn is_answer(msg: Message) -> bool {
    msg matches Message::System(SystemMsg::IoResponse { correlation_id: _, result: _ })
}

/// One message to a worker. An answer ends the conversation, and the latest of the prompts that
/// wait is taken up; a prompt opens a conversation, or waits for the one that goes on.
pub open spec fn work(b: AgentWorkerBehavior, s: WorkerV, msg: Message) -> (
    WorkerV,
    ActionV<AgentWorkerBehavior>,
)
    decreases s.pending.len(),
{
    if is_answer(msg) {
        if s.pending.len() > 0 {
            work(
                b,
                WorkerV { busy: false, pending: s.pending.drop_last(), ..s },
                s.pending.last(),
            )
        } else {
            (WorkerV { busy: false, ..s }, ActionV::Continue)
        }
    } else {
        match prompt_of(msg) {
            None => (s, ActionV::Continue),
            Some(p) => if s.busy {
                (WorkerV { pending: s.pending.push(msg), ..s }, ActionV::Continue)
            } else {
                (WorkerV { busy: true, ..s }, ActionV::IoRequest(chat(b, p)))
            },
        }
    }
}

fn copy_option(o: &Option<String>) -> (r: Option<String>)
    ensures
        types::opt_str(r) == types::opt_str(*o),
{
    match o {
        Some(s) => Some(s.clone()),
        None => None,
    }
}

fn copy_strings(v: &Vec<String>) -> (r: Vec<String>)
    ensures
        text::strings_view(r@) == text::strings_view(v@),
{
    let mut out: Vec<String> = Vec::new();
    let mut i: usize = 0;
    while i < v.len()
        invariant
            i <= v@.len(),
            out@.len() == i,
            forall|j: int| 0 <= j < i ==> (#[trigger] out@[j])@ == v@[j]@,
        decreases v@.len() - i,
    {
        out.push(v[i].clone());
        i += 1;
    }
    assert(text::strings_view(out@) =~= text::strings_view(v@));
    out
}

impl AgentWorkerBehavior {
    /// A worker with the given settings.
    pub fn new(
        name: String,
        provider: String,
        model: Option<String>,
        system_prompt: Option<String>,
        tools: Vec<String>,
        max_iterations: Option<usize>,
        timeout_ms: Option<u64>,
    ) -> (r: Self)
        ensures
            r == (AgentWorkerBehavior {
                name,
                provider,
                model,
                system_prompt,
                tools,
                max_iterations,
                timeout_ms,
            }),
    {
        AgentWorkerBehavior {
            name,
            provider,
            model,
            system_prompt,
            tools,
            max_iterations,
            timeout_ms,
        }
    }

    /// The conversation that a prompt opens.
    pub fn make_chat_op(&self, prompt: &str) -> (r: IoOp)
        ensures
            r@ == chat(*self, prompt@),
    {
        let tools: Option<Vec<String>> = if self.tools.len() == 0 {
            None
        } else {
            Some(copy_strings(&self.tools))
        };
        IoOp::AgentChat {
            provider: self.provider.clone(),
            model: copy_option(&self.model),
            system_prompt: copy_option(&self.system_prompt),
            prompt: prompt.to_owned(),
            tools,
            max_iterations: self.max_iterations,
            timeout_ms: self.timeout_ms,
        }
    }

    /// Takes a prompt: opens a conversation, or keeps the message for later.
    fn take_prompt(&self, prompt: String, msg: Message, state: &mut AgentWorkerState) -> (r: Action<
        Self,
    >)
        requires
            prompt_of(msg) == Some(prompt@),
        ensures
            (final(state)@, r@) == work(*self, old(state)@, msg),
    {
        if state.busy {
            state.pending_messages.push(msg);
            Action::Continue
        } else {
            state.busy = true;
            Action::IoRequest(self.make_chat_op(prompt.as_str()))
        }
    }

    /// Takes one message.
    pub fn take(&self, msg: Message, state: &mut AgentWorkerState) -> (r: Action<Self>)
        ensures
            (final(state)@, r@) == work(*self, old(state)@, msg),
        decreases old(state)@.pending.len(),
    {
        let prompt: Option<String> = match &msg {
            Message::System(SystemMsg::IoResponse { correlation_id: _, result: _ }) => {
                state.busy = false;
                let ghost waiting = state.pending_messages@;
                let next: Option<Message> = state.pending_messages.pop();
                return match next {
                    Some(m) => {
                        assert(state.pending_messages@ =~= waiting.drop_last());
                        self.take(m, state)
                    },
                    None => Action::Continue,
                };
            },
            Message::Text(s) => Some(s.clone()),
            Message::Json(v) => match v.get_str("prompt") {
                Some(p) => if p.as_str().unicode_len() == 0 {
                    None
                } else {
                    Some(p.clone())
                },
                None => None,
            },
            _ => None,
        };
        match prompt {
            Some(p) => self.take_prompt(p, msg, state),
            None => Action::Continue,
        }
    }
}

impl AgentBehavior for AgentWorkerBehavior {
    type State = AgentWorkerState;

    fn init(&self, args: Json) -> (r: Result<AgentWorkerState, Reason>)
        ensures
            r matches Ok(s) && s@ == (WorkerV {
                busy: false,
                last_requester: None,
                pending: Seq::empty(),
            }),
    {
        Ok(AgentWorkerState { busy: false, last_requester: None, pending_messages: Vec::new() })
    }

    fn handle_message(&self, msg: Message, state: &mut AgentWorkerState) -> (r: Action<Self>)
        ensures
            (final(state)@, r@) == work(*self, old(state)@, msg),
    {
        self.take(msg, state)
    }

    fn handle_exit(&self, from: AgentPid, reason: Reason, state: &mut AgentWorkerState) -> (r:
        Action<Self>)
        ensures
            r is Continue,
            *final(state) == *old(state),
    {
        Action::Continue
    }

    fn terminate(&self, reason: Reason, state: &mut AgentWorkerState)
        ensures
            *final(state) == *old(state),
    {
    }
}

// ---------------------------------------------------------------------------
// What holds of every worker
// ---------------------------------------------------------------------------
/// A worker has one conversation at a time: while it is busy, a prompt opens none, and is kept.
pub proof fn law_one_conversation(b: AgentWorkerBehavior, s: WorkerV, msg: Message)
    requires
        s.busy,
        !is_answer(msg),
    ensures
        work(b, s, msg).1 == ActionV::<AgentWorkerBehavior>::Continue,
        work(b, s, msg).0.busy,
        prompt_of(msg) is Some ==> work(b, s, msg).0.pending == s.pending.push(msg),
{
}

/// A conversation is opened exactly when the worker becomes busy with it.
pub proof fn law_busy_with_conversation(b: AgentWorkerBehavior, s: WorkerV, msg: Message)
    requires
        !s.busy || is_answer(msg),
    ensures
        work(b, s, msg).0.busy <==> work(b, s, msg).1 is IoRequest,
    decreases s.pending.len(),
{
    if is_answer(msg) && s.pending.len() > 0 {
        law_busy_with_conversation(
            b,
            WorkerV { busy: false, pending: s.pending.drop_last(), ..s },
            s.pending.last(),
        );
    }
}

/// A worker that is free asks what it is told to ask, with the settings it was made with.
pub proof fn law_prompt_is_asked(b: AgentWorkerBehavior, s: WorkerV, msg: Message, p: Seq<char>)
    requires
        !s.busy,
        (msg matches Message::Text(t) && t@ == p) || (msg matches Message::Json(v) && v@.get_text(
            "prompt"@,
        ) == Some(p) && p.len() > 0),
    ensures
        work(b, s, msg).0.busy,
        work(b, s, msg).0.pending == s.pending,
        work(b, s, msg).1 matches ActionV::IoRequest(IoOpV::AgentChat {
            provider,
            model,
            system_prompt,
            prompt,
            tools,
            max_iterations,
            timeout_ms,
        }) && prompt == p && provider == b.provider@ && model == types::opt_str(b.model)
            && system_prompt == types::opt_str(b.system_prompt) && (tools is None <==> b.tools@.len()
            == 0) && (tools matches Some(t) ==> t == text::strings_view(b.tools@)) && max_iterations
            == b.max_iterations && timeout_ms == b.timeout_ms,
{
}

/// An answer ends the conversation. Where prompts wait, the latest of them is asked next, and the
/// others go on waiting.
pub proof fn law_answer_takes_next(b: AgentWorkerBehavior, s: WorkerV, msg: Message)
    requires
        is_answer(msg),
    ensures
        s.pending.len() == 0 ==> work(b, s, msg) == (
            WorkerV { busy: false, ..s },
            ActionV::<AgentWorkerBehavior>::Continue,
        ),
        s.pending.len() > 0 && !is_answer(s.pending.last()) && prompt_of(s.pending.last()) is Some
            ==> work(b, s, msg).0.busy && work(b, s, msg).0.pending == s.pending.drop_last()
            && (work(b, s, msg).1 matches ActionV::IoRequest(IoOpV::AgentChat {
            provider: _,
            model: _,
            system_prompt: _,
            prompt,
            tools: _,
            max_iterations: _,
            timeout_ms: _,
        }) && Some(prompt) == prompt_of(s.pending.last())),
{
    reveal_with_fuel(work, 2);
}

/// A value without a prompt, or with an empty one, is no question: nothing changes.
pub proof fn law_no_prompt_no_question(b: AgentWorkerBehavior, s: WorkerV, v: Json)
    requires
        v@.get_text("prompt"@) is None || v@.get_text("prompt"@) == Some(Seq::<char>::empty()),
    ensures
        work(b, s, Message::Json(v)) == (s, ActionV::<AgentWorkerBehavior>::Continue),
{
}

} // verus!
