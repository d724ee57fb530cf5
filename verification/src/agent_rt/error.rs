//! The errors of the agent runtime.
use vstd::prelude::*;
use crate::util::text::concat2;

verus! {

/// What can go wrong in the agent runtime, with a message.
#[derive(Debug, PartialEq, Eq)]
pub enum AgentRtError {
    Config(String),
    Checkpoint(String),
    CheckpointIo(String),
    Serialization(String),
    Bridge(String),
    Server(String),
    Shutdown(String),
    Ets(String),
    DurableMailbox(String),
    HotCode(String),
    Release(String),
}

/// What an error is.
pub enum ErrorV {
    Config(Seq<char>),
    Checkpoint(Seq<char>),
    CheckpointIo(Seq<char>),
    Serialization(Seq<char>),
    Bridge(Seq<char>),
    Server(Seq<char>),
    Shutdown(Seq<char>),
    Ets(Seq<char>),
    DurableMailbox(Seq<char>),
    HotCode(Seq<char>),
    Release(Seq<char>),
}

impl View for AgentRtError {
    type V = ErrorV;

    open spec fn view(&self) -> ErrorV {
        match self {
            AgentRtError::Config(s) => ErrorV::Config(s@),
            AgentRtError::Checkpoint(s) => ErrorV::Checkpoint(s@),
            AgentRtError::CheckpointIo(s) => ErrorV::CheckpointIo(s@),
            AgentRtError::Serialization(s) => ErrorV::Serialization(s@),
            AgentRtError::Bridge(s) => ErrorV::Bridge(s@),
            AgentRtError::Server(s) => ErrorV::Server(s@),
            AgentRtError::Shutdown(s) => ErrorV::Shutdown(s@),
            AgentRtError::Ets(s) => ErrorV::Ets(s@),
            AgentRtError::DurableMailbox(s) => ErrorV::DurableMailbox(s@),
            AgentRtError::HotCode(s) => ErrorV::HotCode(s@),
            AgentRtError::Release(s) => ErrorV::Release(s@),
        }
    }
}

impl ErrorV {
    /// The text of an error: where it comes from, then its message.
    pub open spec fn text(self) -> Seq<char> {
        match self {
            ErrorV::Config(s) => "config: "@ + s,
            ErrorV::Checkpoint(s) => "checkpoint: "@ + s,
            ErrorV::CheckpointIo(s) => "checkpoint IO: "@ + s,
            ErrorV::Serialization(s) => "serialization: "@ + s,
            ErrorV::Bridge(s) => "bridge: "@ + s,
            ErrorV::Server(s) => "server: "@ + s,
            ErrorV::Shutdown(s) => "shutdown: "@ + s,
            ErrorV::Ets(s) => "ets: "@ + s,
            ErrorV::DurableMailbox(s) => "durable mailbox: "@ + s,
            ErrorV::HotCode(s) => "hot code: "@ + s,
            ErrorV::Release(s) => "release: "@ + s,
        }
    }
}

impl AgentRtError {
    /// The text of this error.
    pub fn text(&self) -> (r: String)
        ensures
            r@ == self@.text(),
    {
        match self {
            AgentRtError::Config(s) => concat2("config: ", s.as_str()),
            AgentRtError::Checkpoint(s) => concat2("checkpoint: ", s.as_str()),
            AgentRtError::CheckpointIo(s) => concat2("checkpoint IO: ", s.as_str()),
            AgentRtError::Serialization(s) => concat2("serialization: ", s.as_str()),
            AgentRtError::Bridge(s) => concat2("bridge: ", s.as_str()),
            AgentRtError::Server(s) => concat2("server: ", s.as_str()),
            AgentRtError::Shutdown(s) => concat2("shutdown: ", s.as_str()),
            AgentRtError::Ets(s) => concat2("ets: ", s.as_str()),
            AgentRtError::DurableMailbox(s) => concat2("durable mailbox: ", s.as_str()),
            AgentRtError::HotCode(s) => concat2("hot code: ", s.as_str()),
            AgentRtError::Release(s) => concat2("release: ", s.as_str()),
        }
    }
}

} // verus!
