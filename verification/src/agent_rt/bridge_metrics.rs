//! Counters of the bridge between the scheduler and its input and output.
use vstd::prelude::*;

verus! {

/// The counters of the bridge. A counter starts over after the greatest `u64`.
#[derive(Debug, Clone, Copy, PartialEq, Eq, Structural)]
pub struct BridgeMetrics {
    pub destroy_failures: u64,
    pub busy_rejections: u64,
    pub chat_panics: u64,
}

impl Default for BridgeMetrics {
    fn default() -> (r: Self)
        ensures
            r.destroy_failures == 0,
            r.busy_rejections == 0,
            r.chat_panics == 0,
    {
        BridgeMetrics { destroy_failures: 0, busy_rejections: 0, chat_panics: 0 }
    }
}

impl BridgeMetrics {
    /// Counters that have counted nothing.
    pub fn new() -> (r: Self)
        ensures
            r.destroy_failures == 0,
            r.busy_rejections == 0,
            r.chat_panics == 0,
    {
        BridgeMetrics { destroy_failures: 0, busy_rejections: 0, chat_panics: 0 }
    }

    /// Counts an agent that could not be given up.
    pub fn inc_destroy_failures(&mut self)
        ensures
            *final(self) == (BridgeMetrics {
                destroy_failures: old(self).destroy_failures.wrapping_add(1),
                ..*old(self)
            }),
    {
        self.destroy_failures = self.destroy_failures.wrapping_add(1);
    }

    /// Counts a request to a worker that was busy.
    pub fn inc_busy_rejections(&mut self)
        ensures
            *final(self) == (BridgeMetrics {
                busy_rejections: old(self).busy_rejections.wrapping_add(1),
                ..*old(self)
            }),
    {
        self.busy_rejections = self.busy_rejections.wrapping_add(1);
    }

    /// Counts a conversation that panicked.
    pub fn inc_chat_panics(&mut self)
        ensures
            *final(self) == (BridgeMetrics {
                chat_panics: old(self).chat_panics.wrapping_add(1),
                ..*old(self)
            }),
    {
        self.chat_panics = self.chat_panics.wrapping_add(1);
    }

    /// How many agents could not be given up.
    pub fn agent_destroy_failures(&self) -> (r: u64)
        ensures
            r == self.destroy_failures,
    {
        self.destroy_failures
    }

    /// How many requests met a busy worker.
    pub fn worker_busy_rejections(&self) -> (r: u64)
        ensures
            r == self.busy_rejections,
    {
        self.busy_rejections
    }

    /// How many conversations panicked.
    pub fn agent_chat_panics(&self) -> (r: u64)
        ensures
            r == self.chat_panics,
    {
        self.chat_panics
    }
}

} // verus!
