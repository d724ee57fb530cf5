//! What the server for health and metrics answers.
use vstd::prelude::*;
use crate::agent_rt::observability;
use crate::agent_rt::observability::{RuntimeMetrics, RuntimeMetricsSnapshot};
use crate::json::{Json, JsonV, NumV, ObjectBuilder};

verus! {

/// What the server shows.
#[derive(Debug, Clone, Copy, PartialEq, Eq, Structural)]
pub struct ServerState {
    pub metrics: RuntimeMetrics,
    pub process_count: usize,
}

/// The answer to the question whether the runtime is well.
pub open spec fn health_json(uptime_secs: u64) -> JsonV {
    JsonV::Object(
        seq![
            ("status"@, JsonV::Str("ok"@)),
            ("uptime_secs"@, JsonV::Num(NumV::PosInt(uptime_secs))),
        ],
    )
}

impl ServerState {
    /// What the counters show at `now`.
    pub fn snapshot(&self, now: u128) -> (r: RuntimeMetricsSnapshot)
        ensures
            r == observability::snapshot_of(self.metrics, self.process_count, now),
    {
        self.metrics.snapshot(self.process_count, now)
    }

    /// The answer to the question whether the runtime is well, at `now`.
    pub fn health(&self, now: u128) -> (r: Json)
        ensures
            r@ == health_json(observability::secs_since(self.metrics.started_at, now)),
    {
        let uptime: u64 = self.snapshot(now).uptime_secs;
        let mut o = ObjectBuilder::new();
        o.put_str("status", "ok");
        o.put_u64("uptime_secs", uptime);
        assert(o@ =~= health_json(uptime)->Object_0);
        o.build()
    }
}

} // verus!
