//! Counters of the runtime, and what they show at one point in time.
use vstd::prelude::*;
use crate::agent_rt::process::{AgentProcess, Priority, ProcV, ProcessStatus};
use crate::agent_rt::types::{AgentBehavior, IoResult};

verus! {

/// What a process looks like from outside, at one point in time.
#[derive(Debug, Clone, Copy, PartialEq, Eq, Structural)]
pub struct ProcessSnapshot {
    pub pid: u64,
    pub status: ProcessStatus,
    pub priority: Priority,
    pub mailbox_depth: usize,
    pub link_count: usize,
    pub monitor_count: usize,
    pub monitored_by_count: usize,
    pub trap_exit: bool,
}

/// A snapshot shows a process.
pub open spec fn shows<B: AgentBehavior>(r: ProcessSnapshot, p: ProcV<B>) -> bool {
    &&& r.pid == p.pid.0
    &&& r.status == p.status
    &&& r.priority == p.priority
    &&& r.mailbox_depth == p.mailbox.len()
    &&& r.link_count == p.links.len()
    &&& r.monitor_count == p.monitors.len()
    &&& r.monitored_by_count == p.monitored_by.len()
    &&& r.trap_exit == p.trap_exit
}

impl ProcessSnapshot {
    /// The snapshot of a process.
    pub fn of<B: AgentBehavior>(p: &AgentProcess<B>) -> (r: Self)
        ensures
            shows(r, p@),
    {
        ProcessSnapshot {
            pid: p.pid.raw(),
            status: p.status,
            priority: p.priority,
            mailbox_depth: p.mailbox.len(),
            link_count: p.links.len(),
            monitor_count: p.monitors.len(),
            monitored_by_count: p.monitored_by.len(),
            trap_exit: p.trap_exit,
        }
    }
}

/// What the counters show at one point in time.
#[derive(Debug, Clone, Copy, PartialEq, Eq, Structural)]
pub struct RuntimeMetricsSnapshot {
    pub uptime_secs: u64,
    pub active_processes: u64,
    pub messages_sent_total: u64,
    pub messages_processed_total: u64,
    pub mailbox_rejections_total: u64,
    pub io_requests_total: u64,
    pub io_responses_total: u64,
    pub io_errors_total: u64,
    pub io_timeouts_total: u64,
    pub io_latency_samples: u64,
    pub io_latency_total_ms: u64,
    pub rate_limiter_waits_total: u64,
    pub rate_limiter_wait_ms_total: u64,
    pub rate_limiter_rejections_total: u64,
    pub process_terminations_total: u64,
}

/// The counters of the runtime. A counter starts over after the greatest `u64`. Times are in
/// nanoseconds.
#[derive(Debug, Clone, Copy, PartialEq, Eq, Structural)]
pub struct RuntimeMetrics {
    pub started_at: u128,
    pub messages_sent_total: u64,
    pub messages_processed_total: u64,
    pub mailbox_rejections_total: u64,
    pub io_requests_total: u64,
    pub io_responses_total: u64,
    pub io_errors_total: u64,
    pub io_timeouts_total: u64,
    pub io_latency_samples: u64,
    pub io_latency_total_ms: u64,
    pub rate_limiter_waits_total: u64,
    pub rate_limiter_wait_ms_total: u64,
    pub rate_limiter_rejections_total: u64,
    pub process_terminations_total: u64,
}

/// The whole milliseconds of a time, or the greatest `u64` where there are more.
pub open spec fn whole_ms(ns: u128) -> u64 {
    if ns / 1_000_000 > u64::MAX {
        u64::MAX
    } else {
        (ns / 1_000_000) as u64
    }
}

/// The whole milliseconds of a time in nanoseconds, or the greatest `u64` where there are more.
pub fn duration_to_ms(duration_ns: u128) -> (r: u64)
    ensures
        r == whole_ms(duration_ns),
{
    let ms: u128 = duration_ns / 1_000_000;
    if ms > 0xffff_ffff_ffff_ffff {
        u64::MAX
    } else {
        ms as u64
    }
}

/// The whole seconds since `start`, or the greatest `u64` where there are more.
pub open spec fn secs_since(start: u128, now: u128) -> u64 {
    if now <= start {
        0
    } else if (now - start) / 1_000_000_000 > u64::MAX {
        u64::MAX
    } else {
        ((now - start) / 1_000_000_000) as u64
    }
}

/// What counters show at `now`.
pub open spec fn snapshot_of(m: RuntimeMetrics, active_processes: usize, now: u128) -> RuntimeMetricsSnapshot {
    RuntimeMetricsSnapshot {
        uptime_secs: secs_since(m.started_at, now),
        active_processes: active_processes as u64,
        messages_sent_total: m.messages_sent_total,
        messages_processed_total: m.messages_processed_total,
        mailbox_rejections_total: m.mailbox_rejections_total,
        io_requests_total: m.io_requests_total,
        io_responses_total: m.io_responses_total,
        io_errors_total: m.io_errors_total,
        io_timeouts_total: m.io_timeouts_total,
        io_latency_samples: m.io_latency_samples,
        io_latency_total_ms: m.io_latency_total_ms,
        rate_limiter_waits_total: m.rate_limiter_waits_total,
        rate_limiter_wait_ms_total: m.rate_limiter_wait_ms_total,
        rate_limiter_rejections_total: m.rate_limiter_rejections_total,
        process_terminations_total: m.process_terminations_total,
    }
}

impl RuntimeMetrics {
    /// Counters that have counted nothing, started at `now`.
    pub fn new(now: u128) -> (r: Self)
        ensures
            r.started_at == now,
            r.messages_sent_total == 0,
            r.messages_processed_total == 0,
            r.mailbox_rejections_total == 0,
            r.io_requests_total == 0,
            r.io_responses_total == 0,
            r.io_errors_total == 0,
            r.io_timeouts_total == 0,
            r.io_latency_samples == 0,
            r.io_latency_total_ms == 0,
            r.rate_limiter_waits_total == 0,
            r.rate_limiter_wait_ms_total == 0,
            r.rate_limiter_rejections_total == 0,
            r.process_terminations_total == 0,
    {
        RuntimeMetrics {
            started_at: now,
            messages_sent_total: 0,
            messages_processed_total: 0,
            mailbox_rejections_total: 0,
            io_requests_total: 0,
            io_responses_total: 0,
            io_errors_total: 0,
            io_timeouts_total: 0,
            io_latency_samples: 0,
            io_latency_total_ms: 0,
            rate_limiter_waits_total: 0,
            rate_limiter_wait_ms_total: 0,
            rate_limiter_rejections_total: 0,
            process_terminations_total: 0,
        }
    }

    /// Counts a message that was sent.
    pub fn record_message_sent(&mut self)
        ensures
            *final(self) == (RuntimeMetrics {
                messages_sent_total: old(self).messages_sent_total.wrapping_add(1),
                ..*old(self)
            }),
    {
        self.messages_sent_total = self.messages_sent_total.wrapping_add(1);
    }

    /// Counts a message that was handled.
    pub fn record_message_processed(&mut self)
        ensures
            *final(self) == (RuntimeMetrics {
                messages_processed_total: old(self).messages_processed_total.wrapping_add(1),
                ..*old(self)
            }),
    {
        self.messages_processed_total = self.messages_processed_total.wrapping_add(1);
    }

    /// Counts a message that a mailbox did not take.
    pub fn record_mailbox_rejection(&mut self)
        ensures
            *final(self) == (RuntimeMetrics {
                mailbox_rejections_total: old(self).mailbox_rejections_total.wrapping_add(1),
                ..*old(self)
            }),
    {
        self.mailbox_rejections_total = self.mailbox_rejections_total.wrapping_add(1);
    }

    /// Counts an operation that was asked for.
    pub fn record_io_request(&mut self)
        ensures
            *final(self) == (RuntimeMetrics {
                io_requests_total: old(self).io_requests_total.wrapping_add(1),
                ..*old(self)
            }),
    {
        self.io_requests_total = self.io_requests_total.wrapping_add(1);
    }

    /// Counts the result of an operation, and the time that it took.
    pub fn record_io_result(&mut self, result: &IoResult, latency_ns: u128)
        ensures
            *final(self) == (RuntimeMetrics {
                io_responses_total: old(self).io_responses_total.wrapping_add(1),
                io_latency_samples: old(self).io_latency_samples.wrapping_add(1),
                io_latency_total_ms: old(self).io_latency_total_ms.wrapping_add(
                    whole_ms(latency_ns),
                ),
                io_errors_total: if *result is Error {
                    old(self).io_errors_total.wrapping_add(1)
                } else {
                    old(self).io_errors_total
                },
                io_timeouts_total: if *result is Timeout {
                    old(self).io_timeouts_total.wrapping_add(1)
                } else {
                    old(self).io_timeouts_total
                },
                ..*old(self)
            }),
    {
        self.io_responses_total = self.io_responses_total.wrapping_add(1);
        self.io_latency_samples = self.io_latency_samples.wrapping_add(1);
        self.io_latency_total_ms = self.io_latency_total_ms.wrapping_add(
            duration_to_ms(latency_ns),
        );
        match result {
            IoResult::Error(_) => {
                self.io_errors_total = self.io_errors_total.wrapping_add(1);
            },
            IoResult::Timeout => {
                self.io_timeouts_total = self.io_timeouts_total.wrapping_add(1);
            },
            IoResult::Done(_) => {},
        }
    }

    /// Counts a request that a rate limit refused.
    pub fn record_rate_limiter_rejection(&mut self)
        ensures
            *final(self) == (RuntimeMetrics {
                rate_limiter_rejections_total: old(self).rate_limiter_rejections_total.wrapping_add(
                    1,
                ),
                ..*old(self)
            }),
    {
        self.rate_limiter_rejections_total = self.rate_limiter_rejections_total.wrapping_add(1);
    }

    /// Counts a wait for a rate limit, and how long it was.
    pub fn record_rate_limiter_wait(&mut self, waited_ns: u128)
        ensures
            *final(self) == (RuntimeMetrics {
                rate_limiter_waits_total: old(self).rate_limiter_waits_total.wrapping_add(1),
                rate_limiter_wait_ms_total: old(self).rate_limiter_wait_ms_total.wrapping_add(
                    whole_ms(waited_ns),
                ),
                ..*old(self)
            }),
    {
        self.rate_limiter_waits_total = self.rate_limiter_waits_total.wrapping_add(1);
        self.rate_limiter_wait_ms_total = self.rate_limiter_wait_ms_total.wrapping_add(
            duration_to_ms(waited_ns),
        );
    }

    /// Counts a process that ended.
    pub fn record_process_termination(&mut self)
        ensures
            *final(self) == (RuntimeMetrics {
                process_terminations_total: old(self).process_terminations_total.wrapping_add(1),
                ..*old(self)
            }),
    {
        self.process_terminations_total = self.process_terminations_total.wrapping_add(1);
    }

    /// What the counters show at `now`.
    pub fn snapshot(&self, active_processes: usize, now: u128) -> (r: RuntimeMetricsSnapshot)
        ensures
            r == snapshot_of(*self, active_processes, now),
    {
        let up: u128 = if now <= self.started_at {
            0
        } else {
            (now - self.started_at) / 1_000_000_000
        };
        let uptime_secs: u64 = if up > 0xffff_ffff_ffff_ffff {
            u64::MAX
        } else {
            up as u64
        };
        RuntimeMetricsSnapshot {
            uptime_secs,
            active_processes: active_processes as u64,
            messages_sent_total: self.messages_sent_total,
            messages_processed_total: self.messages_processed_total,
            mailbox_rejections_total: self.mailbox_rejections_total,
            io_requests_total: self.io_requests_total,
            io_responses_total: self.io_responses_total,
            io_errors_total: self.io_errors_total,
            io_timeouts_total: self.io_timeouts_total,
            io_latency_samples: self.io_latency_samples,
            io_latency_total_ms: self.io_latency_total_ms,
            rate_limiter_waits_total: self.rate_limiter_waits_total,
            rate_limiter_wait_ms_total: self.rate_limiter_wait_ms_total,
            rate_limiter_rejections_total: self.rate_limiter_rejections_total,
            process_terminations_total: self.process_terminations_total,
        }
    }
}

/// A time is cut to whole milliseconds and whole seconds, never rounded up, as long as they fit.
pub proof fn law_times_are_cut(ns: u128, start: u128, now: u128)
    ensures
        ns < 1_000_000 * 0x1_0000_0000_0000_0000 ==> whole_ms(ns) * 1_000_000 <= ns < (whole_ms(ns)
            + 1) * 1_000_000,
        now <= start ==> secs_since(start, now) == 0,
        start < now && now - start < 1_000_000_000 * 0x1_0000_0000_0000_0000 ==> secs_since(
            start,
            now,
        ) * 1_000_000_000 <= now - start < (secs_since(start, now) + 1) * 1_000_000_000,
{
}

} // verus!
