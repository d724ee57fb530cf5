//! How often a failed task is tried again, and how long to wait before each time.
use vstd::prelude::*;
use vstd::arithmetic::power2;
use crate::json::{Json, JsonV};
use crate::util::assoc::{AssocMap, MapKey};
use crate::util::text::str_eq;

verus! {

/// Whether and when a failed task is tried again.
#[derive(Debug, Clone, Copy, PartialEq, Eq, Structural)]
pub enum RetryStrategy {
    /// Never.
    Never,
    /// At once, up to so many times.
    Immediate { max_attempts: u32 },
    /// After a time that doubles with every attempt, up to so many times.
    Backoff { max_attempts: u32, base_ms: u64, max_ms: u64 },
    /// Never: the task is left out.
    Skip,
}

impl Default for RetryStrategy {
    fn default() -> (r: Self)
        ensures
            r == RetryStrategy::Never,
    {
        RetryStrategy::Never
    }
}

/// Counts the attempts of tasks.
pub struct RetryTracker {
    pub attempts: AssocMap<String, u32>,
    pub default_strategy: RetryStrategy,
    pub per_task: AssocMap<String, RetryStrategy>,
}

/// What a tracker is.
#[verifier::ext_equal]
pub struct TrackerV {
    pub attempts: Map<Seq<char>, u32>,
    pub default_strategy: RetryStrategy,
    pub per_task: Map<Seq<char>, RetryStrategy>,
}

impl View for RetryTracker {
    type V = TrackerV;

    open spec fn view(&self) -> TrackerV {
        TrackerV {
            attempts: self.attempts@,
            default_strategy: self.default_strategy,
            per_task: self.per_task@,
        }
    }
}

impl TrackerV {
    /// The strategy of a task: its own, or the default.
    pub open spec fn strategy_of(self, task: Seq<char>) -> RetryStrategy {
        if self.per_task.dom().contains(task) {
            self.per_task[task]
        } else {
            self.default_strategy
        }
    }

    /// How often a task has asked to be tried again.
    pub open spec fn attempts_of(self, task: Seq<char>) -> u32 {
        if self.attempts.dom().contains(task) {
            self.attempts[task]
        } else {
            0
        }
    }
}

/// The delay before an attempt: the base, doubled with every attempt after the first, and never
/// more than the maximum.
pub open spec fn backoff(base_ms: u64, max_ms: u64, attempt: u32) -> u64 {
    let d = base_ms * power2::pow2((attempt - 1) as nat);
    if d < max_ms {
        d as u64
    } else {
        max_ms
    }
}

/// A strategy that counts attempts.
pub open spec fn counts(s: RetryStrategy) -> bool {
    s is Immediate || s is Backoff
}

/// What a strategy says to the given attempt: the delay, or nothing where there are no more.
pub open spec fn retry_delay(s: RetryStrategy, attempt: u32) -> Option<u64> {
    match s {
        RetryStrategy::Never => None,
        RetryStrategy::Skip => None,
        RetryStrategy::Immediate { max_attempts } => if attempt <= max_attempts {
            Some(0)
        } else {
            None
        },
        RetryStrategy::Backoff { max_attempts, base_ms, max_ms } => if attempt <= max_attempts {
            Some(backoff(base_ms, max_ms, attempt))
        } else {
            None
        },
    }
}

/// A task asks to be tried again: the attempt is counted where its strategy counts them, and the
/// strategy says what it says to that attempt.
pub open spec fn retried(s: TrackerV, task: Seq<char>) -> (TrackerV, Option<u64>) {
    let strategy = s.strategy_of(task);
    let attempt = (s.attempts_of(task) + 1) as u32;
    (
        if counts(strategy) {
            TrackerV { attempts: s.attempts.insert(task, attempt), ..s }
        } else {
            s
        },
        retry_delay(strategy, attempt),
    )
}

fn backoff_delay(base_ms: u64, max_ms: u64, attempt: u32) -> (r: u64)
    requires
        attempt > 0,
    ensures
        r == backoff(base_ms, max_ms, attempt),
{
    let n: u32 = attempt - 1;
    let mut d: u64 = if base_ms < max_ms {
        base_ms
    } else {
        max_ms
    };
    let mut i: u32 = 0;
    proof {
        power2::lemma2_to64();
        assert(base_ms * power2::pow2(0) == base_ms);
    }
    while i < n && 0 < d && d < max_ms
        invariant
            i <= n,
            d <= max_ms,
            d < max_ms ==> d == base_ms * power2::pow2(i as nat),
            d == max_ms ==> base_ms * power2::pow2(i as nat) >= max_ms,
        decreases n - i,
    {
        proof {
            power2::lemma_pow2_unfold((i + 1) as nat);
            let p = power2::pow2(i as nat);
            assert(base_ms * (2 * p) == 2 * (base_ms * p)) by (nonlinear_arith);
        }
        d = if d >= max_ms - d {
            max_ms
        } else {
            d * 2
        };
        i += 1;
    }
    proof {
        let p = power2::pow2(i as nat);
        let q = power2::pow2(n as nat);
        power2::lemma_pow2_pos(i as nat);
        if i < n {
            power2::lemma_pow2_strictly_increases(i as nat, n as nat);
        }
        if d == max_ms {
            assert(base_ms * q >= base_ms * p) by (nonlinear_arith)
                requires
                    q >= p,
                    base_ms >= 0,
            ;
        } else if d == 0 {
            assert(base_ms == 0) by (nonlinear_arith)
                requires
                    base_ms * p == 0,
                    p > 0,
                    base_ms >= 0,
            ;
            assert(base_ms * q == 0) by (nonlinear_arith)
                requires
                    base_ms == 0,
            ;
        }
    }
    d
}

impl RetryTracker {
    /// A tracker that has counted nothing.
    pub fn new(default_strategy: RetryStrategy) -> (r: Self)
        ensures
            r@ == (TrackerV {
                attempts: Map::empty(),
                default_strategy,
                per_task: Map::empty(),
            }),
    {
        RetryTracker { attempts: AssocMap::new(), default_strategy, per_task: AssocMap::new() }
    }

    /// Gives one task a strategy of its own.
    pub fn set_task_strategy(&mut self, task_id: &str, strategy: RetryStrategy)
        ensures
            final(self)@ == (TrackerV {
                per_task: old(self)@.per_task.insert(task_id@, strategy),
                ..old(self)@
            }),
    {
        self.per_task.insert(task_id.to_owned(), strategy);
    }

    /// Counts an attempt of a task where its strategy counts them, and says how long to wait
    /// before it; nothing where the task is not to be tried again.
    pub fn should_retry(&mut self, task_id: &str) -> (r: Option<u64>)
        requires
            counts(old(self)@.strategy_of(task_id@)) ==> old(self)@.attempts_of(task_id@)
                < u32::MAX,
        ensures
            (final(self)@, r) == retried(old(self)@, task_id@),
    {
        let strategy: RetryStrategy = match self.per_task.get_str(task_id) {
            Some(s) => *s,
            None => self.default_strategy,
        };
        match strategy {
            RetryStrategy::Never => None,
            RetryStrategy::Skip => None,
            RetryStrategy::Immediate { max_attempts } => {
                let count: u32 = self.attempt_count(task_id) + 1;
                self.attempts.insert(task_id.to_owned(), count);
                if count <= max_attempts {
                    Some(0)
                } else {
                    None
                }
            },
            RetryStrategy::Backoff { max_attempts, base_ms, max_ms } => {
                let count: u32 = self.attempt_count(task_id) + 1;
                self.attempts.insert(task_id.to_owned(), count);
                if count <= max_attempts {
                    Some(backoff_delay(base_ms, max_ms, count))
                } else {
                    None
                }
            },
        }
    }

    /// The strategy that a task asks for under `retry`, if it names a known one.
    pub fn parse_task_retry(task: &Json) -> (r: Option<RetryStrategy>)
        ensures
            r == asked_strategy(task@),
    {
        let retry = task.get("retry")?;
        let name = retry.get_str("strategy")?;
        if str_eq(name.as_str(), "none") {
            Some(RetryStrategy::Never)
        } else if str_eq(name.as_str(), "immediate") {
            Some(RetryStrategy::Immediate { max_attempts: attempts_or_three(retry) })
        } else if str_eq(name.as_str(), "backoff") {
            let base_ms: u64 = match retry.get_u64("base_ms") {
                Some(n) => n,
                None => 100,
            };
            let max_ms: u64 = match retry.get_u64("max_ms") {
                Some(n) => n,
                None => 1000,
            };
            Some(RetryStrategy::Backoff { max_attempts: attempts_or_three(retry), base_ms, max_ms })
        } else if str_eq(name.as_str(), "skip") {
            Some(RetryStrategy::Skip)
        } else {
            None
        }
    }

    /// How often a task has asked to be tried again.
    pub fn attempt_count(&self, task_id: &str) -> (r: u32)
        ensures
            r == self@.attempts_of(task_id@),
    {
        match self.attempts.get_str(task_id) {
            Some(n) => *n,
            None => 0,
        }
    }
}

/// A number member, or a default where there is none.
pub open spec fn number_or(v: JsonV, k: Seq<char>, default: u64) -> u64 {
    match v.get_unsigned(k) {
        Some(n) => n,
        None => default,
    }
}

/// The strategy that a task asks for under `retry`.
pub open spec fn asked_strategy(task: JsonV) -> Option<RetryStrategy> {
    match task.get("retry"@) {
        None => None,
        Some(retry) => match retry.get_text("strategy"@) {
            None => None,
            Some(name) => {
                let max_attempts = number_or(retry, "max_attempts"@, 3) as u32;
                if name == "none"@ {
                    Some(RetryStrategy::Never)
                } else if name == "immediate"@ {
                    Some(RetryStrategy::Immediate { max_attempts })
                } else if name == "backoff"@ {
                    Some(
                        RetryStrategy::Backoff {
                            max_attempts,
                            base_ms: number_or(retry, "base_ms"@, 100),
                            max_ms: number_or(retry, "max_ms"@, 1000),
                        },
                    )
                } else if name == "skip"@ {
                    Some(RetryStrategy::Skip)
                } else {
                    None
                }
            },
        },
    }
}

fn attempts_or_three(retry: &Json) -> (r: u32)
    ensures
        r == number_or(retry@, "max_attempts"@, 3) as u32,
{
    match retry.get_u64("max_attempts") {
        Some(n) => n as u32,
        None => 3,
    }
}

// ---------------------------------------------------------------------------
// What holds of every strategy
// ---------------------------------------------------------------------------
/// A delay is never more than the maximum, and never shorter than the one before it.
pub proof fn law_backoff_grows(base_ms: u64, max_ms: u64, attempt: u32, later: u32)
    requires
        0 < attempt <= later,
    ensures
        backoff(base_ms, max_ms, attempt) <= backoff(base_ms, max_ms, later) <= max_ms,
{
    let p = power2::pow2((attempt - 1) as nat);
    let q = power2::pow2((later - 1) as nat);
    if attempt < later {
        power2::lemma_pow2_strictly_increases((attempt - 1) as nat, (later - 1) as nat);
    }
    assert(base_ms * p <= base_ms * q) by (nonlinear_arith)
        requires
            p <= q,
            base_ms >= 0,
    ;
    assert(0 <= base_ms * p) by (nonlinear_arith)
        requires
            p >= 0,
            base_ms >= 0,
    ;
}

/// Once a strategy gives up on a task, it gives up on every later attempt of it.
pub proof fn law_exhausted_stays(s: RetryStrategy, attempt: u32, later: u32)
    requires
        attempt <= later,
        retry_delay(s, attempt) is None,
    ensures
        retry_delay(s, later) is None,
{
}

/// The first delay is the base, and each one after it is twice the one before, as long as that is
/// not more than the maximum.
pub proof fn law_backoff_doubles(base_ms: u64, max_ms: u64, attempt: u32)
    requires
        0 < attempt < u32::MAX,
    ensures
        backoff(base_ms, max_ms, 1) == if base_ms < max_ms {
            base_ms
        } else {
            max_ms
        },
        backoff(base_ms, max_ms, (attempt + 1) as u32) == if 2 * backoff(base_ms, max_ms, attempt)
            < max_ms {
            2 * backoff(base_ms, max_ms, attempt)
        } else {
            max_ms as int
        },
{
    power2::lemma2_to64();
    assert(base_ms * power2::pow2(0) == base_ms);
    let p = power2::pow2((attempt - 1) as nat);
    power2::lemma_pow2_unfold(attempt as nat);
    assert((attempt + 1) as u32 - 1 == attempt);
    assert(base_ms * (2 * p) == 2 * (base_ms * p)) by (nonlinear_arith);
    assert(0 <= base_ms * p) by (nonlinear_arith)
        requires
            p >= 0,
            base_ms >= 0,
    ;
}

/// A strategy allows as many attempts as it says, and no more; without attempts it allows none.
pub proof fn law_attempts_allowed(max: u32, base_ms: u64, max_ms: u64, attempt: u32)
    requires
        attempt > 0,
    ensures
        retry_delay(RetryStrategy::Never, attempt) is None,
        retry_delay(RetryStrategy::Skip, attempt) is None,
        retry_delay(RetryStrategy::Immediate { max_attempts: max }, attempt) == if attempt <= max {
            Some(0u64)
        } else {
            None
        },
        retry_delay(RetryStrategy::Backoff { max_attempts: max, base_ms, max_ms }, attempt) is Some
            <==> attempt <= max,
        retry_delay(RetryStrategy::Backoff { max_attempts: max, base_ms, max_ms }, attempt) matches Some(
            d,
        ) ==> d <= max_ms && (base_ms <= max_ms ==> base_ms <= d),
{
    law_backoff_grows(base_ms, max_ms, 1, attempt);
    power2::lemma2_to64();
    let one = power2::pow2((1u32 - 1) as nat);
    assert(base_ms * one == base_ms) by (nonlinear_arith)
        requires
            one == 1,
    ;
}

/// A tracker after a task has asked `n` times to be tried again.
pub open spec fn after_asking(s: TrackerV, task: Seq<char>, n: nat) -> TrackerV
    decreases n,
{
    if n == 0 {
        s
    } else {
        retried(after_asking(s, task, (n - 1) as nat), task).0
    }
}

/// A task is tried again just as often as its strategy says: of the times it asks, the first
/// `max_attempts` are granted and all others refused. What other tasks have asked is not touched.
pub proof fn law_tried_so_often(s: TrackerV, task: Seq<char>, other: Seq<char>, max: u32, n: nat)
    requires
        s.strategy_of(task) == (RetryStrategy::Immediate { max_attempts: max }),
        s.attempts_of(task) == 0,
        n < u32::MAX,
        other != task,
    ensures
        after_asking(s, task, n).attempts_of(task) == n,
        after_asking(s, task, n).attempts_of(other) == s.attempts_of(other),
        after_asking(s, task, n).strategy_of(task) == s.strategy_of(task),
        retried(after_asking(s, task, n), task).1 is Some <==> n < max,
    decreases n,
{
    if n > 0 {
        law_tried_so_often(s, task, other, max, (n - 1) as nat);
    }
}

/// The strategy that a task asks for is the one it names, with the numbers it gives.
pub proof fn law_asked_is_given(task: JsonV, r: JsonV, n: u64, base: u64, top: u64)
    requires
        task.get("retry"@) == Some(r),
        r.get_unsigned("max_attempts"@) == Some(n),
        n <= u32::MAX,
        r.get_unsigned("base_ms"@) == Some(base),
        r.get_unsigned("max_ms"@) == Some(top),
    ensures
        r.get_text("strategy"@) == Some("none"@) ==> asked_strategy(task) == Some(
            RetryStrategy::Never,
        ),
        r.get_text("strategy"@) == Some("skip"@) ==> asked_strategy(task) == Some(
            RetryStrategy::Skip,
        ),
        r.get_text("strategy"@) == Some("immediate"@) ==> asked_strategy(task) == Some(
            RetryStrategy::Immediate { max_attempts: n as u32 },
        ),
        r.get_text("strategy"@) == Some("backoff"@) ==> asked_strategy(task) == Some(
            RetryStrategy::Backoff { max_attempts: n as u32, base_ms: base, max_ms: top },
        ),
        r.get_text("strategy"@) is None ==> asked_strategy(task) is None,
{
    reveal_strlit("none");
    reveal_strlit("skip");
    reveal_strlit("immediate");
    reveal_strlit("backoff");
    assert("none"@.len() == 4 && "skip"@.len() == 4 && "immediate"@.len() == 9 && "backoff"@.len()
        == 7);
    assert("none"@[0] == 'n' && "skip"@[0] == 's');
}

} // verus!
