//! Limits on how many requests a provider gets within a span of time.
use std::collections::VecDeque;
use vstd::prelude::*;
use crate::agent_rt::observability;
use crate::agent_rt::observability::RuntimeMetrics;
use crate::util::assoc::{AssocMap, MapKey};

verus! {

/// The limit of one provider, where it has one of its own, and when its requests were let
/// through.
pub struct ProviderLimit {
    pub own: Option<(u32, u128)>,
    pub timestamps: VecDeque<u128>,
}

/// What is known of a provider.
#[verifier::ext_equal]
pub struct ProviderV {
    pub own: Option<(u32, u128)>,
    pub stamps: Seq<u128>,
}

impl View for ProviderLimit {
    type V = ProviderV;

    open spec fn view(&self) -> ProviderV {
        ProviderV { own: self.own, stamps: self.timestamps@ }
    }
}

/// The limit that holds for a provider, and when its requests were let through.
#[verifier::ext_equal]
pub struct LimitV {
    pub max_requests: u32,
    pub window: u128,
    pub stamps: Seq<u128>,
}

/// Lets through at most so many requests of a provider within its window, and says how long to
/// wait where it does not. Times are in nanoseconds.
pub struct RateLimiter {
    pub providers: AssocMap<String, ProviderLimit>,
    pub default_limit: Option<(u32, u128)>,
    pub metrics: Option<RuntimeMetrics>,
}

/// What a rate limiter is.
#[verifier::ext_equal]
pub struct LimiterV {
    pub providers: Map<Seq<char>, ProviderV>,
    pub default_limit: Option<(u32, u128)>,
    pub metrics: Option<RuntimeMetrics>,
}

/// What the limits of providers are.
pub open spec fn limits_view(m: Map<Seq<char>, ProviderLimit>) -> Map<Seq<char>, ProviderV> {
    m.map_values(|l: ProviderLimit| l@)
}

impl View for RateLimiter {
    type V = LimiterV;

    open spec fn view(&self) -> LimiterV {
        LimiterV {
            providers: limits_view(self.providers@),
            default_limit: self.default_limit,
            metrics: self.metrics,
        }
    }
}

/// How long ago `then` was at `now`; nothing where it is still to come.
pub open spec fn since(now: u128, then: u128) -> int {
    if then <= now {
        now - then
    } else {
        0
    }
}

fn time_since(now: u128, then: u128) -> (r: u128)
    ensures
        r == since(now, then),
{
    if then <= now {
        now - then
    } else {
        0
    }
}

/// The times without those at the front that are out of the window.
pub open spec fn within(stamps: Seq<u128>, now: u128, window: u128) -> Seq<u128>
    decreases stamps.len(),
{
    if stamps.len() > 0 && since(now, stamps[0]) >= window {
        within(stamps.drop_first(), now, window)
    } else {
        stamps
    }
}

/// What is known of a provider; nothing where it has not been seen.
pub open spec fn known(s: LimiterV, provider: Seq<char>) -> ProviderV {
    if s.providers.dom().contains(provider) {
        s.providers[provider]
    } else {
        ProviderV { own: None, stamps: Seq::empty() }
    }
}

/// The limit that holds for a provider: its own, or else the default, whatever it is now.
pub open spec fn limit_of(s: LimiterV, provider: Seq<char>) -> Option<LimitV> {
    let k = known(s, provider);
    match k.own {
        Some(l) => Some(LimitV { max_requests: l.0, window: l.1, stamps: k.stamps }),
        None => match s.default_limit {
            Some(d) => Some(LimitV { max_requests: d.0, window: d.1, stamps: k.stamps }),
            None => None,
        },
    }
}

/// How long to wait where `open` requests are within the window: until the first of them is out.
/// Where there is none, no request is allowed at all, and the wait is the whole window.
pub open spec fn wait_of(open: Seq<u128>, now: u128, window: u128) -> u128 {
    if open.len() == 0 {
        window
    } else {
        (window - since(now, open[0])) as u128
    }
}

/// A request at `now`: what becomes of the limiter, and how long to wait.
pub open spec fn acquire(s: LimiterV, provider: Seq<char>, now: u128) -> (
    LimiterV,
    Result<(), u128>,
) {
    match limit_of(s, provider) {
        None => (s, Ok(())),
        Some(l) => {
            let own = known(s, provider).own;
            let open = within(l.stamps, now, l.window);
            if open.len() < l.max_requests {
                (
                    LimiterV {
                        providers: s.providers.insert(
                            provider,
                            ProviderV { own, stamps: open.push(now) },
                        ),
                        ..s
                    },
                    Ok(()),
                )
            } else {
                (
                    LimiterV {
                        providers: s.providers.insert(provider, ProviderV { own, stamps: open }),
                        metrics: match s.metrics {
                            Some(m) => Some(
                                RuntimeMetrics {
                                    rate_limiter_rejections_total:
                                        m.rate_limiter_rejections_total.wrapping_add(1),
                                    ..m
                                },
                            ),
                            None => None,
                        },
                        ..s
                    },
                    Err(wait_of(open, now, l.window)),
                )
            }
        },
    }
}

proof fn lemma_insert_limit(m: Map<Seq<char>, ProviderLimit>, k: Seq<char>, l: ProviderLimit)
    ensures
        limits_view(m.insert(k, l)) == limits_view(m).insert(k, l@),
{
    assert(limits_view(m.insert(k, l)) =~= limits_view(m).insert(k, l@));
}

impl RateLimiter {
    /// No limits at all.
    pub fn new() -> (r: Self)
        ensures
            r@ == (LimiterV {
                providers: Map::empty(),
                default_limit: None,
                metrics: None,
            }),
    {
        let r = RateLimiter { providers: AssocMap::new(), default_limit: None, metrics: None };
        assert(r@.providers =~= Map::empty());
        r
    }

    /// From now on, refused requests and waits are counted, on from these counters. The limiter
    /// keeps the counters: they move in it, not where they came from.
    pub fn set_metrics(&mut self, metrics: RuntimeMetrics)
        ensures
            final(self)@ == (LimiterV { metrics: Some(metrics), ..old(self)@ }),
    {
        self.metrics = Some(metrics);
    }

    /// Sets the limit of one provider. Earlier requests no longer count.
    pub fn set_limit(&mut self, provider: &str, max_requests: u32, window: u128)
        ensures
            final(self)@ == (LimiterV {
                providers: old(self)@.providers.insert(
                    provider@,
                    (ProviderV { own: Some((max_requests, window)), stamps: Seq::empty() }),
                ),
                ..old(self)@
            }),
    {
        let l = ProviderLimit { own: Some((max_requests, window)), timestamps: VecDeque::new() };
        proof {
            lemma_insert_limit(self.providers@, provider@, l);
        }
        self.providers.insert(provider.to_owned(), l);
    }

    /// Sets the limit of every provider that has none of its own, seen before or not. Requests
    /// that were let through before still count.
    pub fn set_default_limit(&mut self, max_requests: u32, window: u128)
        ensures
            final(self)@ == (LimiterV {
                default_limit: Some((max_requests, window)),
                ..old(self)@
            }),
    {
        self.default_limit = Some((max_requests, window));
    }

    /// Asks to let a request through at `now`. Where it is not, the result says how long to
    /// wait. Where no request is allowed at all, that is the whole window, each time.
    pub fn try_acquire(&mut self, provider: &str, now: u128) -> (r: Result<(), u128>)
        ensures
            (final(self)@, r) == acquire(old(self)@, provider@, now),
    {
        let ghost s0 = self@;
        let ghost before = self.providers@;
        let found: Option<ProviderLimit> = self.providers.remove_str(provider);
        let seen: bool = found.is_some();
        let mut limit: ProviderLimit = match found {
            Some(l) => l,
            None => ProviderLimit { own: None, timestamps: VecDeque::new() },
        };
        let ghost k0 = limit@;
        assert(k0 =~= known(s0, provider@));
        let rule: Option<(u32, u128)> = match limit.own {
            Some(l) => Some(l),
            None => self.default_limit,
        };
        let (max_requests, window) = match rule {
            Some(l) => l,
            None => {
                if seen {
                    proof {
                        lemma_insert_limit(self.providers@, provider@, limit);
                        assert(limits_view(self.providers@).insert(provider@, limit@)
                            =~= s0.providers);
                    }
                    self.providers.insert(provider.to_owned(), limit);
                } else {
                    assert(self.providers@ =~= before);
                }
                return Ok(());
            },
        };
        let ghost l0 = LimitV { max_requests, window, stamps: k0.stamps };
        assert(limit_of(s0, provider@) == Some(l0));
        let ghost open = within(l0.stamps, now, l0.window);
        while limit.timestamps.len() > 0 && time_since(now, limit.timestamps[0]) >= window
            invariant
                open == within(limit@.stamps, now, window),
                limit@.own == k0.own,
            decreases limit@.stamps.len(),
        {
            let ghost was = limit@.stamps;
            limit.timestamps.pop_front();
            assert(limit@.stamps =~= was.drop_first());
        }
        assert(limit@.stamps == open);
        let r: Result<(), u128> = if limit.timestamps.len() < max_requests as usize {
            limit.timestamps.push_back(now);
            Ok(())
        } else {
            proof {
                lemma_front_open(l0.stamps, now, l0.window);
            }
            let wait: u128 = if limit.timestamps.len() == 0 {
                window
            } else {
                window - time_since(now, limit.timestamps[0])
            };
            let counted: Option<RuntimeMetrics> = match self.metrics {
                Some(m) => {
                    let mut m = m;
                    m.record_rate_limiter_rejection();
                    Some(m)
                },
                None => None,
            };
            self.metrics = counted;
            Err(wait)
        };
        proof {
            lemma_insert_limit(self.providers@, provider@, limit);
            assert(limits_view(self.providers@).insert(provider@, limit@) =~= s0.providers.insert(
                provider@,
                limit@,
            ));
        }
        self.providers.insert(provider.to_owned(), limit);
        r
    }

    /// Counts a wait that a refused request led to.
    pub fn note_wait(&mut self, wait: u128)
        ensures
            final(self)@ == (LimiterV {
                metrics: match old(self)@.metrics {
                    Some(m) => Some(
                        (RuntimeMetrics {
                            rate_limiter_waits_total: m.rate_limiter_waits_total.wrapping_add(1),
                            rate_limiter_wait_ms_total: m.rate_limiter_wait_ms_total.wrapping_add(
                                observability::whole_ms(wait),
                            ),
                            ..m
                        }),
                    ),
                    None => None,
                },
                ..old(self)@
            }),
    {
        let counted: Option<RuntimeMetrics> = match self.metrics {
            Some(m) => {
                let mut m = m;
                m.record_rate_limiter_wait(wait);
                Some(m)
            },
            None => None,
        };
        self.metrics = counted;
    }
}

// ---------------------------------------------------------------------------
// What holds of every rate limiter
// ---------------------------------------------------------------------------
/// A refused request has a wait of at most the window, and a positive one where any request is
/// allowed at all.
pub proof fn law_wait_bounded(s: LimiterV, provider: Seq<char>, now: u128)
    ensures
        acquire(s, provider, now).1 matches Err(w) ==> {
            &&& w <= limit_of(s, provider)->0.window
            &&& limit_of(s, provider)->0.max_requests > 0 ==> 0 < w
        },
{
    if let Some(l) = limit_of(s, provider) {
        lemma_front_open(l.stamps, now, l.window);
    }
}

/// A limit of no requests lets none through, and the wait is the whole window.
pub proof fn law_nothing_allowed(s: LimiterV, provider: Seq<char>, now: u128)
    requires
        limit_of(s, provider) matches Some(l) && l.max_requests == 0 && l.stamps.len() == 0,
    ensures
        acquire(s, provider, now).1 == Err::<(), u128>(limit_of(s, provider)->0.window),
{
}

/// A new default holds for every provider without a limit of its own, whether it was seen before
/// or not; what it was granted before still counts.
pub proof fn law_default_reaches_all(s: LimiterV, provider: Seq<char>, max: u32, window: u128)
    requires
        known(s, provider).own is None,
    ensures
        limit_of(LimiterV { default_limit: Some((max, window)), ..s }, provider) == Some(
            LimitV { max_requests: max, window, stamps: known(s, provider).stamps },
        ),
{
}

/// The wait of a refused request is exact: with no other request in between, one is let through
/// from the end of the wait on, and not before. The wait is what is left of the window of the first
/// request that counts, and the refused request itself does not count. Where the limit was lowered
/// below what had been let through, more than the first has to be out of the window first.
pub proof fn law_wait_exact(s: LimiterV, provider: Seq<char>, now: u128, later: u128)
    requires
        limit_of(s, provider) matches Some(l) && l.max_requests > 0 && within(
            l.stamps,
            now,
            l.window,
        ).len() <= l.max_requests && forall|i: int|
            0 <= i < l.stamps.len() ==> #[trigger] l.stamps[i] <= now,
        acquire(s, provider, now).1 is Err,
        now <= later,
    ensures
        ({
            let l = limit_of(s, provider)->0;
            let open = within(l.stamps, now, l.window);
            let w = acquire(s, provider, now).1->Err_0;
            let after = acquire(s, provider, now).0;
            &&& w == l.window - (now - open[0])
            &&& 0 < w <= l.window
            &&& known(after, provider).stamps == open
            &&& acquire(after, provider, later).1 is Ok <==> now + w <= later
        }),
{
    let l = limit_of(s, provider)->0;
    let open = within(l.stamps, now, l.window);
    lemma_front_open(l.stamps, now, l.window);
    lemma_within_part(l.stamps, now, l.window);
    let k = l.stamps.len() - open.len();
    assert(open[0] == l.stamps[k]);
    let w = acquire(s, provider, now).1->Err_0;
    if now + w <= later {
        assert(since(later, open[0]) >= l.window);
        lemma_within_len(open.drop_first(), later, l.window);
    } else {
        assert(since(later, open[0]) < l.window);
        assert(within(open, later, l.window) == open);
    }
}

/// The times behind a part that is out of the window.
proof fn lemma_within_part(stamps: Seq<u128>, now: u128, window: u128)
    ensures
        within(stamps, now, window).len() <= stamps.len(),
        within(stamps, now, window) == stamps.skip(
            stamps.len() - within(stamps, now, window).len(),
        ),
        forall|i: int|
            0 <= i < stamps.len() - within(stamps, now, window).len() ==> since(
                now,
                #[trigger] stamps[i],
            ) >= window,
    decreases stamps.len(),
{
    if stamps.len() > 0 && since(now, stamps[0]) >= window {
        let t = stamps.drop_first();
        lemma_within_part(t, now, window);
        let n = within(t, now, window).len();
        assert(t.skip(t.len() - n) =~= stamps.skip(stamps.len() - n));
        assert forall|i: int| 0 <= i < stamps.len() - n implies since(now, #[trigger] stamps[i])
            >= window by {
            if i > 0 {
                assert(t[i - 1] == stamps[i]);
            }
        }
    } else {
        assert(stamps.skip(0) =~= stamps);
    }
}

proof fn lemma_front_open(stamps: Seq<u128>, now: u128, window: u128)
    ensures
        within(stamps, now, window).len() > 0 ==> since(now, within(stamps, now, window)[0])
            < window,
    decreases stamps.len(),
{
    if stamps.len() > 0 && since(now, stamps[0]) >= window {
        lemma_front_open(stamps.drop_first(), now, window);
    }
}

/// A provider is never counted more often than its limit allows.
pub proof fn law_limit_kept(s: LimiterV, provider: Seq<char>, now: u128)
    requires
        limit_of(s, provider) matches Some(l) && l.stamps.len() <= l.max_requests,
    ensures
        limit_of(acquire(s, provider, now).0, provider) matches Some(l) && l.stamps.len()
            <= l.max_requests,
{
    lemma_within_len(limit_of(s, provider)->0.stamps, now, limit_of(s, provider)->0.window);
}

proof fn lemma_within_len(stamps: Seq<u128>, now: u128, window: u128)
    ensures
        within(stamps, now, window).len() <= stamps.len(),
    decreases stamps.len(),
{
    if stamps.len() > 0 && since(now, stamps[0]) >= window {
        lemma_within_len(stamps.drop_first(), now, window);
    }
}

/// A request of one provider does not touch the others.
pub proof fn law_providers_independent(
    s: LimiterV,
    provider: Seq<char>,
    other: Seq<char>,
    now: u128,
)
    requires
        provider != other,
    ensures
        limit_of(acquire(s, provider, now).0, other) == limit_of(s, other),
{
    assert(known(acquire(s, provider, now).0, other) == known(s, other));
}

/// The whole window passes a waiting request: once the window is over for every request that
/// was let through, a request is let through again.
pub proof fn law_window_expires(s: LimiterV, provider: Seq<char>, now: u128)
    requires
        limit_of(s, provider) matches Some(l) ==> l.max_requests > 0 && forall|i: int|
            0 <= i < l.stamps.len() ==> since(now, #[trigger] l.stamps[i]) >= l.window,
    ensures
        acquire(s, provider, now).1 is Ok,
{
    if let Some(l) = limit_of(s, provider) {
        lemma_all_out(l.stamps, now, l.window);
    }
}

proof fn lemma_all_out(stamps: Seq<u128>, now: u128, window: u128)
    requires
        forall|i: int| 0 <= i < stamps.len() ==> since(now, #[trigger] stamps[i]) >= window,
    ensures
        within(stamps, now, window).len() == 0,
    decreases stamps.len(),
{
    if stamps.len() > 0 {
        let t = stamps.drop_first();
        assert forall|i: int| 0 <= i < t.len() implies since(now, #[trigger] t[i]) >= window by {
            assert(t[i] == stamps[i + 1]);
        }
        lemma_all_out(t, now, window);
    }
}

// ---------------------------------------------------------------------------
// The window over the history of calls
// ---------------------------------------------------------------------------
/// The limiter after requests, each of a provider at a time.
pub open spec fn after_calls(s: LimiterV, calls: Seq<(Seq<char>, u128)>) -> LimiterV
    decreases calls.len(),
{
    if calls.len() == 0 {
        s
    } else {
        acquire(after_calls(s, calls.drop_last()), calls.last().0, calls.last().1).0
    }
}

/// The times at which requests of a provider were let through.
pub open spec fn granted(s: LimiterV, calls: Seq<(Seq<char>, u128)>, provider: Seq<char>) -> Seq<u128>
    decreases calls.len(),
{
    if calls.len() == 0 {
        Seq::empty()
    } else {
        let before = granted(s, calls.drop_last(), provider);
        if calls.last().0 == provider && acquire(
            after_calls(s, calls.drop_last()),
            provider,
            calls.last().1,
        ).1 is Ok {
            before.push(calls.last().1)
        } else {
            before
        }
    }
}

/// Time does not go backwards.
pub open spec fn in_order(calls: Seq<(Seq<char>, u128)>) -> bool {
    forall|i: int, j: int|
        0 <= i <= j < calls.len() ==> (#[trigger] calls[i]).1 <= (#[trigger] calls[j]).1
}

/// The time is not before any of the calls.
pub open spec fn after_all(calls: Seq<(Seq<char>, u128)>, now: u128) -> bool {
    forall|i: int| 0 <= i < calls.len() ==> (#[trigger] calls[i]).1 <= now
}

/// What is out of the window stays out.
proof fn lemma_within_later(stamps: Seq<u128>, now: u128, then: u128, window: u128)
    requires
        now <= then,
    ensures
        within(within(stamps, now, window), then, window) == within(stamps, then, window),
    decreases stamps.len(),
{
    if stamps.len() > 0 && since(now, stamps[0]) >= window {
        lemma_within_later(stamps.drop_first(), now, then, window);
    }
}

/// One time more at the end.
proof fn lemma_within_push(stamps: Seq<u128>, x: u128, now: u128, window: u128)
    ensures
        within(stamps.push(x), now, window) == if within(stamps, now, window).len() > 0 {
            within(stamps, now, window).push(x)
        } else {
            within(seq![x], now, window)
        },
    decreases stamps.len(),
{
    if stamps.len() == 0 {
        assert(stamps.push(x) =~= seq![x]);
    } else if since(now, stamps[0]) >= window {
        assert(stamps.push(x).drop_first() =~= stamps.drop_first().push(x));
        lemma_within_push(stamps.drop_first(), x, now, window);
    }
}

/// What the limiter keeps of a provider counts as all that it was granted.
proof fn lemma_history(s: LimiterV, calls: Seq<(Seq<char>, u128)>, provider: Seq<char>, now: u128)
    requires
        limit_of(s, provider) matches Some(l) && l.stamps.len() == 0,
        in_order(calls),
        after_all(calls, now),
    ensures
        ({
            let l = limit_of(s, provider)->0;
            let g = granted(s, calls, provider);
            &&& limit_of(after_calls(s, calls), provider) matches Some(k) && k.max_requests
                == l.max_requests && k.window == l.window && within(k.stamps, now, l.window)
                == within(g, now, l.window)
            &&& forall|i: int| 0 <= i < g.len() ==> #[trigger] g[i] <= now
            &&& forall|i: int, j: int| 0 <= i <= j < g.len() ==> #[trigger] g[i] <= #[trigger] g[j]
            &&& forall|i: int, j: int|
                0 <= i && j == i + l.max_requests && j < g.len() ==> #[trigger] g[j]
                    - #[trigger] g[i] >= l.window
        }),
    decreases calls.len(),
{
    if calls.len() > 0 {
        let l = limit_of(s, provider)->0;
        let w = l.window;
        let most = calls.drop_last();
        let (who, t) = calls.last();
        assert(t <= now) by {
            assert(calls[calls.len() - 1].1 <= now);
        }
        assert(in_order(most)) by {
            assert forall|i: int, j: int| 0 <= i <= j < most.len() implies (#[trigger] most[i]).1 <= (
            #[trigger] most[j]).1 by {
                assert(calls[i].1 <= calls[j].1);
            }
        }
        assert(after_all(most, t)) by {
            assert forall|i: int| 0 <= i < most.len() implies (#[trigger] most[i]).1 <= t by {
                assert(calls[i].1 <= calls[calls.len() - 1].1);
            }
        }
        assert(after_all(most, now)) by {
            assert forall|i: int| 0 <= i < most.len() implies (#[trigger] most[i]).1 <= now by {
                assert(calls[i].1 <= now);
            }
        }
        lemma_history(s, most, provider, now);
        lemma_history(s, most, provider, t);
        let s1 = after_calls(s, most);
        let g = granted(s, most, provider);
        if who != provider {
            law_providers_independent(s1, who, provider, t);
        } else {
            let k = limit_of(s1, provider)->0;
            let open = within(k.stamps, t, w);
            lemma_within_later(k.stamps, t, now, w);
            lemma_within_part(g, t, w);
            if open.len() < l.max_requests {
                lemma_within_push(open, t, now, w);
                lemma_within_push(g, t, now, w);
                let h = g.push(t);
                assert(granted(s, calls, provider) == h);
                assert forall|i: int, j: int|
                    0 <= i && j == i + l.max_requests && j < h.len() implies #[trigger] h[j]
                    - #[trigger] h[i] >= w by {
                    if j < g.len() {
                        assert(h[j] == g[j] && h[i] == g[i]);
                    } else {
                        assert(h[i] == g[i]);
                        assert(since(t, g[i]) >= w);
                    }
                }
            }
        }
    }
}

/// The window slides: of the requests of a provider with one limit, no span of time shorter than
/// the window holds more than the limit allows, whatever other providers ask meanwhile. The next
/// one is let through exactly where fewer than the limit allows have been granted within the
/// window before it.
pub proof fn law_sliding_window(
    s: LimiterV,
    calls: Seq<(Seq<char>, u128)>,
    provider: Seq<char>,
    now: u128,
)
    requires
        limit_of(s, provider) matches Some(l) && l.stamps.len() == 0,
        in_order(calls),
        after_all(calls, now),
    ensures
        ({
            let l = limit_of(s, provider)->0;
            let g = granted(s, calls, provider);
            let recent = within(g, now, l.window);
            &&& forall|i: int, j: int|
                0 <= i && j == i + l.max_requests && j < g.len() ==> #[trigger] g[j]
                    - #[trigger] g[i] >= l.window
            &&& recent.len() <= g.len()
            &&& forall|i: int|
                0 <= i < g.len() ==> (now - #[trigger] g[i] < l.window <==> i >= g.len()
                    - recent.len())
            &&& acquire(after_calls(s, calls), provider, now).1 is Ok <==> recent.len()
                < l.max_requests
        }),
{
    let l = limit_of(s, provider)->0;
    let g = granted(s, calls, provider);
    let recent = within(g, now, l.window);
    lemma_history(s, calls, provider, now);
    lemma_within_part(g, now, l.window);
    lemma_front_open(g, now, l.window);
    let k = g.len() - recent.len();
    assert forall|i: int| 0 <= i < g.len() implies (now - #[trigger] g[i] < l.window <==> i >= k) by {
        if i >= k {
            assert(recent[0] == g[k]);
            assert(g[k] <= g[i]);
        } else {
            assert(since(now, g[i]) >= l.window);
        }
    }
}

} // verus!
