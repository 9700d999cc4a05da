//! Limits pairing attempts per source address and over all sources, in fixed
//! windows, with a bounded table of tracked sources.
//!
//! Times are readings of a monotonic clock in nanoseconds; the caller supplies
//! them, so the rules below hold for every clock.
use vstd::prelude::*;

use crate::net::{normalize_ip, normalized, IpAddress};

verus! {

/// Length of a limiting window.
pub const WINDOW_NANOS: u64 = 60_000_000_000;

pub const BEGIN_PER_SOURCE: u32 = 5;

pub const BEGIN_GLOBAL: u32 = 40;

pub const CLAIM_PER_SOURCE: u32 = 10;

pub const CLAIM_GLOBAL: u32 = 80;

pub const MAX_TRACKED_SOURCES: usize = 1024;

#[derive(Debug, Clone, Copy, PartialEq, Eq, Structural)]
pub enum PairingAttemptKind {
    Begin,
    Claim,
}

#[derive(Debug, Clone, Copy, PartialEq, Eq, Structural)]
pub enum RateLimitDecision {
    Allowed,
    Limited { retry_after_seconds: u64 },
}

/// How many attempts of one kind a window admits, per source and overall.
#[derive(Debug, Clone, Copy, PartialEq, Eq, Structural)]
pub struct Policy {
    pub per_source: u32,
    pub global: u32,
    pub window_nanos: u64,
}

/// Attempts counted since the window started.
#[derive(Debug, Clone, Copy, PartialEq, Eq, Structural)]
pub struct WindowCounter {
    pub started_at: u64,
    pub attempts: u32,
}

/// What the limiter remembers about one source address.
#[derive(Debug, Clone, Copy)]
pub struct SourceState {
    pub source: IpAddress,
    pub last_seen: u64,
    pub begin: Option<WindowCounter>,
    pub claim: Option<WindowCounter>,
}

/// The pairing rate limiter.
#[derive(Debug)]
pub struct PairingRateLimiter {
    sources: Vec<SourceState>,
    begin_global: Option<WindowCounter>,
    claim_global: Option<WindowCounter>,
    begin_policy: Policy,
    claim_policy: Policy,
    max_sources: usize,
}

/// The counters of a limiter.
pub ghost struct LimiterState {
    pub sources: Seq<SourceState>,
    pub begin_global: Option<WindowCounter>,
    pub claim_global: Option<WindowCounter>,
}

// ---------------------------------------------------------------------------
// The limiting rule
// ---------------------------------------------------------------------------

/// Time from `since` to `now`, zero when the clock reads earlier.
pub open spec fn elapsed(now: u64, since: u64) -> int {
    if now >= since {
        now - since
    } else {
        0
    }
}

/// Whole seconds in `nanos`, rounded up, at least one.
pub open spec fn ceil_seconds(nanos: int) -> u64 {
    let s = (nanos + 999_999_999) / 1_000_000_000;
    if s < 1 {
        1
    } else {
        s as u64
    }
}

/// A counter whose window has passed is forgotten.
pub open spec fn reset_counter(c: Option<WindowCounter>, now: u64, window: u64) -> Option<
    WindowCounter,
> {
    match c {
        Some(k) => if elapsed(now, k.started_at) >= window {
            None
        } else {
            c
        },
        None => None,
    }
}

/// The wait, in seconds, until the counter's window ends, when the counter
/// has reached `limit`.
pub open spec fn retry_after(c: Option<WindowCounter>, limit: u32, now: u64, window: u64) -> Option<
    u64,
> {
    match c {
        Some(k) => if k.attempts >= limit {
            let left = window - elapsed(now, k.started_at);
            Some(
                ceil_seconds(
                    if left > 0 {
                        left
                    } else {
                        0
                    },
                ),
            )
        } else {
            None
        },
        None => None,
    }
}

/// The counter after one more attempt.
pub open spec fn incremented(c: Option<WindowCounter>, now: u64) -> Option<WindowCounter> {
    match c {
        Some(k) => Some(
            WindowCounter {
                started_at: k.started_at,
                attempts: if k.attempts == u32::MAX {
                    u32::MAX
                } else {
                    (k.attempts + 1) as u32
                },
            },
        ),
        None => Some(WindowCounter { started_at: now, attempts: 1 }),
    }
}

/// The sources seen within the last `stale_after` nanoseconds, in order.
pub open spec fn live_sources(s: Seq<SourceState>, now: u64, stale_after: u64) -> Seq<SourceState>
    decreases s.len(),
{
    if s.len() == 0 {
        s
    } else {
        let rest = live_sources(s.drop_last(), now, stale_after);
        if elapsed(now, s.last().last_seen) < stale_after {
            rest.push(s.last())
        } else {
            rest
        }
    }
}

pub open spec fn source_keys(s: Seq<SourceState>) -> Seq<IpAddress> {
    s.map_values(|e: SourceState| e.source)
}

pub open spec fn policy_for(kind: PairingAttemptKind, begin: Policy, claim: Policy) -> Policy {
    match kind {
        PairingAttemptKind::Begin => begin,
        PairingAttemptKind::Claim => claim,
    }
}

pub open spec fn global_counter(state: LimiterState, kind: PairingAttemptKind) -> Option<
    WindowCounter,
> {
    match kind {
        PairingAttemptKind::Begin => state.begin_global,
        PairingAttemptKind::Claim => state.claim_global,
    }
}

pub open spec fn with_global(
    state: LimiterState,
    kind: PairingAttemptKind,
    c: Option<WindowCounter>,
) -> LimiterState {
    match kind {
        PairingAttemptKind::Begin => LimiterState { begin_global: c, ..state },
        PairingAttemptKind::Claim => LimiterState { claim_global: c, ..state },
    }
}

pub open spec fn source_counter(entry: SourceState, kind: PairingAttemptKind) -> Option<
    WindowCounter,
> {
    match kind {
        PairingAttemptKind::Begin => entry.begin,
        PairingAttemptKind::Claim => entry.claim,
    }
}

pub open spec fn with_source_counter(
    entry: SourceState,
    kind: PairingAttemptKind,
    c: Option<WindowCounter>,
) -> SourceState {
    match kind {
        PairingAttemptKind::Begin => SourceState { begin: c, ..entry },
        PairingAttemptKind::Claim => SourceState { claim: c, ..entry },
    }
}

/// `sources` with the entry at `position` replaced, or `entry` appended.
pub open spec fn put_source(sources: Seq<SourceState>, position: Option<int>, entry: SourceState) -> Seq<
    SourceState,
> {
    match position {
        Some(i) => sources.update(i, entry),
        None => sources.push(entry),
    }
}

/// The longer of the two windows: sources idle this long are forgotten.
pub open spec fn stale_after(begin: Policy, claim: Policy) -> u64 {
    if begin.window_nanos >= claim.window_nanos {
        begin.window_nanos
    } else {
        claim.window_nanos
    }
}

/// One attempt of `kind` from `source` at `now`: the limiter's next counters
/// and its answer.  Stale sources are forgotten first; an unknown source is
/// refused while the table is full; the overall counter is checked before the
/// source's own; only an admitted attempt counts.
pub open spec fn check_outcome(
    pre: LimiterState,
    begin: Policy,
    claim: Policy,
    max_sources: nat,
    kind: PairingAttemptKind,
    source: IpAddress,
    now: u64,
) -> (LimiterState, RateLimitDecision) {
    let policy = policy_for(kind, begin, claim);
    let stale = stale_after(begin, claim);
    let live = live_sources(pre.sources, now, stale);
    let position = source_keys(live).index_of_first(source);
    let pruned = LimiterState { sources: live, ..pre };
    if position is None && live.len() >= max_sources {
        (pruned, RateLimitDecision::Limited { retry_after_seconds: ceil_seconds(stale as int) })
    } else {
        let g = reset_counter(global_counter(pre, kind), now, policy.window_nanos);
        let checked = with_global(pruned, kind, g);
        match retry_after(g, policy.global, now, policy.window_nanos) {
            Some(r) => (checked, RateLimitDecision::Limited { retry_after_seconds: r }),
            None => {
                let found = match position {
                    Some(i) => live[i],
                    None => SourceState { source, last_seen: now, begin: None, claim: None },
                };
                let seen = SourceState { last_seen: now, ..found };
                let c = reset_counter(source_counter(seen, kind), now, policy.window_nanos);
                match retry_after(c, policy.per_source, now, policy.window_nanos) {
                    Some(r) => (
                        LimiterState {
                            sources: put_source(live, position, with_source_counter(seen, kind, c)),
                            ..checked
                        },
                        RateLimitDecision::Limited { retry_after_seconds: r },
                    ),
                    None => (
                        with_global(
                            LimiterState {
                                sources: put_source(
                                    live,
                                    position,
                                    with_source_counter(seen, kind, incremented(c, now)),
                                ),
                                ..checked
                            },
                            kind,
                            incremented(g, now),
                        ),
                        RateLimitDecision::Allowed,
                    ),
                }
            },
        }
    }
}

/// A counter never holds more attempts than its limit admits (one attempt
/// when the limit is zero).
pub open spec fn counter_within(c: Option<WindowCounter>, limit: u32) -> bool {
    c matches Some(k) ==> (k.attempts <= limit || k.attempts <= 1)
}

/// The state a limiter keeps: each source tracked once, no more sources than
/// the bound, and no counter beyond its limit.
pub open spec fn state_wf(state: LimiterState, begin: Policy, claim: Policy, max_sources: nat) -> bool {
    &&& source_keys(state.sources).no_duplicates()
    &&& state.sources.len() <= max_sources
    &&& counter_within(state.begin_global, begin.global)
    &&& counter_within(state.claim_global, claim.global)
    &&& forall|i: int|
        0 <= i < state.sources.len() ==> counter_within(
            #[trigger] state.sources[i].begin,
            begin.per_source,
        ) && counter_within(state.sources[i].claim, claim.per_source)
}

impl View for PairingRateLimiter {
    type V = LimiterState;

    closed spec fn view(&self) -> LimiterState {
        LimiterState {
            sources: self.sources@,
            begin_global: self.begin_global,
            claim_global: self.claim_global,
        }
    }
}

impl PairingRateLimiter {
    pub closed spec fn begin_policy(&self) -> Policy {
        self.begin_policy
    }

    pub closed spec fn claim_policy(&self) -> Policy {
        self.claim_policy
    }

    pub closed spec fn max_sources(&self) -> nat {
        self.max_sources as nat
    }

    #[verifier::type_invariant]
    closed spec fn inv(&self) -> bool {
        state_wf(self@, self.begin_policy, self.claim_policy, self.max_sources as nat)
    }

    /// A limiter with no attempts recorded.
    pub fn new(begin_policy: Policy, claim_policy: Policy, max_sources: usize) -> (r: Self)
        ensures
            r@.sources.len() == 0,
            r@.begin_global is None,
            r@.claim_global is None,
            r.begin_policy() == begin_policy,
            r.claim_policy() == claim_policy,
            r.max_sources() == max_sources,
            state_wf(r@, begin_policy, claim_policy, max_sources as nat),
    {
        let r = PairingRateLimiter {
            sources: Vec::new(),
            begin_global: None,
            claim_global: None,
            begin_policy,
            claim_policy,
            max_sources,
        };
        assert(source_keys(r.sources@) =~= Seq::empty());
        r
    }

    /// The limiter with the product's policies: per minute, 5 begins per
    /// source and 40 overall, 10 claims per source and 80 overall, and at most
    /// 1024 tracked sources.
    pub fn with_default_policies() -> (r: Self)
        ensures
            r@.sources.len() == 0,
            r@.begin_global is None,
            r@.claim_global is None,
            r.begin_policy() == (Policy {
                per_source: BEGIN_PER_SOURCE,
                global: BEGIN_GLOBAL,
                window_nanos: WINDOW_NANOS,
            }),
            r.claim_policy() == (Policy {
                per_source: CLAIM_PER_SOURCE,
                global: CLAIM_GLOBAL,
                window_nanos: WINDOW_NANOS,
            }),
            r.max_sources() == MAX_TRACKED_SOURCES,
    {
        Self::new(
            Policy { per_source: BEGIN_PER_SOURCE, global: BEGIN_GLOBAL, window_nanos: WINDOW_NANOS },
            Policy { per_source: CLAIM_PER_SOURCE, global: CLAIM_GLOBAL, window_nanos: WINDOW_NANOS },
            MAX_TRACKED_SOURCES,
        )
    }

    /// Number of source addresses currently tracked.
    pub fn tracked_sources(&self) -> (n: usize)
        ensures
            n == self@.sources.len(),
    {
        self.sources.len()
    }

    /// Records an attempt of `kind` from `source` at clock reading `now`
    /// (nanoseconds), and says whether it may proceed.
    pub fn check_at(&mut self, kind: PairingAttemptKind, source: IpAddress, now: u64) -> (r:
        RateLimitDecision)
        ensures
            (final(self)@, r) == check_outcome(
                old(self)@,
                old(self).begin_policy(),
                old(self).claim_policy(),
                old(self).max_sources(),
                kind,
                source,
                now,
            ),
            final(self).begin_policy() == old(self).begin_policy(),
            final(self).claim_policy() == old(self).claim_policy(),
            final(self).max_sources() == old(self).max_sources(),
            state_wf(
                final(self)@,
                final(self).begin_policy(),
                final(self).claim_policy(),
                final(self).max_sources(),
            ),
    {
        proof {
            use_type_invariant(&*self);
        }
        let policy = match kind {
            PairingAttemptKind::Begin => self.begin_policy,
            PairingAttemptKind::Claim => self.claim_policy,
        };
        let stale = if self.begin_policy.window_nanos >= self.claim_policy.window_nanos {
            self.begin_policy.window_nanos
        } else {
            self.claim_policy.window_nanos
        };
        let live = retain_live(&self.sources, now, stale);
        proof {
            lemma_live_sources_wf(
                self.sources@,
                now,
                stale,
                self.begin_policy,
                self.claim_policy,
            );
        }
        let position = find_source(&live, source);
        if position.is_none() && live.len() >= self.max_sources {
            let next = PairingRateLimiter {
                sources: live,
                begin_global: self.begin_global,
                claim_global: self.claim_global,
                begin_policy: self.begin_policy,
                claim_policy: self.claim_policy,
                max_sources: self.max_sources,
            };
            *self = next;
            proof {
                use_type_invariant(&*self);
            }
            return RateLimitDecision::Limited { retry_after_seconds: duration_seconds_ceil(stale) };
        }
        let global = match kind {
            PairingAttemptKind::Begin => self.begin_global,
            PairingAttemptKind::Claim => self.claim_global,
        };
        let g = reset_expired(global, now, policy.window_nanos);
        let (begin_global, claim_global) = match kind {
            PairingAttemptKind::Begin => (g, self.claim_global),
            PairingAttemptKind::Claim => (self.begin_global, g),
        };
        if let Some(retry_after_seconds) = limited_retry(g, policy.global, now, policy.window_nanos) {
            let next = PairingRateLimiter {
                sources: live,
                begin_global,
                claim_global,
                begin_policy: self.begin_policy,
                claim_policy: self.claim_policy,
                max_sources: self.max_sources,
            };
            *self = next;
            proof {
                use_type_invariant(&*self);
            }
            return RateLimitDecision::Limited { retry_after_seconds };
        }
        let found = match position {
            Some(i) => live[i],
            None => SourceState { source, last_seen: now, begin: None, claim: None },
        };
        let seen = SourceState { last_seen: now, ..found };
        let own = match kind {
            PairingAttemptKind::Begin => seen.begin,
            PairingAttemptKind::Claim => seen.claim,
        };
        let c = reset_expired(own, now, policy.window_nanos);
        let limited = limited_retry(c, policy.per_source, now, policy.window_nanos);
        let counted = match limited {
            Some(_) => c,
            None => increment(c, now),
        };
        let entry = match kind {
            PairingAttemptKind::Begin => SourceState { begin: counted, ..seen },
            PairingAttemptKind::Claim => SourceState { claim: counted, ..seen },
        };
        let mut sources = live;
        match position {
            Some(i) => {
                sources.set(i, entry);
            },
            None => {
                sources.push(entry);
            },
        }
        proof {
            source_keys(live@).index_of_first_ensures(source);
            lemma_put_source_wf(live@, position, entry, source, self.max_sources as nat);
        }
        let decision = match limited {
            Some(retry_after_seconds) => {
                let next = PairingRateLimiter {
                    sources,
                    begin_global,
                    claim_global,
                    begin_policy: self.begin_policy,
                    claim_policy: self.claim_policy,
                    max_sources: self.max_sources,
                };
                *self = next;
                proof {
                    use_type_invariant(&*self);
                }
                RateLimitDecision::Limited { retry_after_seconds }
            },
            None => {
                let counted_global = increment(g, now);
                let (begin_global, claim_global) = match kind {
                    PairingAttemptKind::Begin => (counted_global, self.claim_global),
                    PairingAttemptKind::Claim => (self.begin_global, counted_global),
                };
                let next = PairingRateLimiter {
                    sources,
                    begin_global,
                    claim_global,
                    begin_policy: self.begin_policy,
                    claim_policy: self.claim_policy,
                    max_sources: self.max_sources,
                };
                *self = next;
                proof {
                    use_type_invariant(&*self);
                }
                RateLimitDecision::Allowed
            },
        };
        decision
    }
}

pub open spec fn other_kind(kind: PairingAttemptKind) -> PairingAttemptKind {
    match kind {
        PairingAttemptKind::Begin => PairingAttemptKind::Claim,
        PairingAttemptKind::Claim => PairingAttemptKind::Begin,
    }
}

impl PairingRateLimiter {
    /// Records an attempt of `kind` from the remote address `remote` at
    /// `now`: an IPv4-mapped IPv6 address counts as the IPv4 address it
    /// carries.
    pub fn check(&mut self, kind: PairingAttemptKind, remote: IpAddress, now: u64) -> (r:
        RateLimitDecision)
        ensures
            (final(self)@, r) == check_outcome(
                old(self)@,
                old(self).begin_policy(),
                old(self).claim_policy(),
                old(self).max_sources(),
                kind,
                normalized(remote),
                now,
            ),
            final(self).begin_policy() == old(self).begin_policy(),
            final(self).claim_policy() == old(self).claim_policy(),
            final(self).max_sources() == old(self).max_sources(),
    {
        let source = normalize_ip(remote);
        self.check_at(kind, source, now)
    }

    /// The answer when the limiter's state cannot be read: the attempt is
    /// refused for one window of its kind.
    pub fn refusal(&self, kind: PairingAttemptKind) -> (r: RateLimitDecision)
        ensures
            r == (RateLimitDecision::Limited {
                retry_after_seconds: ceil_seconds(
                    policy_for(kind, self.begin_policy(), self.claim_policy()).window_nanos as int,
                ),
            }),
    {
        let window = match kind {
            PairingAttemptKind::Begin => self.begin_policy.window_nanos,
            PairingAttemptKind::Claim => self.claim_policy.window_nanos,
        };
        RateLimitDecision::Limited { retry_after_seconds: duration_seconds_ceil(window) }
    }
}

/// Begin and claim attempts are counted apart: a check of one kind leaves the
/// overall counter of the other kind unchanged, and every source it tracks
/// afterwards holds for the other kind either the counter some source with
/// the same address held before, or none.
pub proof fn lemma_kinds_are_independent(
    pre: LimiterState,
    begin: Policy,
    claim: Policy,
    max_sources: nat,
    kind: PairingAttemptKind,
    source: IpAddress,
    now: u64,
)
    ensures
        ({
            let post = check_outcome(pre, begin, claim, max_sources, kind, source, now).0;
            &&& global_counter(post, other_kind(kind)) == global_counter(pre, other_kind(kind))
            &&& forall|i: int|
                0 <= i < post.sources.len() ==> source_counter(
                    #[trigger] post.sources[i],
                    other_kind(kind),
                ) is None || exists|j: int|
                    0 <= j < pre.sources.len() && pre.sources[j].source == post.sources[i].source
                        && source_counter(pre.sources[j], other_kind(kind)) == source_counter(
                        post.sources[i],
                        other_kind(kind),
                    )
        }),
{
    let stale = stale_after(begin, claim);
    let live = live_sources(pre.sources, now, stale);
    lemma_live_sources_subset(pre.sources, now, stale);
    let post = check_outcome(pre, begin, claim, max_sources, kind, source, now).0;
    let position = source_keys(live).index_of_first(source);
    source_keys(live).index_of_first_ensures(source);
    assert forall|i: int| 0 <= i < post.sources.len() implies source_counter(
        #[trigger] post.sources[i],
        other_kind(kind),
    ) is None || exists|j: int|
        0 <= j < pre.sources.len() && pre.sources[j].source == post.sources[i].source
            && source_counter(pre.sources[j], other_kind(kind)) == source_counter(
            post.sources[i],
            other_kind(kind),
        ) by {
        let e = post.sources[i];
        if i < live.len() && (position is None || position != Some(i)) {
            assert(e == live[i]);
            let j = choose|j: int| 0 <= j < pre.sources.len() && live[i] == pre.sources[j];
            assert(pre.sources[j] == e);
        } else if position is Some {
            let k = position->0;
            assert(live[k].source == source);
            let j = choose|j: int| 0 <= j < pre.sources.len() && live[k] == pre.sources[j];
            assert(pre.sources[j] == live[k]);
        }
    }
}

/// Attempts a counter holds (none for no counter).
pub open spec fn attempts_of(c: Option<WindowCounter>) -> int {
    match c {
        Some(k) => k.attempts as int,
        None => 0,
    }
}

/// Attempts of `kind` the limiter holds for the address `source`.
pub open spec fn source_attempts(state: LimiterState, source: IpAddress, kind: PairingAttemptKind) -> int {
    match source_keys(state.sources).index_of_first(source) {
        Some(i) => attempts_of(source_counter(state.sources[i], kind)),
        None => 0,
    }
}

/// The entry a live source has is the one the limiter held for its address.
proof fn lemma_live_entry(pre: Seq<SourceState>, now: u64, stale: u64, source: IpAddress, i: int)
    requires
        source_keys(pre).no_duplicates(),
        0 <= i < live_sources(pre, now, stale).len(),
        live_sources(pre, now, stale)[i].source == source,
    ensures
        source_keys(pre).index_of_first(source) matches Some(j) && pre[j] == live_sources(
            pre,
            now,
            stale,
        )[i],
{
    let live = live_sources(pre, now, stale);
    lemma_live_sources_subset(pre, now, stale);
    let j = choose|j: int| 0 <= j < pre.len() && live[i] == pre[j];
    assert(source_keys(pre)[j] == source);
    source_keys(pre).index_of_first_ensures(source);
    let k = source_keys(pre).index_of_first(source)->0;
    assert(source_keys(pre)[k] == source);
    assert(k == j);
}

/// Within a window, admitted attempts stay within the limits of their kind:
/// an admitted attempt adds one to the overall counter of its kind, which
/// stays at or under the overall limit, and leaves the source's counter at
/// or under the per-source limit; a refused attempt adds to neither.  (With
/// a limit of zero one attempt is still admitted, so both limits are taken
/// to be at least one.)
pub proof fn lemma_admitted_attempts_within_limits(
    pre: LimiterState,
    begin: Policy,
    claim: Policy,
    max_sources: nat,
    kind: PairingAttemptKind,
    source: IpAddress,
    now: u64,
)
    requires
        state_wf(pre, begin, claim, max_sources),
        policy_for(kind, begin, claim).per_source >= 1,
        policy_for(kind, begin, claim).global >= 1,
    ensures
        ({
            let (post, decision) = check_outcome(pre, begin, claim, max_sources, kind, source, now);
            let p = policy_for(kind, begin, claim);
            &&& decision is Allowed ==> attempts_of(global_counter(post, kind)) == attempts_of(
                reset_counter(global_counter(pre, kind), now, p.window_nanos),
            ) + 1 && attempts_of(global_counter(post, kind)) <= p.global && 1 <= source_attempts(
                post,
                source,
                kind,
            ) <= p.per_source
            &&& decision is Limited ==> attempts_of(global_counter(post, kind)) <= attempts_of(
                global_counter(pre, kind),
            ) && source_attempts(post, source, kind) <= source_attempts(pre, source, kind)
        }),
{
    let policy = policy_for(kind, begin, claim);
    let stale = stale_after(begin, claim);
    let live = live_sources(pre.sources, now, stale);
    let keys = source_keys(live);
    let position = keys.index_of_first(source);
    keys.index_of_first_ensures(source);
    let (post, decision) = check_outcome(pre, begin, claim, max_sources, kind, source, now);
    let g = reset_counter(global_counter(pre, kind), now, policy.window_nanos);
    if position is None && live.len() >= max_sources {
        assert(post.sources == live);
        assert(source_attempts(post, source, kind) == 0);
    } else if retry_after(g, policy.global, now, policy.window_nanos) is Some {
        assert(post.sources == live);
        if let Some(i) = position {
            lemma_live_entry(pre.sources, now, stale, source, i);
        }
    } else {
        let found = match position {
            Some(i) => live[i],
            None => SourceState { source, last_seen: now, begin: None, claim: None },
        };
        let seen = SourceState { last_seen: now, ..found };
        assert(seen.source == source);
        let c = reset_counter(source_counter(seen, kind), now, policy.window_nanos);
        let limited = retry_after(c, policy.per_source, now, policy.window_nanos) is Some;
        let entry = if limited {
            with_source_counter(seen, kind, c)
        } else {
            with_source_counter(seen, kind, incremented(c, now))
        };
        let sources = put_source(live, position, entry);
        assert(post.sources == sources);
        assert(source_counter(entry, kind) == if limited {
            c
        } else {
            incremented(c, now)
        });
        match position {
            Some(i) => {
                assert(source_keys(sources) =~= keys);
                assert(sources[i] == entry);
                lemma_live_entry(pre.sources, now, stale, source, i);
            },
            None => {
                assert(source_keys(sources) =~= keys.push(source));
                source_keys(sources).index_of_first_ensures(source);
                assert(source_keys(sources)[live.len() as int] == source);
                assert(sources[live.len() as int] == entry);
            },
        }
        assert(source_attempts(post, source, kind) == attempts_of(source_counter(entry, kind)));
    }
}

/// A source that is tracked but not among the live sources was dropped, so
/// fewer sources are live than tracked.
proof fn lemma_live_shorter_without(s: Seq<SourceState>, now: u64, stale: u64, x: IpAddress)
    requires
        source_keys(s).contains(x),
        !source_keys(live_sources(s, now, stale)).contains(x),
    ensures
        live_sources(s, now, stale).len() < s.len(),
    decreases s.len(),
{
    let d = s.drop_last();
    let rest = live_sources(d, now, stale);
    let out = live_sources(s, now, stale);
    lemma_live_sources_subset(d, now, stale);
    if s.last().source == x {
        assert(out.len() <= rest.len() + 1);
        if elapsed(now, s.last().last_seen) < stale {
            assert(out == rest.push(s.last()));
            assert(source_keys(out)[rest.len() as int] == x);
        }
    } else {
        let j = choose|j: int| 0 <= j < source_keys(s).len() && source_keys(s)[j] == x;
        assert(j < d.len());
        assert(source_keys(d)[j] == x);
        assert(!source_keys(rest).contains(x)) by {
            if source_keys(rest).contains(x) {
                let k = choose|k: int| 0 <= k < source_keys(rest).len() && source_keys(rest)[k] == x;
                if elapsed(now, s.last().last_seen) < stale {
                    assert(out == rest.push(s.last()));
                    assert(source_keys(out)[k] == x);
                } else {
                    assert(out == rest);
                    assert(source_keys(out)[k] == x);
                }
            }
        }
        lemma_live_shorter_without(d, now, stale, x);
    }
}

/// An attempt is admitted whenever it is within every limit: the source is
/// already tracked or the table has room, the source has made fewer
/// attempts of the kind than the per-source limit, and fewer attempts of the
/// kind were made overall than the overall limit.  So an attempt is refused
/// on the overall counter only once that counter has reached the overall
/// limit (the per-source limit plays no part in it).
pub proof fn lemma_attempt_within_limits_is_allowed(
    pre: LimiterState,
    begin: Policy,
    claim: Policy,
    max_sources: nat,
    kind: PairingAttemptKind,
    source: IpAddress,
    now: u64,
)
    requires
        state_wf(pre, begin, claim, max_sources),
        source_keys(pre.sources).contains(source) || pre.sources.len() < max_sources,
        source_attempts(pre, source, kind) < policy_for(kind, begin, claim).per_source,
        attempts_of(global_counter(pre, kind)) < policy_for(kind, begin, claim).global,
    ensures
        check_outcome(pre, begin, claim, max_sources, kind, source, now).1
            == RateLimitDecision::Allowed,
{
    let policy = policy_for(kind, begin, claim);
    let stale = stale_after(begin, claim);
    let live = live_sources(pre.sources, now, stale);
    let keys = source_keys(live);
    let position = keys.index_of_first(source);
    keys.index_of_first_ensures(source);
    lemma_live_sources_subset(pre.sources, now, stale);
    if position is None {
        if source_keys(pre.sources).contains(source) {
            lemma_live_shorter_without(pre.sources, now, stale, source);
        }
        assert(live.len() < max_sources);
    }
    let g = reset_counter(global_counter(pre, kind), now, policy.window_nanos);
    assert(attempts_of(g) <= attempts_of(global_counter(pre, kind)));
    assert(retry_after(g, policy.global, now, policy.window_nanos) is None);
    let found = match position {
        Some(i) => live[i],
        None => SourceState { source, last_seen: now, begin: None, claim: None },
    };
    let seen = SourceState { last_seen: now, ..found };
    let c = reset_counter(source_counter(seen, kind), now, policy.window_nanos);
    if let Some(i) = position {
        lemma_live_entry(pre.sources, now, stale, source, i);
        assert(attempts_of(source_counter(found, kind)) == source_attempts(pre, source, kind));
    }
    assert(attempts_of(c) < policy.per_source);
    assert(retry_after(c, policy.per_source, now, policy.window_nanos) is None);
}

// ---------------------------------------------------------------------------
// Helpers
// ---------------------------------------------------------------------------

fn elapsed_exec(now: u64, since: u64) -> (r: u64)
    ensures
        r == elapsed(now, since),
{
    if now >= since {
        now - since
    } else {
        0
    }
}

/// Whole seconds in a duration, rounded up, and at least one.
pub fn duration_seconds_ceil(nanos: u64) -> (r: u64)
    ensures
        r == ceil_seconds(nanos as int),
{
    let secs = nanos / 1_000_000_000;
    let rounded = if nanos % 1_000_000_000 > 0 {
        secs + 1
    } else {
        secs
    };
    if rounded < 1 {
        1
    } else {
        rounded
    }
}

fn reset_expired(counter: Option<WindowCounter>, now: u64, window: u64) -> (r: Option<
    WindowCounter,
>)
    ensures
        r == reset_counter(counter, now, window),
{
    match counter {
        Some(k) => if elapsed_exec(now, k.started_at) >= window {
            None
        } else {
            counter
        },
        None => None,
    }
}

fn limited_retry(counter: Option<WindowCounter>, limit: u32, now: u64, window: u64) -> (r: Option<
    u64,
>)
    ensures
        r == retry_after(counter, limit, now, window),
{
    match counter {
        Some(k) => if k.attempts >= limit {
            let spent = elapsed_exec(now, k.started_at);
            let left = if window > spent {
                window - spent
            } else {
                0
            };
            Some(duration_seconds_ceil(left))
        } else {
            None
        },
        None => None,
    }
}

fn increment(counter: Option<WindowCounter>, now: u64) -> (r: Option<WindowCounter>)
    ensures
        r == incremented(counter, now),
{
    match counter {
        Some(k) => Some(WindowCounter { started_at: k.started_at, attempts: k.attempts.saturating_add(1) }),
        None => Some(WindowCounter { started_at: now, attempts: 1 }),
    }
}

fn retain_live(sources: &Vec<SourceState>, now: u64, stale: u64) -> (r: Vec<SourceState>)
    ensures
        r@ == live_sources(sources@, now, stale),
{
    let mut live: Vec<SourceState> = Vec::new();
    let mut i: usize = 0;
    while i < sources.len()
        invariant
            i <= sources.len(),
            live@ == live_sources(sources@.take(i as int), now, stale),
        decreases sources.len() - i,
    {
        let entry = sources[i];
        assert(sources@.take(i + 1).drop_last() == sources@.take(i as int));
        if elapsed_exec(now, entry.last_seen) < stale {
            live.push(entry);
        }
        i += 1;
    }
    assert(sources@.take(sources.len() as int) == sources@);
    live
}

fn find_source(sources: &Vec<SourceState>, source: IpAddress) -> (r: Option<usize>)
    ensures
        match source_keys(sources@).index_of_first(source) {
            Some(i) => 0 <= i < sources.len() && r == Some(i as usize),
            None => r is None,
        },
{
    let mut i: usize = 0;
    while i < sources.len()
        invariant
            i <= sources.len(),
            forall|j: int| 0 <= j < i ==> source_keys(sources@)[j] != source,
        decreases sources.len() - i,
    {
        if sources[i].source == source {
            proof {
                crate::text::lemma_first_index(source_keys(sources@), source, i as int);
            }
            return Some(i);
        }
        i += 1;
    }
    proof {
        crate::text::lemma_no_index(source_keys(sources@), source);
    }
    None
}

// ---------------------------------------------------------------------------
// Invariant preservation
// ---------------------------------------------------------------------------

proof fn lemma_live_sources_subset(s: Seq<SourceState>, now: u64, stale: u64)
    ensures
        live_sources(s, now, stale).len() <= s.len(),
        forall|i: int|
            0 <= i < live_sources(s, now, stale).len() ==> exists|j: int|
                0 <= j < s.len() && #[trigger] live_sources(s, now, stale)[i] == s[j],
    decreases s.len(),
{
    if s.len() > 0 {
        let rest = live_sources(s.drop_last(), now, stale);
        lemma_live_sources_subset(s.drop_last(), now, stale);
        let out = live_sources(s, now, stale);
        assert forall|i: int| 0 <= i < out.len() implies exists|j: int|
            0 <= j < s.len() && #[trigger] out[i] == s[j] by {
            if i < rest.len() {
                assert(out[i] == rest[i]);
                let j = choose|j: int| 0 <= j < s.drop_last().len() && rest[i] == s.drop_last()[j];
                assert(s[j] == s.drop_last()[j]);
            } else {
                assert(out[i] == s[s.len() - 1]);
            }
        }
    }
}

proof fn lemma_live_sources_unique(s: Seq<SourceState>, now: u64, stale: u64)
    requires
        source_keys(s).no_duplicates(),
    ensures
        source_keys(live_sources(s, now, stale)).no_duplicates(),
    decreases s.len(),
{
    if s.len() > 0 {
        let d = s.drop_last();
        assert(source_keys(d) == source_keys(s).drop_last());
        assert(source_keys(d).no_duplicates()) by {
            assert forall|a: int, b: int|
                0 <= a < source_keys(d).len() && 0 <= b < source_keys(d).len() && a != b implies source_keys(
                d,
            )[a] != source_keys(d)[b] by {
                assert(source_keys(d)[a] == source_keys(s)[a]);
                assert(source_keys(d)[b] == source_keys(s)[b]);
            }
        }
        lemma_live_sources_unique(d, now, stale);
        lemma_live_sources_subset(d, now, stale);
        let rest = live_sources(d, now, stale);
        let out = live_sources(s, now, stale);
        if out != rest {
            assert forall|a: int, b: int|
                0 <= a < source_keys(out).len() && 0 <= b < source_keys(out).len() && a != b implies source_keys(
                out,
            )[a] != source_keys(out)[b] by {
                if a < rest.len() && b < rest.len() {
                    assert(source_keys(out)[a] == source_keys(rest)[a]);
                    assert(source_keys(out)[b] == source_keys(rest)[b]);
                } else if a < rest.len() {
                    let j = choose|j: int| 0 <= j < d.len() && rest[a] == d[j];
                    assert(source_keys(s)[j] == d[j].source);
                    assert(source_keys(s)[s.len() - 1] == s.last().source);
                } else {
                    let j = choose|j: int| 0 <= j < d.len() && rest[b] == d[j];
                    assert(source_keys(s)[j] == d[j].source);
                    assert(source_keys(s)[s.len() - 1] == s.last().source);
                }
            }
        }
    }
}

proof fn lemma_live_sources_wf(
    s: Seq<SourceState>,
    now: u64,
    stale: u64,
    begin: Policy,
    claim: Policy,
)
    requires
        source_keys(s).no_duplicates(),
        forall|i: int|
            0 <= i < s.len() ==> counter_within(#[trigger] s[i].begin, begin.per_source)
                && counter_within(s[i].claim, claim.per_source),
    ensures
        source_keys(live_sources(s, now, stale)).no_duplicates(),
        live_sources(s, now, stale).len() <= s.len(),
        forall|i: int|
            0 <= i < live_sources(s, now, stale).len() ==> counter_within(
                #[trigger] live_sources(s, now, stale)[i].begin,
                begin.per_source,
            ) && counter_within(live_sources(s, now, stale)[i].claim, claim.per_source),
{
    lemma_live_sources_unique(s, now, stale);
    lemma_live_sources_subset(s, now, stale);
    let out = live_sources(s, now, stale);
    assert forall|i: int| 0 <= i < out.len() implies counter_within(
        #[trigger] out[i].begin,
        begin.per_source,
    ) && counter_within(out[i].claim, claim.per_source) by {
        let j = choose|j: int| 0 <= j < s.len() && out[i] == s[j];
        assert(counter_within(s[j].begin, begin.per_source));
    }
}

proof fn lemma_put_source_wf(
    live: Seq<SourceState>,
    position: Option<usize>,
    entry: SourceState,
    source: IpAddress,
    max_sources: nat,
)
    requires
        source_keys(live).no_duplicates(),
        entry.source == source,
        live.len() <= max_sources,
        max_sources <= usize::MAX,
        match source_keys(live).index_of_first(source) {
            Some(i) => 0 <= i < live.len() && position == Some(i as usize),
            None => position is None,
        },
        position is None ==> live.len() < max_sources,
    ensures
        source_keys(
            put_source(
                live,
                match position {
                    Some(i) => Some(i as int),
                    None => None,
                },
                entry,
            ),
        ).no_duplicates(),
        put_source(
            live,
            match position {
                Some(i) => Some(i as int),
                None => None,
            },
            entry,
        ).len() <= max_sources,
{
    source_keys(live).index_of_first_ensures(source);
    let p = match position {
        Some(i) => Some(i as int),
        None => None,
    };
    let out = put_source(live, p, entry);
    match position {
        Some(i) => {
            let k = source_keys(live).index_of_first(source)->0;
            assert(k == i as int);
            assert(source_keys(live)[k] == source);
            assert(out[k].source == source);
            assert(source_keys(out) =~= source_keys(live));
        },
        None => {
            assert(source_keys(out) =~= source_keys(live).push(source));
            assert forall|a: int, b: int|
                0 <= a < source_keys(out).len() && 0 <= b < source_keys(out).len() && a
                    != b implies source_keys(out)[a] != source_keys(out)[b] by {
                if a < live.len() && b < live.len() {
                    assert(source_keys(out)[a] == source_keys(live)[a]);
                    assert(source_keys(out)[b] == source_keys(live)[b]);
                } else if a < live.len() {
                    assert(source_keys(out)[a] == source_keys(live)[a]);
                } else {
                    assert(source_keys(out)[b] == source_keys(live)[b]);
                }
            }
        },
    }
}

} // verus!
