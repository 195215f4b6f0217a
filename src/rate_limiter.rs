//! Quota policies: a token bucket with lazy refill, a sliding window, and
//! named tiers of buckets assigned to clients.
//!
//! Bucket arithmetic is exact. A bucket refills `refill_tokens` tokens every
//! `refill_period_ms` milliseconds, continuously; its content is kept in units
//! of `1 / refill_period_ms` token, so that one millisecond adds exactly
//! `refill_tokens` units.
use vstd::prelude::*;
use std::collections::VecDeque;

use crate::clock::{instant_now, millis_since};
use crate::text::same_text;

verus! {

/// Why a quota request was refused.
#[derive(Debug, Clone, Copy, PartialEq, Eq, Structural)]
pub enum QuotaError {
    /// The request can never be met (more tokens than the capacity, unknown tier).
    BadRequest,
    /// Not enough quota now; when known, the milliseconds until there will be.
    CapacityUnavailable { retry_after_ms: Option<u64> },
}

/// The state of a token bucket, in units of `1 / period` token.
pub struct BucketView {
    pub capacity: nat,
    pub refill: nat,
    pub period: nat,
    pub stored: nat,
    pub last: nat,
}

/// The bucket after lazily refilling it at time `now`, capped at capacity.
pub open spec fn refilled(b: BucketView, now: nat) -> BucketView {
    if now > b.last {
        let full = b.capacity * b.period;
        let grown = b.stored + (now - b.last) * b.refill;
        BucketView {
            capacity: b.capacity,
            refill: b.refill,
            period: b.period,
            stored: if grown > full { full } else { grown as nat },
            last: now,
        }
    } else {
        b
    }
}

/// Whether `k` tokens can be taken at time `now`.
pub open spec fn can_take(b: BucketView, k: nat, now: nat) -> bool {
    k <= b.capacity && refilled(b, now).stored >= k * b.period
}

/// The bucket after a request for `k` tokens at time `now`.
pub open spec fn after_take(b: BucketView, k: nat, now: nat) -> BucketView {
    if k > b.capacity {
        b
    } else if can_take(b, k, now) {
        let r = refilled(b, now);
        BucketView {
            capacity: r.capacity,
            refill: r.refill,
            period: r.period,
            stored: (r.stored - k * r.period) as nat,
            last: r.last,
        }
    } else {
        refilled(b, now)
    }
}

/// Milliseconds until `k` tokens will be there, counted from `now`; none when
/// the bucket never refills.
pub open spec fn wait_for(b: BucketView, k: nat, now: nat) -> Option<u64> {
    let r = refilled(b, now);
    if b.refill == 0 {
        None
    } else {
        let short = k * b.period - r.stored;
        let ms = (short + b.refill - 1) / (b.refill as int);
        Some(if ms > u64::MAX { u64::MAX } else { ms as u64 })
    }
}

/// What a request for `tokens` tokens at time `now` does to a bucket: it
/// becomes `after` and the reply is `r`.
pub open spec fn take_outcome(
    before: BucketView,
    tokens: nat,
    now: nat,
    after: BucketView,
    r: Result<(), QuotaError>,
) -> bool {
    &&& after == after_take(before, tokens, now)
    &&& (tokens > before.capacity ==> r == Err::<(), QuotaError>(QuotaError::BadRequest))
    &&& (can_take(before, tokens, now) ==> r is Ok)
    &&& (tokens <= before.capacity && !can_take(before, tokens, now) ==> r == Err::<(), QuotaError>(
        QuotaError::CapacityUnavailable { retry_after_ms: wait_for(before, tokens, now) },
    ))
}

/// A token bucket.
pub struct RateLimiter {
    capacity: u32,
    refill_tokens: u32,
    refill_period_ms: u64,
    stored: u128,
    last_refill: u64,
    /// The monotonic clock reading that times are counted from.
    epoch: std::time::Instant,
}

impl View for RateLimiter {
    type V = BucketView;

    closed spec fn view(&self) -> BucketView {
        BucketView {
            capacity: self.capacity as nat,
            refill: self.refill_tokens as nat,
            period: self.refill_period_ms as nat,
            stored: self.stored as nat,
            last: self.last_refill as nat,
        }
    }
}

impl RateLimiter {
    /// The bucket's own invariant: a positive period and content within capacity.
    pub closed spec fn wf(&self) -> bool {
        &&& self.refill_period_ms > 0
        &&& self.stored <= self.capacity as nat * self.refill_period_ms as nat
    }

    /// A full bucket of `capacity` tokens that regains `refill_tokens` tokens
    /// every `refill_period_ms` milliseconds.
    pub fn new(capacity: u32, refill_tokens: u32, refill_period_ms: u64) -> (r: Self)
        requires
            refill_period_ms > 0,
        ensures
            r.wf(),
            r@.capacity == capacity,
            r@.refill == refill_tokens,
            r@.period == refill_period_ms,
            r@.stored == capacity * refill_period_ms,
            r@.last == 0,
    {
        proof {
            lemma_product_bound(capacity as nat, refill_period_ms as nat);
        }
        RateLimiter {
            capacity,
            refill_tokens,
            refill_period_ms,
            stored: capacity as u128 * refill_period_ms as u128,
            last_refill: 0,
            epoch: instant_now(),
        }
    }

    fn refill(&mut self, now: u64)
        requires
            old(self).wf(),
        ensures
            final(self).wf(),
            final(self)@ == refilled(old(self)@, now as nat),
    {
        if now > self.last_refill {
            let dt = (now - self.last_refill) as u128;
            proof {
                lemma_product_bound(dt as nat, self.refill_tokens as nat);
                lemma_product_bound(self.capacity as nat, self.refill_period_ms as nat);
            }
            let added = dt * self.refill_tokens as u128;
            let full = self.capacity as u128 * self.refill_period_ms as u128;
            if added >= full - self.stored {
                self.stored = full;
            } else {
                self.stored = self.stored + added;
            }
            self.last_refill = now;
        }
    }

    /// Takes `tokens` tokens at time `now` if the bucket holds them.
    pub fn try_acquire_at(&mut self, tokens: u32, now: u64) -> (r: Result<(), QuotaError>)
        requires
            old(self).wf(),
        ensures
            final(self).wf(),
            take_outcome(old(self)@, tokens as nat, now as nat, final(self)@, r),
    {
        if tokens > self.capacity {
            return Err(QuotaError::BadRequest);
        }
        self.refill(now);
        proof {
            lemma_product_bound(tokens as nat, self.refill_period_ms as nat);
            lemma_product_mono(tokens as nat, self.capacity as nat, self.refill_period_ms as nat);
        }
        let need = tokens as u128 * self.refill_period_ms as u128;
        if self.stored >= need {
            self.stored = self.stored - need;
            Ok(())
        } else {
            let wait = if self.refill_tokens == 0 {
                None
            } else {
                let short = need - self.stored;
                let ms = (short + self.refill_tokens as u128 - 1) / self.refill_tokens as u128;
                Some(
                    if ms > u64::MAX as u128 {
                        u64::MAX
                    } else {
                        ms as u64
                    },
                )
            };
            Err(QuotaError::CapacityUnavailable { retry_after_ms: wait })
        }
    }

    /// Takes `tokens` tokens now if the bucket holds them.
    pub fn try_acquire(&mut self, tokens: u32) -> (r: Result<(), QuotaError>)
        requires
            old(self).wf(),
        ensures
            final(self).wf(),
            exists|now: u64| take_outcome(old(self)@, tokens as nat, now as nat, final(self)@, r),
    {
        let now = millis_since(&self.epoch);
        let r = self.try_acquire_at(tokens, now);
        assert(take_outcome(old(self)@, tokens as nat, now as nat, self@, r));
        r
    }

    /// Whole tokens in the bucket at time `now`, after refilling it.
    pub fn available_tokens_at(&mut self, now: u64) -> (r: u32)
        requires
            old(self).wf(),
        ensures
            final(self).wf(),
            final(self)@ == refilled(old(self)@, now as nat),
            r == refilled(old(self)@, now as nat).stored / old(self)@.period,
    {
        self.refill(now);
        proof {
            lemma_div_bound(self.stored as nat, self.capacity as nat, self.refill_period_ms as nat);
        }
        (self.stored / self.refill_period_ms as u128) as u32
    }

    /// Whole tokens in the bucket now.
    pub fn available_tokens(&mut self) -> (r: u32)
        requires
            old(self).wf(),
        ensures
            final(self).wf(),
            exists|now: u64|
                final(self)@ == refilled(old(self)@, now as nat) && r == refilled(
                    old(self)@,
                    now as nat,
                ).stored / old(self)@.period,
    {
        let now = millis_since(&self.epoch);
        let r = self.available_tokens_at(now);
        assert(self@ == refilled(old(self)@, now as nat));
        r
    }

    /// The most tokens the bucket holds.
    pub fn capacity(&self) -> (r: u32)
        ensures
            r == self@.capacity,
    {
        self.capacity
    }
}

proof fn lemma_product_bound(a: nat, b: nat)
    requires
        a <= u64::MAX,
        b <= u64::MAX,
    ensures
        a * b <= u64::MAX * u64::MAX,
        a * b < 0x1_0000_0000_0000_0000_0000_0000_0000_0000,
{
    assert(a * b <= u64::MAX * u64::MAX) by (nonlinear_arith)
        requires
            a <= u64::MAX,
            b <= u64::MAX,
    ;
}

proof fn lemma_product_mono(a: nat, b: nat, c: nat)
    requires
        a <= b,
    ensures
        a * c <= b * c,
{
    assert(a * c <= b * c) by (nonlinear_arith)
        requires
            a <= b,
    ;
}

proof fn lemma_div_bound(s: nat, cap: nat, p: nat)
    requires
        p > 0,
        s <= cap * p,
    ensures
        s / p <= cap,
{
    assert(s / p <= cap) by (nonlinear_arith)
        requires
            p > 0,
            s <= cap * p,
    ;
}

/// How long ago `t` was at time `now` (zero for a time not yet reached).
pub open spec fn elapsed(now: u64, t: u64) -> nat {
    if now > t {
        (now - t) as nat
    } else {
        0
    }
}

/// The recorded request times that are still inside the window at `now`:
/// those at the front older than the window are dropped.
pub open spec fn evict(q: Seq<u64>, now: u64, window: u64) -> Seq<u64>
    decreases q.len(),
{
    if q.len() > 0 && elapsed(now, q[0]) > window {
        evict(q.drop_first(), now, window)
    } else {
        q
    }
}

/// What a request at time `now` does to a window holding `before` with room
/// for `max`: it then holds `after` and the reply is `r`.
pub open spec fn window_outcome(
    before: Seq<u64>,
    max: nat,
    window: u64,
    now: u64,
    after: Seq<u64>,
    r: Result<(), QuotaError>,
) -> bool {
    let kept = evict(before, now, window);
    if kept.len() < max {
        r is Ok && after == kept.push(stamp(kept, now))
    } else {
        r == Err::<(), QuotaError>(QuotaError::CapacityUnavailable { retry_after_ms: None })
            && after == kept
    }
}

/// The time a request at `now` is recorded at: `now`, or the newest recorded
/// time if the clock reads earlier, so that the record stays in order.
pub open spec fn stamp(kept: Seq<u64>, now: u64) -> u64 {
    if kept.len() > 0 && kept.last() > now {
        kept.last()
    } else {
        now
    }
}

/// Oldest first.
pub open spec fn in_order(q: Seq<u64>) -> bool {
    forall|i: int, j: int| 0 <= i <= j < q.len() ==> q[i] <= q[j]
}

proof fn lemma_evict_in_order(q: Seq<u64>, now: u64, window: u64)
    requires
        in_order(q),
    ensures
        in_order(evict(q, now, window)),
        evict(q, now, window).len() <= q.len(),
    decreases q.len(),
{
    if q.len() > 0 && elapsed(now, q[0]) > window {
        let d = q.drop_first();
        assert forall|i: int, j: int| 0 <= i <= j < d.len() implies d[i] <= d[j] by {
            assert(d[i] == q[i + 1] && d[j] == q[j + 1]);
        }
        lemma_evict_in_order(d, now, window);
    }
}

/// A limiter admitting at most `max_requests` requests per window.
pub struct SlidingWindowLimiter {
    max_requests: u32,
    window_ms: u64,
    requests: VecDeque<u64>,
    /// The monotonic clock reading that times are counted from.
    epoch: std::time::Instant,
}

impl SlidingWindowLimiter {
    pub closed spec fn max(&self) -> nat {
        self.max_requests as nat
    }

    pub closed spec fn window(&self) -> u64 {
        self.window_ms
    }

    /// Times of the requests recorded, oldest first.
    pub closed spec fn times(&self) -> Seq<u64> {
        self.requests@
    }

    /// The recorded times are in order, and no more than the limit.
    pub closed spec fn wf(&self) -> bool {
        in_order(self.requests@) && self.requests@.len() <= self.max_requests
    }

    /// An empty window admitting `max_requests` requests per `window_ms` milliseconds.
    pub fn new(max_requests: u32, window_ms: u64) -> (r: Self)
        ensures
            r.wf(),
            r.max() == max_requests,
            r.window() == window_ms,
            r.times().len() == 0,
    {
        SlidingWindowLimiter { max_requests, window_ms, requests: VecDeque::new(), epoch: instant_now() }
    }

    fn evict_at(&mut self, now: u64)
        requires
            old(self).wf(),
        ensures
            final(self).wf(),
            final(self).times() == evict(old(self).times(), now, old(self).window()),
            final(self).max() == old(self).max(),
            final(self).window() == old(self).window(),
    {
        let mut going = true;
        while going
            invariant
                evict(self.requests@, now, self.window_ms) == evict(
                    old(self).requests@,
                    now,
                    self.window_ms,
                ),
                !going ==> evict(self.requests@, now, self.window_ms) == self.requests@,
                self.max_requests == old(self).max_requests,
                self.window_ms == old(self).window_ms,
            decreases self.requests@.len() + if going {
                1int
            } else {
                0int
            },
        {
            if self.requests.len() > 0 && (now > self.requests[0] && now - self.requests[0]
                > self.window_ms) {
                let ghost q = self.requests@;
                self.requests.pop_front();
                assert(self.requests@ =~= q.drop_first());
            } else {
                going = false;
            }
        }
        proof {
            lemma_evict_in_order(old(self).requests@, now, self.window_ms);
        }
    }

    /// Records a request at time `now` if the window has room for it.
    pub fn try_acquire_at(&mut self, now: u64) -> (r: Result<(), QuotaError>)
        requires
            old(self).wf(),
        ensures
            final(self).wf(),
            final(self).max() == old(self).max(),
            final(self).window() == old(self).window(),
            window_outcome(old(self).times(), old(self).max(), old(self).window(), now, final(self).times(), r),
    {
        self.evict_at(now);
        if self.requests.len() < self.max_requests as usize {
            let n = self.requests.len();
            let t = if n > 0 && self.requests[n - 1] > now {
                self.requests[n - 1]
            } else {
                now
            };
            let ghost kept = self.requests@;
            self.requests.push_back(t);
            assert(self.requests@ =~= kept.push(t));
            assert(kept.len() > 0 ==> kept.last() == kept[kept.len() - 1]);
            Ok(())
        } else {
            Err(QuotaError::CapacityUnavailable { retry_after_ms: None })
        }
    }

    /// Records a request now if the window has room for it.
    pub fn try_acquire(&mut self) -> (r: Result<(), QuotaError>)
        requires
            old(self).wf(),
        ensures
            final(self).wf(),
            final(self).max() == old(self).max(),
            final(self).window() == old(self).window(),
            exists|now: u64|
                window_outcome(old(self).times(), old(self).max(), old(self).window(), now, final(self).times(), r),
    {
        let now = millis_since(&self.epoch);
        let r = self.try_acquire_at(now);
        assert(window_outcome(old(self).times(), old(self).max(), old(self).window(), now, self.times(), r));
        r
    }

    /// Number of requests inside the window now.
    pub fn current_count(&mut self) -> (r: usize)
        requires
            old(self).wf(),
        ensures
            final(self).wf(),
            final(self).max() == old(self).max(),
            final(self).window() == old(self).window(),
            r == final(self).times().len(),
            exists|now: u64| final(self).times() == evict(old(self).times(), now, old(self).window()),
    {
        let now = millis_since(&self.epoch);
        let r = self.current_count_at(now);
        assert(self.times() == evict(old(self).times(), now, old(self).window()));
        r
    }

    /// When the window is full, the milliseconds until its oldest request
    /// leaves it; none when there is room.
    pub fn time_until_available(&self) -> (r: Option<u64>)
        ensures
            self.times().len() < self.max() ==> r is None,
            r matches Some(ms) ==> ms <= self.window(),
    {
        let now = millis_since(&self.epoch);
        self.time_until_available_at(now)
    }

    /// Number of requests inside the window at time `now`.
    pub fn current_count_at(&mut self, now: u64) -> (r: usize)
        requires
            old(self).wf(),
        ensures
            final(self).wf(),
            final(self).times() == evict(old(self).times(), now, old(self).window()),
            final(self).max() == old(self).max(),
            final(self).window() == old(self).window(),
            r == final(self).times().len(),
    {
        self.evict_at(now);
        self.requests.len()
    }

    /// When the window is full, the milliseconds at `now` until its oldest
    /// request leaves it (0 while it is exactly a window old); none when
    /// there is room or it has already left.
    pub fn time_until_available_at(&self, now: u64) -> (r: Option<u64>)
        ensures
            self.times().len() < self.max() ==> r is None,
            self.times().len() >= self.max() && self.times().len() > 0 && elapsed(
                now,
                self.times()[0],
            ) <= self.window() ==> r == Some((self.window() - elapsed(now, self.times()[0])) as u64),
            self.times().len() >= self.max() && (self.times().len() == 0 || elapsed(
                now,
                self.times()[0],
            ) > self.window()) ==> r is None,
    {
        if self.requests.len() < self.max_requests as usize {
            return None;
        }
        if self.requests.len() == 0 {
            return None;
        }
        let oldest = self.requests[0];
        let gone = if now > oldest {
            now - oldest
        } else {
            0
        };
        if gone <= self.window_ms {
            Some(self.window_ms - gone)
        } else {
            None
        }
    }
}

/// A bucket as `RateLimiter::new` makes it.
pub open spec fn fresh_bucket(capacity: nat, refill: nat, period: nat) -> BucketView {
    BucketView { capacity, refill, period, stored: capacity * period, last: 0 }
}

/// The names of named items.
pub open spec fn names_of<T>(items: Seq<(String, T)>) -> Seq<Seq<char>> {
    items.map_values(|p: (String, T)| p.0@)
}

/// Whether `names` holds `n`.
pub open spec fn has_name(names: Seq<Seq<char>>, n: Seq<char>) -> bool {
    exists|i: int| 0 <= i < names.len() && names[i] == n
}

/// The place of `n` in `names`, when it is there.
pub open spec fn index_of(names: Seq<Seq<char>>, n: Seq<char>) -> int {
    choose|i: int| 0 <= i < names.len() && names[i] == n
}

/// No name occurs twice.
pub open spec fn unique(names: Seq<Seq<char>>) -> bool {
    forall|i: int, j: int| 0 <= i < names.len() && 0 <= j < names.len() && names[i] == names[j] ==> i == j
}

pub(crate) proof fn lemma_index_of(names: Seq<Seq<char>>, i: int)
    requires
        unique(names),
        0 <= i < names.len(),
    ensures
        has_name(names, names[i]),
        index_of(names, names[i]) == i,
{
    let n = names[i];
    assert(has_name(names, n));
    let j = index_of(names, n);
    assert(names[j] == n);
}

pub(crate) fn find_name<T>(items: &Vec<(String, T)>, name: &str) -> (r: Option<usize>)
    ensures
        match r {
            Some(i) => i < items@.len() && items@[i as int].0@ == name@,
            None => !has_name(names_of(items@), name@),
        },
{
    let mut i: usize = 0;
    while i < items.len()
        invariant
            i <= items@.len(),
            forall|k: int| 0 <= k < i ==> items@[k].0@ != name@,
        decreases items@.len() - i,
    {
        if same_text(items[i].0.as_str(), name) {
            return Some(i);
        }
        i = i + 1;
    }
    let ghost names = names_of(items@);
    assert forall|k: int| 0 <= k < names.len() implies names[k] != name@ by {
        assert(names[k] == items@[k].0@);
    }
    None
}

/// What a request of `client` for `tokens` tokens at time `now` does: the
/// client's tier (its own or the default) must exist, and its bucket alone is
/// drawn from; assignments and tiers stay.
pub open spec fn tier_take_outcome(
    before: MultiTierRateLimiter,
    after: MultiTierRateLimiter,
    client: Seq<char>,
    tokens: nat,
    now: nat,
    r: Result<(), QuotaError>,
) -> bool {
    let t = before.tier_for(client);
    &&& after.tier_names() == before.tier_names()
    &&& after.clients() == before.clients()
    &&& after.default_tier() == before.default_tier()
    &&& forall|c: Seq<char>| after.tier_for(c) == before.tier_for(c)
    &&& !has_name(before.tier_names(), t) ==> r == Err::<(), QuotaError>(QuotaError::BadRequest)
        && after.buckets() == before.buckets()
    &&& has_name(before.tier_names(), t) ==> {
        let i = index_of(before.tier_names(), t);
        let b = before.buckets()[i];
        &&& after.buckets().len() == before.buckets().len()
        &&& forall|j: int| 0 <= j < before.buckets().len() && j != i ==> after.buckets()[j] == before.buckets()[j]
        &&& take_outcome(b, tokens, now, after.buckets()[i], r)
    }
}

/// Named token buckets; each client draws from the bucket of its tier, or
/// from the default tier's when it has none.
pub struct MultiTierRateLimiter {
    tiers: Vec<(String, RateLimiter)>,
    client_tiers: Vec<(String, String)>,
    default_tier: String,
    /// The monotonic clock reading that times are counted from.
    epoch: std::time::Instant,
}

impl MultiTierRateLimiter {
    pub closed spec fn tier_names(&self) -> Seq<Seq<char>> {
        names_of(self.tiers@)
    }

    pub closed spec fn buckets(&self) -> Seq<BucketView> {
        self.tiers@.map_values(|p: (String, RateLimiter)| p.1@)
    }

    pub closed spec fn clients(&self) -> Seq<Seq<char>> {
        names_of(self.client_tiers@)
    }

    pub closed spec fn default_tier(&self) -> Seq<char> {
        self.default_tier@
    }

    /// The tier assigned to `client`, or the default tier.
    pub closed spec fn tier_for(&self, client: Seq<char>) -> Seq<char> {
        if has_name(self.clients(), client) {
            self.client_tiers@[index_of(self.clients(), client)].1@
        } else {
            self.default_tier@
        }
    }

    pub closed spec fn wf(&self) -> bool {
        &&& unique(self.tier_names())
        &&& unique(self.clients())
        &&& forall|i: int| 0 <= i < self.tiers@.len() ==> (#[trigger] self.tiers@[i]).1.wf()
    }

    /// No tier and no assignment yet; unassigned clients use `default_tier`.
    pub fn new(default_tier: String) -> (r: Self)
        ensures
            r.wf(),
            r.tier_names().len() == 0,
            r.clients().len() == 0,
            r.default_tier() == default_tier@,
    {
        let r = MultiTierRateLimiter {
            tiers: Vec::new(),
            client_tiers: Vec::new(),
            default_tier,
            epoch: instant_now(),
        };
        assert(r.tier_names() =~= Seq::empty());
        assert(r.clients() =~= Seq::empty());
        r
    }

    /// Adds the tier `tier_name` with a full bucket, replacing a tier of that name.
    pub fn add_tier(&mut self, tier_name: String, capacity: u32, refill_tokens: u32, refill_period_ms: u64)
        requires
            old(self).wf(),
            refill_period_ms > 0,
        ensures
            final(self).wf(),
            final(self).clients() == old(self).clients(),
            final(self).default_tier() == old(self).default_tier(),
            forall|c: Seq<char>| final(self).tier_for(c) == old(self).tier_for(c),
            has_name(old(self).tier_names(), tier_name@) ==> {
                let i = index_of(old(self).tier_names(), tier_name@);
                &&& final(self).tier_names() == old(self).tier_names()
                &&& final(self).buckets() == old(self).buckets().update(
                    i,
                    fresh_bucket(capacity as nat, refill_tokens as nat, refill_period_ms as nat),
                )
            },
            !has_name(old(self).tier_names(), tier_name@) ==> {
                &&& final(self).tier_names() == old(self).tier_names().push(tier_name@)
                &&& final(self).buckets() == old(self).buckets().push(
                    fresh_bucket(capacity as nat, refill_tokens as nat, refill_period_ms as nat),
                )
            },
    {
        let bucket = RateLimiter::new(capacity, refill_tokens, refill_period_ms);
        let ghost old_tiers = self.tiers@;
        match find_name(&self.tiers, tier_name.as_str()) {
            Some(i) => {
                proof {
                    lemma_index_of(self.tier_names(), i as int);
                    assert(self.tier_names()[i as int] == tier_name@);
                }
                self.tiers.remove(i);
                self.tiers.insert(i, (tier_name, bucket));
                assert(self.tiers@ =~= old_tiers.update(i as int, self.tiers@[i as int]));
                assert(self.tier_names() =~= old(self).tier_names());
                assert(self.buckets() =~= old(self).buckets().update(i as int, bucket@));
            },
            None => {
                self.tiers.push((tier_name, bucket));
                assert(self.tier_names() =~= old(self).tier_names().push(self.tiers@.last().0@));
                assert(self.buckets() =~= old(self).buckets().push(bucket@));
            },
        }
        assert forall|k: int| 0 <= k < self.tiers@.len() implies (#[trigger] self.tiers@[k]).1.wf() by {
            if k < old_tiers.len() && self.tiers@[k] != old_tiers[k] {
                assert(self.tiers@[k].1 == bucket);
            } else if k >= old_tiers.len() {
                assert(self.tiers@[k].1 == bucket);
            }
        }
    }

    /// Assigns `client_id` to the tier `tier`, which must exist.
    pub fn assign_client_tier(&mut self, client_id: String, tier: String) -> (r: Result<(), QuotaError>)
        requires
            old(self).wf(),
        ensures
            final(self).wf(),
            final(self).tier_names() == old(self).tier_names(),
            final(self).buckets() == old(self).buckets(),
            final(self).default_tier() == old(self).default_tier(),
            !has_name(old(self).tier_names(), tier@) ==> r == Err::<(), QuotaError>(
                QuotaError::BadRequest,
            ) && forall|c: Seq<char>| final(self).tier_for(c) == old(self).tier_for(c),
            has_name(old(self).tier_names(), tier@) ==> r is Ok && forall|c: Seq<char>|
                final(self).tier_for(c) == if c == client_id@ {
                    tier@
                } else {
                    old(self).tier_for(c)
                },
    {
        match find_name(&self.tiers, tier.as_str()) {
            None => {
                return Err(QuotaError::BadRequest);
            },
            Some(i) => {
                assert(self.tier_names()[i as int] == tier@);
            },
        }
        let ghost old_clients = self.client_tiers@;
        let ghost cid = client_id@;
        let ghost tid = tier@;
        match find_name(&self.client_tiers, client_id.as_str()) {
            Some(i) => {
                proof {
                    lemma_index_of(self.clients(), i as int);
                }
                self.client_tiers.remove(i);
                self.client_tiers.insert(i, (client_id, tier));
                assert(self.clients() =~= old(self).clients());
                assert forall|c: Seq<char>| self.tier_for(c) == if c == cid {
                    tid
                } else {
                    old(self).tier_for(c)
                } by {
                    if has_name(self.clients(), c) {
                        let j = index_of(self.clients(), c);
                        lemma_index_of(self.clients(), j);
                    }
                }
            },
            None => {
                self.client_tiers.push((client_id, tier));
                assert(self.clients() =~= old(self).clients().push(cid));
                assert forall|a: int, b: int|
                    0 <= a < self.clients().len() && 0 <= b < self.clients().len()
                        && self.clients()[a] == self.clients()[b] implies a == b by {
                    let n = old_clients.len() as int;
                    if a < n && b == n {
                        assert(old(self).clients()[a] == cid);
                    } else if b < n && a == n {
                        assert(old(self).clients()[b] == cid);
                    }
                }
                assert forall|c: Seq<char>| self.tier_for(c) == if c == cid {
                    tid
                } else {
                    old(self).tier_for(c)
                } by {
                    let n = old_clients.len() as int;
                    if c == cid {
                        assert(self.clients()[n] == cid);
                        lemma_index_of(self.clients(), n);
                        assert(self.client_tiers@[n].1@ == tid);
                    } else if has_name(self.clients(), c) {
                        let j = index_of(self.clients(), c);
                        assert(j < n);
                        assert(old(self).clients()[j] == c);
                        lemma_index_of(old(self).clients(), j);
                        assert(self.client_tiers@[j] == old_clients[j]);
                    } else if has_name(old(self).clients(), c) {
                        let j = index_of(old(self).clients(), c);
                        assert(self.clients()[j] == c);
                    }
                }
            },
        }
        assert(self.tier_names() =~= old(self).tier_names());
        assert(self.buckets() =~= old(self).buckets());
        Ok(())
    }

    /// The tier `client_id` draws from.
    pub fn get_client_tier(&self, client_id: &str) -> (r: String)
        requires
            self.wf(),
        ensures
            r@ == self.tier_for(client_id@),
    {
        match find_name(&self.client_tiers, client_id) {
            Some(i) => {
                proof {
                    lemma_index_of(self.clients(), i as int);
                }
                self.client_tiers[i].1.clone()
            },
            None => self.default_tier.clone(),
        }
    }

    /// Takes `tokens` tokens at time `now` from the bucket of the client's tier.
    pub fn try_acquire_at(&mut self, client_id: &str, tokens: u32, now: u64) -> (r: Result<(), QuotaError>)
        requires
            old(self).wf(),
        ensures
            final(self).wf(),
            tier_take_outcome(*old(self), *final(self), client_id@, tokens as nat, now as nat, r),
    {
        let tier = self.get_client_tier(client_id);
        match find_name(&self.tiers, tier.as_str()) {
            None => Err(QuotaError::BadRequest),
            Some(i) => {
                proof {
                    lemma_index_of(self.tier_names(), i as int);
                }
                let ghost old_tiers = self.tiers@;
                let (name, mut bucket) = self.tiers.remove(i);
                assert(bucket == old_tiers[i as int].1);
                let r = bucket.try_acquire_at(tokens, now);
                self.tiers.insert(i, (name, bucket));
                assert(self.tiers@ =~= old_tiers.update(i as int, self.tiers@[i as int]));
                assert(self.tier_names() =~= old(self).tier_names());
                assert(self.buckets() =~= old(self).buckets().update(i as int, bucket@));
                assert forall|k: int| 0 <= k < self.tiers@.len() implies (#[trigger] self.tiers@[k]).1.wf() by {
                    if k != i {
                        assert(self.tiers@[k] == old_tiers[k]);
                    }
                }
                r
            },
        }
    }

    /// Takes `tokens` tokens now from the bucket of the client's tier.
    pub fn try_acquire(&mut self, client_id: &str, tokens: u32) -> (r: Result<(), QuotaError>)
        requires
            old(self).wf(),
        ensures
            final(self).wf(),
            exists|now: u64|
                tier_take_outcome(*old(self), *final(self), client_id@, tokens as nat, now as nat, r),
    {
        let now = millis_since(&self.epoch);
        let r = self.try_acquire_at(client_id, tokens, now);
        assert(tier_take_outcome(*old(self), *self, client_id@, tokens as nat, now as nat, r));
        r
    }
}

/// The buckets that a list of tier settings makes.
pub open spec fn fresh_buckets(settings: Seq<(String, (u32, u32, u64))>) -> Seq<BucketView> {
    settings.map_values(
        |p: (String, (u32, u32, u64))| fresh_bucket(p.1.0 as nat, p.1.1 as nat, p.1.2 as nat),
    )
}

/// Collects tier settings, then makes a `MultiTierRateLimiter` of them.
pub struct RateLimiterBuilder {
    limiters: Vec<(String, (u32, u32, u64))>,
    default_tier: String,
}

impl RateLimiterBuilder {
    /// The settings collected, one per tier name: capacity, refill tokens and refill period.
    pub closed spec fn settings(&self) -> Seq<(String, (u32, u32, u64))> {
        self.limiters@
    }

    pub closed spec fn default_tier(&self) -> Seq<char> {
        self.default_tier@
    }

    pub closed spec fn wf(&self) -> bool {
        &&& unique(names_of(self.limiters@))
        &&& forall|i: int| 0 <= i < self.limiters@.len() ==> (#[trigger] self.limiters@[i]).1.2 > 0
    }

    /// No tier collected yet.
    pub fn new(default_tier: String) -> (r: Self)
        ensures
            r.wf(),
            r.settings().len() == 0,
            r.default_tier() == default_tier@,
    {
        let r = RateLimiterBuilder { limiters: Vec::new(), default_tier };
        assert(names_of(r.limiters@) =~= Seq::empty());
        r
    }

    fn insert(self, name: String, capacity: u32, refill_tokens: u32, refill_period_ms: u64) -> (r: Self)
        requires
            self.wf(),
            refill_period_ms > 0,
        ensures
            r.wf(),
            r.default_tier() == self.default_tier(),
            has_name(names_of(self.settings()), name@) ==> r.settings() == self.settings().update(
                index_of(names_of(self.settings()), name@),
                (r.settings()[index_of(names_of(self.settings()), name@)].0, (capacity, refill_tokens, refill_period_ms)),
            ) && names_of(r.settings()) == names_of(self.settings()),
            !has_name(names_of(self.settings()), name@) ==> names_of(r.settings()) == names_of(
                self.settings(),
            ).push(name@) && r.settings().drop_last() == self.settings() && r.settings().last().1
                == (capacity, refill_tokens, refill_period_ms),
    {
        let ghost before = self.limiters@;
        let mut this = self;
        match find_name(&this.limiters, name.as_str()) {
            Some(i) => {
                proof {
                    lemma_index_of(names_of(before), i as int);
                }
                this.limiters.remove(i);
                this.limiters.insert(i, (name, (capacity, refill_tokens, refill_period_ms)));
                assert(this.limiters@ =~= before.update(i as int, this.limiters@[i as int]));
                assert(names_of(this.limiters@) =~= names_of(before));
                assert forall|k: int| 0 <= k < this.limiters@.len() implies (#[trigger] this.limiters@[k]).1.2 > 0 by {
                    if k != i {
                        assert(this.limiters@[k] == before[k]);
                    }
                }
            },
            None => {
                this.limiters.push((name, (capacity, refill_tokens, refill_period_ms)));
                assert(names_of(this.limiters@) =~= names_of(before).push(this.limiters@.last().0@));
                assert(this.limiters@.drop_last() =~= before);
                assert forall|a: int, b: int|
                    0 <= a < this.limiters@.len() && 0 <= b < this.limiters@.len() && names_of(
                        this.limiters@,
                    )[a] == names_of(this.limiters@)[b] implies a == b by {
                    let n = before.len() as int;
                    if a < n && b == n {
                        assert(names_of(before)[a] == names_of(this.limiters@)[n]);
                    } else if b < n && a == n {
                        assert(names_of(before)[b] == names_of(this.limiters@)[n]);
                    } else if a < n && b < n {
                        assert(names_of(before)[a] == names_of(this.limiters@)[a]);
                        assert(names_of(before)[b] == names_of(this.limiters@)[b]);
                    }
                }
                assert forall|k: int| 0 <= k < this.limiters@.len() implies (#[trigger] this.limiters@[k]).1.2 > 0 by {
                    if k < before.len() {
                        assert(this.limiters@[k] == before[k]);
                    }
                }
            },
        }
        this
    }

    /// Adds the tier "basic": `requests_per_hour` tokens, refilled over an hour.
    pub fn add_basic_tier(self, requests_per_hour: u32) -> (r: Self)
        requires
            self.wf(),
        ensures
            r.wf(),
            r.default_tier() == self.default_tier(),
            has_name(names_of(r.settings()), "basic"@),
            r.settings()[index_of(names_of(r.settings()), "basic"@)].1 == (
                requests_per_hour,
                requests_per_hour,
                3_600_000u64,
            ),
    {
        let r = self.insert(String::from_str("basic"), requests_per_hour, requests_per_hour, 3_600_000);
        proof {
            lemma_inserted(self, r, "basic"@);
        }
        r
    }

    /// Adds the tier "premium": `requests_per_hour` tokens, refilled over an hour.
    pub fn add_premium_tier(self, requests_per_hour: u32) -> (r: Self)
        requires
            self.wf(),
        ensures
            r.wf(),
            r.default_tier() == self.default_tier(),
            has_name(names_of(r.settings()), "premium"@),
            r.settings()[index_of(names_of(r.settings()), "premium"@)].1 == (
                requests_per_hour,
                requests_per_hour,
                3_600_000u64,
            ),
    {
        let r = self.insert(
            String::from_str("premium"),
            requests_per_hour,
            requests_per_hour,
            3_600_000,
        );
        proof {
            lemma_inserted(self, r, "premium"@);
        }
        r
    }

    /// Adds a tier of `capacity` tokens regaining `refill_tokens` every `refill_period_ms` ms.
    pub fn add_tier(self, name: String, capacity: u32, refill_tokens: u32, refill_period_ms: u64) -> (r: Self)
        requires
            self.wf(),
            refill_period_ms > 0,
        ensures
            r.wf(),
            r.default_tier() == self.default_tier(),
            has_name(names_of(r.settings()), name@),
            r.settings()[index_of(names_of(r.settings()), name@)].1 == (
                capacity,
                refill_tokens,
                refill_period_ms,
            ),
    {
        let ghost n = name@;
        let r = self.insert(name, capacity, refill_tokens, refill_period_ms);
        proof {
            lemma_inserted(self, r, n);
        }
        r
    }

    /// A limiter with one full bucket per tier collected, in order.
    pub fn build(self) -> (r: MultiTierRateLimiter)
        requires
            self.wf(),
        ensures
            r.wf(),
            r.tier_names() == names_of(self.settings()),
            r.buckets() == fresh_buckets(self.settings()),
            r.clients().len() == 0,
            r.default_tier() == self.default_tier(),
    {
        let ghost all = self.limiters@;
        let mut limiter = MultiTierRateLimiter::new(self.default_tier);
        let n = self.limiters.len();
        let mut i: usize = 0;
        while i < n
            invariant
                n == all.len(),
                self.limiters@ == all,
                unique(names_of(all)),
                forall|k: int| 0 <= k < all.len() ==> (#[trigger] all[k]).1.2 > 0,
                i <= n,
                limiter.wf(),
                limiter.tier_names() == names_of(all.take(i as int)),
                limiter.buckets() == fresh_buckets(all.take(i as int)),
                limiter.clients().len() == 0,
                limiter.default_tier() == self.default_tier@,
            decreases n - i,
        {
            let name = self.limiters[i].0.clone();
            let (capacity, refill, period) = self.limiters[i].1;
            proof {
                assert(all[i as int].1.2 > 0);
                if has_name(limiter.tier_names(), name@) {
                    let j = index_of(limiter.tier_names(), name@);
                    assert(names_of(all)[j] == names_of(all.take(i as int))[j]);
                    assert(names_of(all)[i as int] == name@);
                }
            }
            limiter.add_tier(name, capacity, refill, period);
            assert(names_of(all.take(i + 1)) =~= names_of(all.take(i as int)).push(names_of(all)[i as int]));
            assert(fresh_buckets(all.take(i + 1)) =~= fresh_buckets(all.take(i as int)).push(
                fresh_buckets(all)[i as int],
            ));
            i = i + 1;
        }
        assert(all.take(n as int) =~= all);
        limiter
    }
}

proof fn lemma_inserted(before: RateLimiterBuilder, after: RateLimiterBuilder, n: Seq<char>)
    requires
        after.wf(),
        has_name(names_of(before.settings()), n) ==> names_of(after.settings()) == names_of(
            before.settings(),
        ) && after.settings()[index_of(names_of(before.settings()), n)].0@ == n,
        !has_name(names_of(before.settings()), n) ==> names_of(after.settings()) == names_of(
            before.settings(),
        ).push(n),
    ensures
        has_name(names_of(after.settings()), n),
        index_of(names_of(after.settings()), n) == if has_name(names_of(before.settings()), n) {
            index_of(names_of(before.settings()), n)
        } else {
            before.settings().len() as int
        },
{
    let names = names_of(after.settings());
    if has_name(names_of(before.settings()), n) {
        let i = index_of(names_of(before.settings()), n);
        assert(names[i] == n);
        lemma_index_of(names, i);
    } else {
        let i = before.settings().len() as int;
        assert(names[i] == n);
        lemma_index_of(names, i);
    }
}

} // verus!
