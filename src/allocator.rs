//! The resource broker: time-bounded leases on an exclusive GPU, counted CPU
//! cores and memory bytes, and per-API call quotas.
//!
//! Times are milliseconds. A lease taken at `t` for `d` milliseconds expires
//! at `t + d`, and from then on counts as released: every allocation first
//! sweeps out the expired leases.
use vstd::prelude::*;
use vstd::string::*;

use crate::clock::{instant_now, millis_since};
use crate::rate_limiter::{
    after_take, can_take, find_name, fresh_bucket, has_name, index_of, lemma_index_of, names_of,
    unique, BucketView, RateLimiter,
};
use crate::text::same_text;

verus! {

/// What a component asks for.
#[derive(Debug)]
pub enum ResourceType {
    Gpu,
    CpuCores(u32),
    /// Bytes of memory.
    Memory(u64),
    /// One call to the named API.
    ApiQuota(String),
}

/// The kind of a resource, without its quantity.
#[derive(Clone, Copy, Debug, PartialEq, Eq, Structural)]
pub enum ResourceKind {
    Gpu,
    Cpu,
    Memory,
    Api,
}

pub open spec fn kind_of(t: ResourceType) -> ResourceKind {
    match t {
        ResourceType::Gpu => ResourceKind::Gpu,
        ResourceType::CpuCores(_) => ResourceKind::Cpu,
        ResourceType::Memory(_) => ResourceKind::Memory,
        ResourceType::ApiQuota(_) => ResourceKind::Api,
    }
}

impl ResourceType {
    /// The kind of this resource, without its quantity.
    pub fn kind(&self) -> (k: ResourceKind)
        ensures
            k == kind_of(*self),
    {
        match self {
            ResourceType::Gpu => ResourceKind::Gpu,
            ResourceType::CpuCores(_) => ResourceKind::Cpu,
            ResourceType::Memory(_) => ResourceKind::Memory,
            ResourceType::ApiQuota(_) => ResourceKind::Api,
        }
    }
}

/// A request for a resource.
#[derive(Debug)]
pub struct AllocationRequest {
    pub component_id: String,
    pub resource_type: ResourceType,
    /// How long the lease lasts, in milliseconds.
    pub duration_ms: u64,
    /// 0 is the lowest, 255 the highest; recorded, not used for admission.
    pub priority: u8,
}

/// An active grant of a resource to a component.
#[derive(Debug)]
pub struct Lease {
    pub component_id: String,
    pub kind: ResourceKind,
    /// Cores or bytes; 1 for the GPU.
    pub amount: u64,
    pub acquired_at: u64,
    pub expires_at: u64,
    pub priority: u8,
}

/// Why an allocation was refused.
#[derive(Debug, Clone, Copy, PartialEq, Eq, Structural)]
pub enum AllocError {
    /// Not enough of the resource is free, or the API quota is drained.
    CapacityUnavailable,
    /// The component already holds a lease of this kind.
    AlreadyHeld,
}

/// The description of an allocation refusal.
pub open spec fn alloc_error_text(e: AllocError) -> Seq<char> {
    match e {
        AllocError::CapacityUnavailable => "Resource capacity unavailable"@,
        AllocError::AlreadyHeld => "Component already holds this resource"@,
    }
}

impl AllocError {
    /// A description of the refusal.
    pub fn message(&self) -> (r: String)
        ensures
            r@ == alloc_error_text(*self),
    {
        match self {
            AllocError::CapacityUnavailable => String::from_str("Resource capacity unavailable"),
            AllocError::AlreadyHeld => String::from_str("Component already holds this resource"),
        }
    }
}

/// Utilization, as used amount and capacity per kind.
#[derive(Debug, Clone, Copy)]
pub struct ResourceUsage {
    pub gpu_in_use: bool,
    pub cpu_used: u64,
    pub cpu_capacity: u32,
    pub memory_used: u64,
    pub memory_capacity: u64,
}

/// The leases of `ls` that satisfy `p`, in order.
pub open spec fn keep(ls: Seq<Lease>, p: spec_fn(Lease) -> bool) -> Seq<Lease>
    decreases ls.len(),
{
    if ls.len() == 0 {
        Seq::empty()
    } else {
        let r = keep(ls.drop_last(), p);
        if p(ls.last()) {
            r.push(ls.last())
        } else {
            r
        }
    }
}

/// Not yet expired at `now`.
pub open spec fn live_at(now: u64) -> spec_fn(Lease) -> bool {
    |l: Lease| l.expires_at > now
}

/// Every lease.
pub open spec fn any_lease() -> spec_fn(Lease) -> bool {
    |l: Lease| true
}

/// Not the lease of component `c` on kind `k`.
pub open spec fn not_held(c: Seq<char>, k: ResourceKind) -> spec_fn(Lease) -> bool {
    |l: Lease| !(l.component_id@ == c && l.kind == k)
}

/// The leases still active at `now`.
pub open spec fn live(ls: Seq<Lease>, now: u64) -> Seq<Lease> {
    keep(ls, live_at(now))
}

/// Sum of the amounts leased on kind `k`.
pub open spec fn used(ls: Seq<Lease>, k: ResourceKind) -> nat
    decreases ls.len(),
{
    if ls.len() == 0 {
        0
    } else {
        used(ls.drop_last(), k) + if ls.last().kind == k {
            ls.last().amount as nat
        } else {
            0nat
        }
    }
}

/// Number of leases on kind `k`.
pub open spec fn count_of(ls: Seq<Lease>, k: ResourceKind) -> nat
    decreases ls.len(),
{
    if ls.len() == 0 {
        0
    } else {
        count_of(ls.drop_last(), k) + if ls.last().kind == k {
            1nat
        } else {
            0nat
        }
    }
}

/// Component `c` holds a lease on kind `k`.
pub open spec fn holds(ls: Seq<Lease>, c: Seq<char>, k: ResourceKind) -> bool {
    exists|i: int| 0 <= i < ls.len() && ls[i].component_id@ == c && ls[i].kind == k
}

/// At most one lease per component and kind.
pub open spec fn unique_holders(ls: Seq<Lease>) -> bool
    decreases ls.len(),
{
    ls.len() == 0 || (unique_holders(ls.drop_last()) && !holds(
        ls.drop_last(),
        ls.last().component_id@,
        ls.last().kind,
    ))
}

/// When a lease taken at `now` for `duration` ends (saturating).
pub open spec fn expiry(now: u64, duration: u64) -> u64 {
    if now + duration > u64::MAX {
        u64::MAX
    } else {
        (now + duration) as u64
    }
}

/// `after` is `before` with one new lease appended, as described.
pub open spec fn granted(
    after: Seq<Lease>,
    before: Seq<Lease>,
    c: Seq<char>,
    k: ResourceKind,
    amount: u64,
    now: u64,
    expires: u64,
    priority: u8,
) -> bool {
    &&& after.len() == before.len() + 1
    &&& after.drop_last() == before
    &&& after.last().component_id@ == c
    &&& after.last().kind == k
    &&& after.last().amount == amount
    &&& after.last().acquired_at == now
    &&& after.last().expires_at == expires
    &&& after.last().priority == priority
}

/// The bucket every API starts with: 100 calls, refilled over an hour.
pub open spec fn default_api_bucket() -> BucketView {
    fresh_bucket(100, 100, 3_600_000)
}

proof fn lemma_keep(ls: Seq<Lease>, p: spec_fn(Lease) -> bool)
    ensures
        forall|k: ResourceKind| used(keep(ls, p), k) <= used(ls, k),
        forall|k: ResourceKind| count_of(keep(ls, p), k) <= count_of(ls, k),
        forall|i: int|
            #![trigger keep(ls, p)[i]]
            0 <= i < keep(ls, p).len() ==> p(keep(ls, p)[i]) && exists|j: int|
                #![trigger ls[j]]
                0 <= j < ls.len() && ls[j] == keep(ls, p)[i],
        unique_holders(ls) ==> unique_holders(keep(ls, p)),
    decreases ls.len(),
{
    if ls.len() > 0 {
        let d = ls.drop_last();
        lemma_keep(d, p);
        let r = keep(d, p);
        let l = ls.last();
        assert forall|i: int| #![trigger r[i]] 0 <= i < r.len() implies exists|j: int|
            #![trigger ls[j]]
            0 <= j < ls.len() && ls[j] == r[i] by {
            let j = choose|j: int| 0 <= j < d.len() && d[j] == r[i];
            assert(ls[j] == d[j]);
        }
        assert(ls.drop_last() == d);
        if p(l) {
            let q = r.push(l);
            assert(q.drop_last() =~= r);
            assert(keep(ls, p) == q);
            assert forall|k: ResourceKind| used(keep(ls, p), k) <= used(ls, k) by {
                assert(used(q, k) == used(r, k) + if l.kind == k {
                    l.amount as nat
                } else {
                    0nat
                });
                assert(used(ls, k) == used(d, k) + if l.kind == k {
                    l.amount as nat
                } else {
                    0nat
                });
                assert(used(r, k) <= used(d, k));
            }
            assert forall|k: ResourceKind| count_of(keep(ls, p), k) <= count_of(ls, k) by {
                assert(count_of(q, k) == count_of(r, k) + if l.kind == k {
                    1nat
                } else {
                    0nat
                });
                assert(count_of(ls, k) == count_of(d, k) + if l.kind == k {
                    1nat
                } else {
                    0nat
                });
                assert(count_of(r, k) <= count_of(d, k));
            }
            assert forall|i: int| #![trigger q[i]] 0 <= i < q.len() implies p(q[i]) && exists|j: int|
                #![trigger ls[j]]
                0 <= j < ls.len() && ls[j] == q[i] by {
                if i == r.len() {
                    assert(ls[ls.len() - 1] == q[i]);
                } else {
                    assert(q[i] == r[i]);
                }
            }
            if unique_holders(ls) {
                if holds(r, l.component_id@, l.kind) {
                    let i = choose|i: int|
                        0 <= i < r.len() && r[i].component_id@ == l.component_id@ && r[i].kind
                            == l.kind;
                    let j = choose|j: int| 0 <= j < d.len() && d[j] == r[i];
                    assert(holds(d, l.component_id@, l.kind));
                }
            }
        } else {
            assert(keep(ls, p) == r);
            assert forall|k: ResourceKind| used(keep(ls, p), k) <= used(ls, k) by {
                assert(used(ls, k) >= used(d, k));
            }
            assert forall|k: ResourceKind| count_of(keep(ls, p), k) <= count_of(ls, k) by {
                assert(count_of(ls, k) >= count_of(d, k));
            }
        }
    }
}

proof fn lemma_used_prefix(ls: Seq<Lease>, i: int, k: ResourceKind)
    requires
        0 <= i <= ls.len(),
    ensures
        used(ls.take(i), k) <= used(ls, k),
    decreases ls.len(),
{
    if i < ls.len() {
        let d = ls.drop_last();
        assert(ls.take(i) =~= d.take(i));
        lemma_used_prefix(d, i, k);
    } else {
        assert(ls.take(i) =~= ls);
    }
}

proof fn lemma_keep_step(ls: Seq<Lease>, i: int, p: spec_fn(Lease) -> bool)
    requires
        0 <= i < ls.len(),
    ensures
        keep(ls.take(i + 1), p) == if p(ls[i]) {
            keep(ls.take(i), p).push(ls[i])
        } else {
            keep(ls.take(i), p)
        },
{
    let t = ls.take(i + 1);
    assert(t.drop_last() =~= ls.take(i));
    assert(t.last() == ls[i]);
}

proof fn lemma_push_facts(ls: Seq<Lease>, l: Lease)
    ensures
        forall|k: ResourceKind| used(ls.push(l), k) == used(ls, k) + if l.kind == k {
            l.amount as nat
        } else {
            0nat
        },
        forall|k: ResourceKind| count_of(ls.push(l), k) == count_of(ls, k) + if l.kind == k {
            1nat
        } else {
            0nat
        },
        unique_holders(ls) && !holds(ls, l.component_id@, l.kind) ==> unique_holders(ls.push(l)),
{
    assert(ls.push(l).drop_last() =~= ls);
}

/// A table of per-API token buckets; an API seen for the first time gets a
/// default bucket.
struct ApiQuotas {
    buckets: Vec<(String, RateLimiter)>,
}

impl ApiQuotas {
    closed spec fn bucket_for(&self, name: Seq<char>) -> BucketView {
        let names = names_of(self.buckets@);
        if has_name(names, name) {
            self.buckets@[index_of(names, name)].1@
        } else {
            default_api_bucket()
        }
    }

    closed spec fn wf(&self) -> bool {
        &&& unique(names_of(self.buckets@))
        &&& forall|i: int| 0 <= i < self.buckets@.len() ==> (#[trigger] self.buckets@[i]).1.wf()
    }

    fn new() -> (r: Self)
        ensures
            r.wf(),
            forall|n: Seq<char>| r.bucket_for(n) == default_api_bucket(),
    {
        let r = ApiQuotas { buckets: Vec::new() };
        assert(names_of(r.buckets@) =~= Seq::empty());
        r
    }

    fn take_one(&mut self, name: &str, now: u64) -> (ok: bool)
        requires
            old(self).wf(),
        ensures
            final(self).wf(),
            ok == can_take(old(self).bucket_for(name@), 1, now as nat),
            final(self).bucket_for(name@) == after_take(old(self).bucket_for(name@), 1, now as nat),
            forall|n: Seq<char>| n != name@ ==> final(self).bucket_for(n) == old(self).bucket_for(n),
    {
        let ghost before = self.buckets@;
        let i = match find_name(&self.buckets, name) {
            Some(i) => {
                proof {
                    lemma_index_of(names_of(before), i as int);
                }
                i
            },
            None => {
                let fresh = RateLimiter::new(100, 100, 3_600_000);
                self.buckets.push((String::from_str(name), fresh));
                let ghost mid = self.buckets@;
                assert(names_of(mid) =~= names_of(before).push(name@));
                assert forall|a: int, b: int|
                    0 <= a < mid.len() && 0 <= b < mid.len() && names_of(mid)[a] == names_of(
                        mid,
                    )[b] implies a == b by {
                    let n = before.len() as int;
                    if a < n && b < n {
                        assert(names_of(before)[a] == names_of(mid)[a]);
                        assert(names_of(before)[b] == names_of(mid)[b]);
                    } else if a < n {
                        assert(names_of(before)[a] == name@);
                    } else if b < n {
                        assert(names_of(before)[b] == name@);
                    }
                }
                assert forall|k: int| 0 <= k < mid.len() implies (#[trigger] mid[k]).1.wf() by {
                    if k < before.len() {
                        assert(mid[k] == before[k]);
                    }
                }
                proof {
                    lemma_index_of(names_of(mid), before.len() as int);
                    assert forall|n: Seq<char>| n != name@ implies self.bucket_for(n)
                        == old(self).bucket_for(n) by {
                        if has_name(names_of(before), n) {
                            let j = index_of(names_of(before), n);
                            lemma_index_of(names_of(before), j);
                            assert(names_of(mid)[j] == n);
                            lemma_index_of(names_of(mid), j);
                        } else if has_name(names_of(mid), n) {
                            let j = index_of(names_of(mid), n);
                            assert(j < before.len());
                            assert(names_of(before)[j] == n);
                        }
                    }
                }
                self.buckets.len() - 1
            },
        };
        let ghost mid = self.buckets@;
        let ghost names = names_of(mid);
        assert(names[i as int] == name@);
        proof {
            lemma_index_of(names, i as int);
        }
        let (key, mut bucket) = self.buckets.remove(i);
        let r = bucket.try_acquire_at(1, now);
        self.buckets.insert(i, (key, bucket));
        assert(self.buckets@ =~= mid.update(i as int, self.buckets@[i as int]));
        assert(names_of(self.buckets@) =~= names);
        assert forall|k: int| 0 <= k < self.buckets@.len() implies (#[trigger] self.buckets@[k]).1.wf() by {
            if k != i {
                assert(self.buckets@[k] == mid[k]);
            }
        }
        proof {
            assert forall|n: Seq<char>| n != name@ implies self.bucket_for(n) == old(self).bucket_for(
                n,
            ) by {
                if has_name(names, n) {
                    let j = index_of(names, n);
                    lemma_index_of(names, j);
                    assert(self.buckets@[j] == mid[j]);
                }
            }
        }
        match r {
            Ok(()) => true,
            Err(_) => false,
        }
    }
}

/// What a request for `request` at time `now` does: `before` is the broker
/// before, `after` the broker after, `r` the reply. Expired leases are swept
/// first; a zero-length request then succeeds without taking anything; an API
/// call takes one token from that API's bucket; otherwise the component gets a
/// new lease, unless it holds one of that kind already or the kind lacks room.
pub open spec fn allocation_outcome(
    before: ResourceAllocator,
    after: ResourceAllocator,
    request: AllocationRequest,
    now: u64,
    r: Result<(), AllocError>,
) -> bool {
    let swept = live(before.leases(), now);
    let c = request.component_id@;
    let exp = expiry(now, request.duration_ms);
    let p = request.priority;
    if request.duration_ms == 0 {
        &&& r is Ok
        &&& after.leases() == swept
        &&& forall|n: Seq<char>| after.api_bucket(n) == before.api_bucket(n)
    } else {
        match request.resource_type {
            ResourceType::ApiQuota(name) => {
                &&& after.leases() == swept
                &&& (r is Ok <==> can_take(before.api_bucket(name@), 1, now as nat))
                &&& (r is Err ==> r == Err::<(), AllocError>(AllocError::CapacityUnavailable))
                &&& after.api_bucket(name@) == after_take(
                    before.api_bucket(name@),
                    1,
                    now as nat,
                )
                &&& forall|n: Seq<char>|
                    n != name@ ==> after.api_bucket(n) == before.api_bucket(n)
            },
            _ => {
                let k = kind_of(request.resource_type);
                let amount: u64 = match request.resource_type {
                    ResourceType::CpuCores(n) => n as u64,
                    ResourceType::Memory(b) => b,
                    _ => 1,
                };
                let fits = match request.resource_type {
                    ResourceType::Gpu => count_of(swept, ResourceKind::Gpu) == 0,
                    ResourceType::CpuCores(n) => used(swept, ResourceKind::Cpu) + n
                        <= before.cpu_capacity(),
                    _ => used(swept, ResourceKind::Memory) + amount
                        <= before.memory_capacity(),
                };
                &&& forall|n: Seq<char>|
                    after.api_bucket(n) == before.api_bucket(n)
                &&& holds(swept, c, k) ==> r == Err::<(), AllocError>(
                    AllocError::AlreadyHeld,
                ) && after.leases() == swept
                &&& !holds(swept, c, k) && !fits ==> r == Err::<(), AllocError>(
                    AllocError::CapacityUnavailable,
                ) && after.leases() == swept
                &&& !holds(swept, c, k) && fits ==> r is Ok && granted(
                    after.leases(),
                    swept,
                    c,
                    k,
                    amount,
                    now,
                    exp,
                    p,
                )
            },
        }
    }
}

/// Brokers resources among components.
pub struct ResourceAllocator {
    cpu_cores: u32,
    memory_pool: u64,
    leases: Vec<Lease>,
    api_quotas: ApiQuotas,
    /// The monotonic clock reading that times are counted from.
    epoch: std::time::Instant,
}

impl ResourceAllocator {
    /// The leases held, oldest first (expired ones may linger until the next sweep).
    pub closed spec fn leases(&self) -> Seq<Lease> {
        self.leases@
    }

    pub closed spec fn cpu_capacity(&self) -> nat {
        self.cpu_cores as nat
    }

    pub closed spec fn memory_capacity(&self) -> nat {
        self.memory_pool as nat
    }

    /// The quota bucket of API `name`.
    pub closed spec fn api_bucket(&self, name: Seq<char>) -> BucketView {
        self.api_quotas.bucket_for(name)
    }

    /// Counted kinds within capacity, at most one GPU lease, one lease per
    /// component and kind, and no lease ending before it starts.
    pub closed spec fn wf(&self) -> bool {
        &&& used(self.leases@, ResourceKind::Cpu) <= self.cpu_cores
        &&& used(self.leases@, ResourceKind::Memory) <= self.memory_pool
        &&& count_of(self.leases@, ResourceKind::Gpu) <= 1
        &&& unique_holders(self.leases@)
        &&& forall|i: int|
            0 <= i < self.leases@.len() ==> (#[trigger] self.leases@[i]).acquired_at
                <= self.leases@[i].expires_at
        &&& self.api_quotas.wf()
    }

    /// A broker of `cpu_cores` cores and `memory_bytes` bytes, with no lease held.
    pub fn new(cpu_cores: u32, memory_bytes: u64) -> (r: Self)
        ensures
            r.wf(),
            r.leases().len() == 0,
            r.cpu_capacity() == cpu_cores,
            r.memory_capacity() == memory_bytes,
            forall|n: Seq<char>| r.api_bucket(n) == default_api_bucket(),
    {
        ResourceAllocator {
            cpu_cores,
            memory_pool: memory_bytes,
            leases: Vec::new(),
            api_quotas: ApiQuotas::new(),
            epoch: instant_now(),
        }
    }

    /// Drops the leases that have expired at `now`.
    fn sweep(&mut self, now: u64)
        requires
            old(self).wf(),
        ensures
            final(self).wf(),
            final(self).leases() == live(old(self).leases(), now),
            final(self).cpu_cores == old(self).cpu_cores,
            final(self).memory_pool == old(self).memory_pool,
            final(self).api_quotas == old(self).api_quotas,
    {
        let mut rest: Vec<Lease> = Vec::new();
        std::mem::swap(&mut rest, &mut self.leases);
        let ghost all = rest@;
        let n = rest.len();
        let mut kept: Vec<Lease> = Vec::new();
        let mut i: usize = 0;
        assert(all.skip(0) =~= all);
        while i < n
            invariant
                n == all.len(),
                i <= n,
                rest@ == all.skip(i as int),
                kept@ == keep(all.take(i as int), live_at(now)),
            decreases n - i,
        {
            let l = rest.remove(0);
            assert(l == all[i as int]);
            assert(rest@ =~= all.skip(i + 1));
            proof {
                lemma_keep_step(all, i as int, live_at(now));
            }
            if l.expires_at > now {
                kept.push(l);
            }
            i = i + 1;
        }
        assert(all.take(n as int) =~= all);
        proof {
            lemma_keep(all, live_at(now));
        }
        self.leases = kept;
        assert forall|k: int| 0 <= k < self.leases@.len() implies (#[trigger] self.leases@[k]).acquired_at
            <= self.leases@[k].expires_at by {
            let j = choose|j: int| 0 <= j < all.len() && all[j] == keep(all, live_at(now))[k];
            assert(all[j].acquired_at <= all[j].expires_at);
        }
    }

    fn holds_lease(&self, component_id: &str, kind: ResourceKind) -> (r: bool)
        ensures
            r == holds(self.leases@, component_id@, kind),
    {
        let mut i: usize = 0;
        while i < self.leases.len()
            invariant
                i <= self.leases@.len(),
                forall|k: int|
                    0 <= k < i ==> !(self.leases@[k].component_id@ == component_id@
                        && self.leases@[k].kind == kind),
            decreases self.leases@.len() - i,
        {
            if self.leases[i].kind == kind && same_text(
                self.leases[i].component_id.as_str(),
                component_id,
            ) {
                return true;
            }
            i = i + 1;
        }
        false
    }

    /// Amount leased on kind `k` among the leases live at `now`, or among all
    /// leases when `now` is `None`.
    fn used_amount(&self, k: ResourceKind, now: Option<u64>) -> (r: u64)
        requires
            self.wf(),
            k == ResourceKind::Cpu || k == ResourceKind::Memory,
        ensures
            now is None ==> r == used(self.leases@, k),
            now matches Some(t) ==> r == used(live(self.leases@, t), k),
    {
        let n = self.leases.len();
        let ghost all = self.leases@;
        let ghost p = match now {
            Some(t) => live_at(t),
            None => any_lease(),
        };
        let mut sum: u64 = 0;
        let mut i: usize = 0;
        assert(used(all, k) <= u64::MAX);
        while i < n
            invariant
                n == all.len(),
                all == self.leases@,
                i <= n,
                sum == used(keep(all.take(i as int), p), k),
                used(all, k) <= u64::MAX,
                p == match now {
                    Some(t) => live_at(t),
                    None => any_lease(),
                },
            decreases n - i,
        {
            proof {
                lemma_keep_step(all, i as int, p);
                lemma_push_facts(keep(all.take(i as int), p), all[i as int]);
                lemma_keep(all.take(i + 1), p);
                lemma_used_prefix(all, i + 1, k);
            }
            let l = &self.leases[i];
            let take = match now {
                Some(t) => l.expires_at > t,
                None => true,
            };
            if take && l.kind == k {
                sum = sum + l.amount;
            }
            i = i + 1;
        }
        assert(all.take(n as int) =~= all);
        proof {
            if now is None {
                lemma_keep_all(all, p);
            }
        }
        sum
    }

    /// Grants `request` at time `now`, after sweeping out expired leases.
    pub fn allocate_at(&mut self, request: AllocationRequest, now: u64) -> (r: Result<(), AllocError>)
        requires
            old(self).wf(),
        ensures
            final(self).wf(),
            final(self).cpu_capacity() == old(self).cpu_capacity(),
            final(self).memory_capacity() == old(self).memory_capacity(),
            allocation_outcome(*old(self), *final(self), request, now, r),
    {
        self.sweep(now);
        if request.duration_ms == 0 {
            return Ok(());
        }
        let expires = if request.duration_ms > u64::MAX - now {
            u64::MAX
        } else {
            now + request.duration_ms
        };
        let ghost swept = self.leases@;
        let (amount, kind) = match request.resource_type {
            ResourceType::ApiQuota(name) => {
                if self.api_quotas.take_one(name.as_str(), now) {
                    return Ok(());
                } else {
                    return Err(AllocError::CapacityUnavailable);
                }
            },
            ResourceType::Gpu => (1u64, ResourceKind::Gpu),
            ResourceType::CpuCores(n) => (n as u64, ResourceKind::Cpu),
            ResourceType::Memory(b) => (b, ResourceKind::Memory),
        };
        if self.holds_lease(request.component_id.as_str(), kind) {
            return Err(AllocError::AlreadyHeld);
        }
        let fits = match kind {
            ResourceKind::Gpu => {
                proof {
                    lemma_count_zero(swept, ResourceKind::Gpu);
                }
                !self.any_of_kind(ResourceKind::Gpu)
            },
            ResourceKind::Cpu => {
                let u = self.used_amount(ResourceKind::Cpu, None);
                amount <= self.cpu_cores as u64 - u
            },
            _ => {
                let u = self.used_amount(ResourceKind::Memory, None);
                amount <= self.memory_pool - u
            },
        };
        if !fits {
            return Err(AllocError::CapacityUnavailable);
        }
        let lease = Lease {
            component_id: request.component_id,
            kind,
            amount,
            acquired_at: now,
            expires_at: expires,
            priority: request.priority,
        };
        proof {
            lemma_push_facts(swept, lease);
        }
        self.leases.push(lease);
        assert(self.leases@.drop_last() =~= swept);
        Ok(())
    }

    fn live_of_kind(&self, k: ResourceKind, now: u64) -> (r: bool)
        ensures
            r == (exists|i: int|
                0 <= i < self.leases@.len() && self.leases@[i].kind == k && self.leases@[i].expires_at
                    > now),
    {
        let mut i: usize = 0;
        while i < self.leases.len()
            invariant
                i <= self.leases@.len(),
                forall|j: int| 0 <= j < i ==> !(self.leases@[j].kind == k && self.leases@[j].expires_at > now),
            decreases self.leases@.len() - i,
        {
            if self.leases[i].kind == k && self.leases[i].expires_at > now {
                return true;
            }
            i = i + 1;
        }
        false
    }

    fn any_of_kind(&self, k: ResourceKind) -> (r: bool)
        ensures
            r == (exists|i: int| 0 <= i < self.leases@.len() && self.leases@[i].kind == k),
    {
        let mut i: usize = 0;
        while i < self.leases.len()
            invariant
                i <= self.leases@.len(),
                forall|j: int| 0 <= j < i ==> self.leases@[j].kind != k,
            decreases self.leases@.len() - i,
        {
            if self.leases[i].kind == k {
                return true;
            }
            i = i + 1;
        }
        false
    }

    /// Grants `request` now, after sweeping out expired leases.
    pub fn allocate(&mut self, request: AllocationRequest) -> (r: Result<(), AllocError>)
        requires
            old(self).wf(),
        ensures
            final(self).wf(),
            final(self).cpu_capacity() == old(self).cpu_capacity(),
            final(self).memory_capacity() == old(self).memory_capacity(),
            exists|now: u64| allocation_outcome(*old(self), *final(self), request, now, r),
    {
        let now = millis_since(&self.epoch);
        self.allocate_at(request, now)
    }

    /// Removes the lease of `component_id` on the kind of `resource_type`;
    /// releasing a lease that is not held changes nothing.
    pub fn release(&mut self, component_id: &str, resource_type: &ResourceType)
        requires
            old(self).wf(),
        ensures
            final(self).wf(),
            final(self).leases() == keep(
                old(self).leases(),
                not_held(component_id@, kind_of(*resource_type)),
            ),
            !holds(final(self).leases(), component_id@, kind_of(*resource_type)),
            final(self).cpu_capacity() == old(self).cpu_capacity(),
            final(self).memory_capacity() == old(self).memory_capacity(),
            forall|n: Seq<char>| final(self).api_bucket(n) == old(self).api_bucket(n),
    {
        let kind = resource_type.kind();
        let ghost p = not_held(component_id@, kind);
        let mut rest: Vec<Lease> = Vec::new();
        std::mem::swap(&mut rest, &mut self.leases);
        let ghost all = rest@;
        let n = rest.len();
        let mut kept: Vec<Lease> = Vec::new();
        let mut i: usize = 0;
        assert(all.skip(0) =~= all);
        while i < n
            invariant
                n == all.len(),
                i <= n,
                rest@ == all.skip(i as int),
                kept@ == keep(all.take(i as int), p),
                p == not_held(component_id@, kind),
            decreases n - i,
        {
            let l = rest.remove(0);
            assert(l == all[i as int]);
            assert(rest@ =~= all.skip(i + 1));
            proof {
                lemma_keep_step(all, i as int, p);
            }
            if !(l.kind == kind && same_text(l.component_id.as_str(), component_id)) {
                kept.push(l);
            }
            i = i + 1;
        }
        assert(all.take(n as int) =~= all);
        proof {
            lemma_keep(all, p);
        }
        self.leases = kept;
        assert forall|k: int| 0 <= k < self.leases@.len() implies (#[trigger] self.leases@[k]).acquired_at
            <= self.leases@[k].expires_at by {
            let j = choose|j: int| 0 <= j < all.len() && all[j] == keep(all, p)[k];
            assert(all[j].acquired_at <= all[j].expires_at);
        }
        proof {
            if holds(self.leases@, component_id@, kind) {
                let j = choose|j: int|
                    0 <= j < self.leases@.len() && self.leases@[j].component_id@ == component_id@
                        && self.leases@[j].kind == kind;
                assert(p(self.leases@[j]));
            }
        }
    }

    /// Utilization at time `now`, counting only the leases live then.
    pub fn usage_at(&self, now: u64) -> (r: ResourceUsage)
        requires
            self.wf(),
        ensures
            r.gpu_in_use == exists|i: int|
                0 <= i < self.leases().len() && self.leases()[i].kind == ResourceKind::Gpu
                    && self.leases()[i].expires_at > now,
            r.cpu_used == used(live(self.leases(), now), ResourceKind::Cpu),
            r.cpu_capacity == self.cpu_capacity(),
            r.memory_used == used(live(self.leases(), now), ResourceKind::Memory),
            r.memory_capacity == self.memory_capacity(),
    {
        let gpu = self.live_of_kind(ResourceKind::Gpu, now);
        let cpu = self.used_amount(ResourceKind::Cpu, Some(now));
        let memory = self.used_amount(ResourceKind::Memory, Some(now));
        ResourceUsage {
            gpu_in_use: gpu,
            cpu_used: cpu,
            cpu_capacity: self.cpu_cores,
            memory_used: memory,
            memory_capacity: self.memory_pool,
        }
    }

    /// Utilization now.
    pub fn get_usage_stats(&self) -> (r: ResourceUsage)
        requires
            self.wf(),
        ensures
            r.cpu_capacity == self.cpu_capacity(),
            r.memory_capacity == self.memory_capacity(),
            exists|now: u64|
                r.cpu_used == used(live(self.leases(), now), ResourceKind::Cpu) && r.memory_used
                    == used(live(self.leases(), now), ResourceKind::Memory) && r.gpu_in_use == exists|i: int|
                    0 <= i < self.leases().len() && self.leases()[i].kind == ResourceKind::Gpu
                        && self.leases()[i].expires_at > now,
    {
        let now = millis_since(&self.epoch);
        self.usage_at(now)
    }
}

proof fn lemma_keep_all(ls: Seq<Lease>, p: spec_fn(Lease) -> bool)
    requires
        forall|l: Lease| #[trigger] p(l),
    ensures
        keep(ls, p) == ls,
    decreases ls.len(),
{
    if ls.len() > 0 {
        lemma_keep_all(ls.drop_last(), p);
        assert(ls.drop_last().push(ls.last()) =~= ls);
    }
}

proof fn lemma_count_zero(ls: Seq<Lease>, k: ResourceKind)
    ensures
        count_of(ls, k) == 0 <==> !(exists|i: int| 0 <= i < ls.len() && ls[i].kind == k),
    decreases ls.len(),
{
    if ls.len() > 0 {
        let d = ls.drop_last();
        lemma_count_zero(d, k);
        if exists|i: int| 0 <= i < d.len() && d[i].kind == k {
            let i = choose|i: int| 0 <= i < d.len() && d[i].kind == k;
            assert(ls[i] == d[i]);
        }
        if exists|i: int| 0 <= i < ls.len() && ls[i].kind == k {
            let i = choose|i: int| 0 <= i < ls.len() && ls[i].kind == k;
            if i < d.len() {
                assert(d[i] == ls[i]);
            }
        }
    }
}

/// At every observation time, the live leases of each counted kind add up to
/// no more than that kind's capacity.
pub proof fn lemma_counted_within_capacity(a: ResourceAllocator, now: u64)
    requires
        a.wf(),
    ensures
        used(live(a.leases(), now), ResourceKind::Cpu) <= a.cpu_capacity(),
        used(live(a.leases(), now), ResourceKind::Memory) <= a.memory_capacity(),
{
    lemma_keep(a.leases(), live_at(now));
}

/// At every observation time, at most one live lease is on the GPU.
pub proof fn lemma_gpu_exclusive(a: ResourceAllocator, now: u64)
    requires
        a.wf(),
    ensures
        count_of(live(a.leases(), now), ResourceKind::Gpu) <= 1,
{
    lemma_keep(a.leases(), live_at(now));
}

proof fn lemma_live_twice(ls: Seq<Lease>, now: u64, t: u64)
    requires
        now <= t,
    ensures
        live(live(ls, now), t) == live(ls, t),
    decreases ls.len(),
{
    if ls.len() > 0 {
        let d = ls.drop_last();
        lemma_live_twice(d, now, t);
        let l = ls.last();
        let r = keep(d, live_at(now));
        if l.expires_at > now {
            assert(r.push(l).drop_last() =~= r);
            assert(r.push(l).last() == l);
        }
    }
}

/// A request of zero length succeeds and never stands in the way of a later
/// one: from its time on, the live leases are those there would have been
/// without it, and no quota was used.
pub proof fn lemma_zero_duration_never_blocks(
    before: ResourceAllocator,
    after: ResourceAllocator,
    request: AllocationRequest,
    now: u64,
    r: Result<(), AllocError>,
    later: u64,
)
    requires
        allocation_outcome(before, after, request, now, r),
        request.duration_ms == 0,
        now <= later,
    ensures
        r is Ok,
        live(after.leases(), later) == live(before.leases(), later),
        forall|n: Seq<char>| after.api_bucket(n) == before.api_bucket(n),
{
    lemma_live_twice(before.leases(), now, later);
}

/// A later request gets exactly the answer and the broker it would have got
/// had a zero-length request before it never been made.
pub proof fn lemma_zero_duration_is_invisible(
    before: ResourceAllocator,
    mid: ResourceAllocator,
    zero: AllocationRequest,
    now: u64,
    r0: Result<(), AllocError>,
    after: ResourceAllocator,
    request: AllocationRequest,
    later: u64,
    r: Result<(), AllocError>,
)
    requires
        allocation_outcome(before, mid, zero, now, r0),
        zero.duration_ms == 0,
        mid.cpu_capacity() == before.cpu_capacity(),
        mid.memory_capacity() == before.memory_capacity(),
        now <= later,
    ensures
        allocation_outcome(mid, after, request, later, r) <==> allocation_outcome(
            before,
            after,
            request,
            later,
            r,
        ),
{
    lemma_live_twice(before.leases(), now, later);
    assert(live(mid.leases(), later) == live(before.leases(), later));
    assert(forall|n: Seq<char>| mid.api_bucket(n) == before.api_bucket(n));
}

/// Releasing twice leaves the same leases as releasing once.
pub proof fn lemma_release_idempotent(ls: Seq<Lease>, c: Seq<char>, k: ResourceKind)
    ensures
        keep(keep(ls, not_held(c, k)), not_held(c, k)) == keep(ls, not_held(c, k)),
    decreases ls.len(),
{
    let p = not_held(c, k);
    if ls.len() > 0 {
        let d = ls.drop_last();
        lemma_release_idempotent(d, c, k);
        let r = keep(d, p);
        if p(ls.last()) {
            assert(r.push(ls.last()).drop_last() =~= r);
        }
    }
}

} // verus!
