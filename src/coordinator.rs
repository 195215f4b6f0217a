//! The resource coordinator's requests: reading them into allocation requests,
//! naming granted allocations, and counting attempts.
use vstd::prelude::*;
use vstd::string::*;

use crate::allocator::{
    alloc_error_text, allocation_outcome, keep, live, not_held, used, AllocError, AllocationRequest,
    ResourceAllocator, ResourceKind, ResourceType, ResourceUsage,
};
use crate::clock::{instant_now, millis_since, now_ms};
use crate::rate_limiter::{
    find_name, has_name, index_of, lemma_index_of, names_of, tier_take_outcome, unique,
    MultiTierRateLimiter, QuotaError,
};
use crate::rng::{dec, decimal};
use crate::text::same_text;

verus! {

/// A request to allocate a resource, as it arrives.
#[derive(Debug)]
pub struct AllocateRequest {
    pub component_id: String,
    /// "gpu", "cpu", "memory" or "api".
    pub resource_type: String,
    pub duration_secs: Option<u64>,
    pub priority: Option<u8>,
    pub cpu_cores: Option<u32>,
    pub memory_mb: Option<u64>,
    pub api_name: Option<String>,
}

/// The reply to an allocation request.
#[derive(Debug)]
pub struct AllocateResponse {
    pub success: bool,
    pub message: String,
    pub allocation_id: Option<String>,
}

/// A request to release a resource.
#[derive(Debug)]
pub struct ReleaseRequest {
    pub component_id: String,
    pub resource_type: String,
}

/// The body of a health reply.
#[derive(Debug)]
pub struct HealthResponse {
    pub status: String,
    pub version: String,
    pub uptime_secs: u64,
}

/// Why an allocation request could not be read.
#[derive(Debug, Clone, Copy, PartialEq, Eq, Structural)]
pub enum RequestError {
    UnknownResourceType,
    MissingCpuCores,
    MissingMemoryMb,
    MissingApiName,
    /// The memory asked for does not fit in 64 bits of bytes.
    MemoryTooLarge,
}

/// The description of a request error.
pub open spec fn request_error_text(e: RequestError) -> Seq<char> {
    match e {
        RequestError::UnknownResourceType => "Unknown resource type"@,
        RequestError::MissingCpuCores => "CPU allocation requires cpu_cores parameter"@,
        RequestError::MissingMemoryMb => "Memory allocation requires memory_mb parameter"@,
        RequestError::MissingApiName => "API allocation requires api_name parameter"@,
        RequestError::MemoryTooLarge => "memory_mb is too large"@,
    }
}

impl RequestError {
    /// A description of what the request lacks.
    pub fn message(&self) -> (r: String)
        ensures
            r@ == request_error_text(*self),
    {
        match self {
            RequestError::UnknownResourceType => String::from_str("Unknown resource type"),
            RequestError::MissingCpuCores => String::from_str("CPU allocation requires cpu_cores parameter"),
            RequestError::MissingMemoryMb => String::from_str("Memory allocation requires memory_mb parameter"),
            RequestError::MissingApiName => String::from_str("API allocation requires api_name parameter"),
            RequestError::MemoryTooLarge => String::from_str("memory_mb is too large"),
        }
    }
}

/// Bytes in a mebibyte.
pub const MIB: u64 = 1_048_576;

/// Milliseconds in `secs` seconds, saturating.
pub open spec fn secs_to_ms(secs: u64) -> u64 {
    if secs * 1000 > u64::MAX {
        u64::MAX
    } else {
        (secs * 1000) as u64
    }
}

/// What reading `req` gives, with `default_duration_secs` as the duration
/// when it names none.
pub open spec fn parse_outcome(
    req: AllocateRequest,
    default_duration_secs: u64,
    r: Result<AllocationRequest, RequestError>,
) -> bool {
    &&& ({
        let t = req.resource_type@;
        if t == "gpu"@ {
            r matches Ok(a) && a.resource_type is Gpu
        } else if t == "cpu"@ {
            match req.cpu_cores {
                Some(c) => r matches Ok(a) && a.resource_type == ResourceType::CpuCores(c),
                None => r == Err::<AllocationRequest, RequestError>(RequestError::MissingCpuCores),
            }
        } else if t == "memory"@ {
            match req.memory_mb {
                Some(mb) => if mb * MIB <= u64::MAX {
                    r matches Ok(a) && a.resource_type == ResourceType::Memory((mb * MIB) as u64)
                } else {
                    r == Err::<AllocationRequest, RequestError>(RequestError::MemoryTooLarge)
                },
                None => r == Err::<AllocationRequest, RequestError>(RequestError::MissingMemoryMb),
            }
        } else if t == "api"@ {
            match req.api_name {
                Some(n) => r matches Ok(a) && a.resource_type matches ResourceType::ApiQuota(m)
                    && m@ == n@,
                None => r == Err::<AllocationRequest, RequestError>(RequestError::MissingApiName),
            }
        } else {
            r == Err::<AllocationRequest, RequestError>(RequestError::UnknownResourceType)
        }
    })
    &&& r matches Ok(a) ==> a.component_id@ == req.component_id@ && a.duration_ms == secs_to_ms(
        match req.duration_secs {
            Some(d) => d,
            None => default_duration_secs,
        },
    ) && a.priority == match req.priority {
        Some(p) => p,
        None => 100u8,
    }
}

/// Reads an allocation request. The duration defaults to `default_duration_secs`
/// and the priority to 100; each resource type needs its own parameter.
pub fn parse_allocate_request(req: AllocateRequest, default_duration_secs: u64) -> (r: Result<AllocationRequest, RequestError>)
    ensures
        parse_outcome(req, default_duration_secs, r),
{
    let t = req.resource_type.as_str();
    let resource_type = if same_text(t, "gpu") {
        ResourceType::Gpu
    } else if same_text(t, "cpu") {
        match req.cpu_cores {
            Some(c) => ResourceType::CpuCores(c),
            None => return Err(RequestError::MissingCpuCores),
        }
    } else if same_text(t, "memory") {
        match req.memory_mb {
            Some(mb) => {
                if mb > u64::MAX / MIB {
                    return Err(RequestError::MemoryTooLarge);
                }
                ResourceType::Memory(mb * MIB)
            },
            None => return Err(RequestError::MissingMemoryMb),
        }
    } else if same_text(t, "api") {
        match req.api_name {
            Some(n) => ResourceType::ApiQuota(n),
            None => return Err(RequestError::MissingApiName),
        }
    } else {
        return Err(RequestError::UnknownResourceType);
    };
    let secs = match req.duration_secs {
        Some(d) => d,
        None => default_duration_secs,
    };
    let duration_ms = if secs > u64::MAX / 1000 {
        u64::MAX
    } else {
        secs * 1000
    };
    let priority = match req.priority {
        Some(p) => p,
        None => 100,
    };
    Ok(AllocationRequest { component_id: req.component_id, resource_type, duration_ms, priority })
}

/// The resource a release request names; the quantity does not matter.
pub fn parse_release_type(resource_type: &str) -> (r: Option<ResourceType>)
    ensures
        resource_type@ == "gpu"@ ==> r == Some(ResourceType::Gpu),
        resource_type@ == "cpu"@ ==> r == Some(ResourceType::CpuCores(0)),
        resource_type@ == "memory"@ ==> r == Some(ResourceType::Memory(0)),
        resource_type@ == "api"@ ==> (r matches Some(ResourceType::ApiQuota(n)) && n@.len() == 0),
        resource_type@ != "gpu"@ && resource_type@ != "cpu"@ && resource_type@ != "memory"@
            && resource_type@ != "api"@ ==> r is None,
{
    proof {
        reveal_strlit("gpu");
        reveal_strlit("cpu");
        reveal_strlit("memory");
        reveal_strlit("api");
        assert("gpu"@[0] == 'g' && "cpu"@[0] == 'c' && "memory"@[0] == 'm' && "api"@[0] == 'a');
    }
    if same_text(resource_type, "gpu") {
        Some(ResourceType::Gpu)
    } else if same_text(resource_type, "cpu") {
        Some(ResourceType::CpuCores(0))
    } else if same_text(resource_type, "memory") {
        Some(ResourceType::Memory(0))
    } else if same_text(resource_type, "api") {
        Some(ResourceType::ApiQuota(String::new()))
    } else {
        None
    }
}

/// The id of a granted allocation: `component:type:seconds`.
pub fn allocation_id(component_id: &str, resource_type: &str, timestamp_secs: u64) -> (r: String)
    ensures
        r@ == component_id@ + ":"@ + resource_type@ + ":"@ + dec(timestamp_secs as nat),
{
    let mut r = String::from_str(component_id);
    r.append(":");
    r.append(resource_type);
    r.append(":");
    r.append(decimal(timestamp_secs).as_str());
    r
}

/// Counts of allocation attempts, in total and per resource type.
#[derive(Debug, Clone)]
pub struct AllocationStats {
    pub total_success: u64,
    pub total_failures: u64,
    pub success_by_type: Vec<(String, u64)>,
    pub failure_by_type: Vec<(String, u64)>,
}

/// The count listed for `t`, or 0.
pub open spec fn count_for(v: Seq<(String, u64)>, t: Seq<char>) -> u64 {
    if has_name(names_of(v), t) {
        v[index_of(names_of(v), t)].1
    } else {
        0
    }
}

pub open spec fn bump(n: u64) -> u64 {
    if n == u64::MAX {
        n
    } else {
        (n + 1) as u64
    }
}

fn bump_count(v: &mut Vec<(String, u64)>, t: &str)
    requires
        unique(names_of(old(v)@)),
    ensures
        unique(names_of(final(v)@)),
        count_for(final(v)@, t@) == bump(count_for(old(v)@, t@)),
        forall|u: Seq<char>| u != t@ ==> count_for(final(v)@, u) == count_for(old(v)@, u),
{
    let ghost before = v@;
    match find_name(v, t) {
        Some(i) => {
            proof {
                lemma_index_of(names_of(before), i as int);
            }
            let (name, n) = v.remove(i);
            let m = if n == u64::MAX {
                n
            } else {
                n + 1
            };
            v.insert(i, (name, m));
            assert(v@ =~= before.update(i as int, v@[i as int]));
            assert(names_of(v@) =~= names_of(before));
            proof {
                assert forall|u: Seq<char>| u != t@ implies count_for(v@, u) == count_for(before, u) by {
                    if has_name(names_of(before), u) {
                        let j = index_of(names_of(before), u);
                        lemma_index_of(names_of(before), j);
                        assert(v@[j] == before[j]);
                    }
                }
            }
        },
        None => {
            v.push((String::from_str(t), 1));
            let ghost after = v@;
            assert(names_of(after) =~= names_of(before).push(t@));
            assert forall|a: int, b: int|
                0 <= a < after.len() && 0 <= b < after.len() && names_of(after)[a] == names_of(
                    after,
                )[b] implies a == b by {
                let n = before.len() as int;
                if a < n && b < n {
                    assert(names_of(before)[a] == names_of(after)[a]);
                    assert(names_of(before)[b] == names_of(after)[b]);
                } else if a < n {
                    assert(names_of(before)[a] == t@);
                } else if b < n {
                    assert(names_of(before)[b] == t@);
                }
            }
            proof {
                lemma_index_of(names_of(after), before.len() as int);
                assert forall|u: Seq<char>| u != t@ implies count_for(after, u) == count_for(before, u) by {
                    if has_name(names_of(before), u) {
                        let j = index_of(names_of(before), u);
                        lemma_index_of(names_of(before), j);
                        assert(names_of(after)[j] == u);
                        lemma_index_of(names_of(after), j);
                    } else if has_name(names_of(after), u) {
                        let j = index_of(names_of(after), u);
                        assert(j < before.len());
                        assert(names_of(before)[j] == u);
                    }
                }
            }
        },
    }
}

/// `after` is `before` with one attempt on type `t` counted.
pub open spec fn recorded(before: AllocationStats, after: AllocationStats, t: Seq<char>, success: bool) -> bool {
    &&& (success ==> after.total_success == bump(before.total_success)
        && after.total_failures == before.total_failures
        && after.failure_by_type == before.failure_by_type
        && count_for(after.success_by_type@, t) == bump(count_for(before.success_by_type@, t)))
    &&& (!success ==> after.total_failures == bump(before.total_failures)
        && after.total_success == before.total_success
        && after.success_by_type == before.success_by_type
        && count_for(after.failure_by_type@, t) == bump(count_for(before.failure_by_type@, t)))
    &&& forall|u: Seq<char>|
        u != t ==> count_for(after.success_by_type@, u) == count_for(before.success_by_type@, u)
            && count_for(after.failure_by_type@, u) == count_for(before.failure_by_type@, u)
}

impl AllocationStats {
    pub closed spec fn wf(&self) -> bool {
        unique(names_of(self.success_by_type@)) && unique(names_of(self.failure_by_type@))
    }

    /// No attempt counted yet.
    pub fn new() -> (r: Self)
        ensures
            r.wf(),
            r.total_success == 0,
            r.total_failures == 0,
            forall|t: Seq<char>|
                count_for(r.success_by_type@, t) == 0 && count_for(r.failure_by_type@, t) == 0,
    {
        let r = AllocationStats {
            total_success: 0,
            total_failures: 0,
            success_by_type: Vec::new(),
            failure_by_type: Vec::new(),
        };
        assert(names_of(r.success_by_type@) =~= Seq::empty());
        assert(names_of(r.failure_by_type@) =~= Seq::empty());
        r
    }

    /// Counts one attempt on `resource_type` (counts stop at their maximum).
    pub fn record(&mut self, resource_type: &str, success: bool)
        requires
            old(self).wf(),
        ensures
            final(self).wf(),
            recorded(*old(self), *final(self), resource_type@, success),
    {
        if success {
            if self.total_success < u64::MAX {
                self.total_success = self.total_success + 1;
            }
            bump_count(&mut self.success_by_type, resource_type);
        } else {
            if self.total_failures < u64::MAX {
                self.total_failures = self.total_failures + 1;
            }
            bump_count(&mut self.failure_by_type, resource_type);
        }
    }
}

/// How an allocation request was answered.
#[derive(Debug, Clone, Copy, PartialEq, Eq, Structural)]
pub enum AllocateStatus {
    Granted,
    /// The request lacks a parameter or names an unknown type.
    BadRequest,
    /// The resource is taken or already held.
    Conflict,
    /// The component's rate limit is spent.
    TooManyRequests,
}

/// The reply to `req` at time `now`, with the coordinator going from
/// `before` to `after`: the rate limit is taken first, then the request is
/// read, then the broker decides and the attempt is counted.
pub open spec fn allocate_reply(
    before: Coordinator,
    after: Coordinator,
    req: AllocateRequest,
    now: u64,
    stamp_secs: u64,
    r: (AllocateStatus, AllocateResponse),
) -> bool {
    exists|limited: Result<(), QuotaError>|
        tier_take_outcome(before.limiter(), after.limiter(), req.component_id@, 1, now as nat, limited)
        && (limited is Err ==> {
            &&& r.0 == AllocateStatus::TooManyRequests
            &&& !r.1.success && r.1.allocation_id is None
            &&& after.allocator() == before.allocator()
            &&& after.stats() == before.stats()
        }) && (limited is Ok ==> exists|p: Result<AllocationRequest, RequestError>|
            parse_outcome(req, before.default_duration(), p) && match p {
                Err(e) => {
                    &&& r.0 == AllocateStatus::BadRequest
                    &&& !r.1.success && r.1.allocation_id is None
                    &&& r.1.message@ == request_error_text(e)
                    &&& after.allocator() == before.allocator()
                    &&& after.stats() == before.stats()
                },
                Ok(a) => exists|granted: Result<(), AllocError>|
                    allocation_outcome(before.allocator(), after.allocator(), a, now, granted)
                    && recorded(before.stats(), after.stats(), req.resource_type@, granted is Ok)
                    && match granted {
                        Ok(()) => r.0 == AllocateStatus::Granted && r.1.success
                            && (r.1.allocation_id matches Some(id) && id@ == req.component_id@
                            + ":"@ + req.resource_type@ + ":"@ + dec(stamp_secs as nat)),
                        Err(e) => r.0 == AllocateStatus::Conflict && !r.1.success
                            && r.1.allocation_id is None && r.1.message@ == alloc_error_text(e),
                    },
            })
}

/// The kind a release request names.
pub open spec fn release_kind(t: Seq<char>) -> Option<ResourceKind> {
    if t == "gpu"@ {
        Some(ResourceKind::Gpu)
    } else if t == "cpu"@ {
        Some(ResourceKind::Cpu)
    } else if t == "memory"@ {
        Some(ResourceKind::Memory)
    } else if t == "api"@ {
        Some(ResourceKind::Api)
    } else {
        None
    }
}

/// The coordinator's state: the broker, the per-client rate limits, and the
/// attempt counts.
pub struct Coordinator {
    allocator: ResourceAllocator,
    limiter: MultiTierRateLimiter,
    stats: AllocationStats,
    default_duration_secs: u64,
    /// The monotonic clock reading that lease and quota times are counted from.
    epoch: std::time::Instant,
}

impl Coordinator {
    pub closed spec fn allocator(&self) -> ResourceAllocator {
        self.allocator
    }

    pub closed spec fn limiter(&self) -> MultiTierRateLimiter {
        self.limiter
    }

    pub closed spec fn stats(&self) -> AllocationStats {
        self.stats
    }

    pub closed spec fn default_duration(&self) -> u64 {
        self.default_duration_secs
    }

    pub closed spec fn wf(&self) -> bool {
        self.allocator.wf() && self.limiter.wf() && self.stats.wf()
    }

    /// A coordinator over a broker and rate limits, with no attempt counted.
    pub fn new(allocator: ResourceAllocator, limiter: MultiTierRateLimiter, default_duration_secs: u64) -> (r: Self)
        requires
            allocator.wf(),
            limiter.wf(),
        ensures
            r.wf(),
            r.allocator() == allocator,
            r.limiter() == limiter,
            r.stats().total_success == 0 && r.stats().total_failures == 0,
            r.default_duration() == default_duration_secs,
    {
        Coordinator {
            allocator,
            limiter,
            stats: AllocationStats::new(),
            default_duration_secs,
            epoch: instant_now(),
        }
    }

    /// Answers an allocation request at time `now`: the component's rate limit
    /// first (one token), then the request's parameters, then the broker; each
    /// attempt on the broker is counted.
    pub fn handle_allocate_at(&mut self, req: AllocateRequest, now: u64, stamp_secs: u64) -> (r: (
        AllocateStatus,
        AllocateResponse,
    ))
        requires
            old(self).wf(),
        ensures
            final(self).wf(),
            final(self).default_duration() == old(self).default_duration(),
            allocate_reply(*old(self), *final(self), req, now, stamp_secs, r),
    {
        let limited = self.limiter.try_acquire_at(req.component_id.as_str(), 1, now);
        assert(tier_take_outcome(old(self).limiter(), self.limiter(), req.component_id@, 1, now as nat, limited));
        if limited.is_err() {
            let resp = AllocateResponse {
                success: false,
                message: String::from_str("Rate limit exceeded"),
                allocation_id: None,
            };
            return (AllocateStatus::TooManyRequests, resp);
        }
        let component_id = req.component_id.clone();
        let kind = req.resource_type.clone();
        let ghost original = req;
        let parsed = parse_allocate_request(req, self.default_duration_secs);
        let ghost parsed_g = parsed;
        assert(parse_outcome(original, old(self).default_duration(), parsed));
        let alloc = match parsed {
            Ok(a) => a,
            Err(e) => {
                let resp = AllocateResponse { success: false, message: e.message(), allocation_id: None };
                return (AllocateStatus::BadRequest, resp);
            },
        };
        let ghost wanted = alloc;
        let granted = self.allocator.allocate_at(alloc, now);
        assert(allocation_outcome(old(self).allocator(), self.allocator(), wanted, now, granted));
        let ok = granted.is_ok();
        self.stats.record(kind.as_str(), ok);
        assert(recorded(old(self).stats(), self.stats(), original.resource_type@, granted is Ok));
        let r = match granted {
            Ok(()) => {
                let id = allocation_id(component_id.as_str(), kind.as_str(), stamp_secs);
                let resp = AllocateResponse {
                    success: true,
                    message: String::from_str("Resource allocated successfully"),
                    allocation_id: Some(id),
                };
                (AllocateStatus::Granted, resp)
            },
            Err(e) => {
                let resp = AllocateResponse { success: false, message: e.message(), allocation_id: None };
                (AllocateStatus::Conflict, resp)
            },
        };
        assert(allocation_outcome(old(self).allocator(), self.allocator(), wanted, now, granted)
            && recorded(old(self).stats(), self.stats(), original.resource_type@, granted is Ok)
            && match granted {
            Ok(()) => r.0 == AllocateStatus::Granted && r.1.success && (r.1.allocation_id matches Some(
                id,
            ) && id@ == original.component_id@ + ":"@ + original.resource_type@ + ":"@ + dec(
                stamp_secs as nat,
            )),
            Err(e) => r.0 == AllocateStatus::Conflict && !r.1.success && r.1.allocation_id is None
                && r.1.message@ == alloc_error_text(e),
        });
        assert(parsed_g == Ok::<AllocationRequest, RequestError>(wanted));
        assert(tier_take_outcome(old(self).limiter(), self.limiter(), original.component_id@, 1, now as nat, limited));
        r
    }

    /// Answers an allocation request now.
    pub fn handle_allocate(&mut self, req: AllocateRequest) -> (r: (AllocateStatus, AllocateResponse))
        requires
            old(self).wf(),
        ensures
            final(self).wf(),
            final(self).default_duration() == old(self).default_duration(),
            exists|now: u64, stamp_secs: u64| allocate_reply(*old(self), *final(self), req, now, stamp_secs, r),
    {
        let now = millis_since(&self.epoch);
        let stamp_secs = now_ms() / 1000;
        let ghost g = req;
        let r = self.handle_allocate_at(req, now, stamp_secs);
        assert(allocate_reply(*old(self), *self, g, now, stamp_secs, r));
        r
    }

    /// Releases the lease a request names; false when its type is unknown.
    pub fn handle_release(&mut self, req: &ReleaseRequest) -> (r: bool)
        requires
            old(self).wf(),
        ensures
            final(self).wf(),
            r == (release_kind(req.resource_type@) is Some),
            final(self).limiter() == old(self).limiter(),
            final(self).stats() == old(self).stats(),
            final(self).default_duration() == old(self).default_duration(),
            !r ==> final(self).allocator() == old(self).allocator(),
            r ==> final(self).allocator().leases() == keep(
                old(self).allocator().leases(),
                not_held(req.component_id@, release_kind(req.resource_type@).unwrap()),
            ),
            r ==> final(self).allocator().cpu_capacity() == old(self).allocator().cpu_capacity()
                && final(self).allocator().memory_capacity() == old(self).allocator().memory_capacity()
                && forall|n: Seq<char>|
                final(self).allocator().api_bucket(n) == old(self).allocator().api_bucket(n),
    {
        proof {
            reveal_strlit("gpu");
            reveal_strlit("cpu");
            reveal_strlit("memory");
            reveal_strlit("api");
            assert("gpu"@[0] == 'g' && "cpu"@[0] == 'c' && "memory"@[0] == 'm' && "api"@[0] == 'a');
        }
        match parse_release_type(req.resource_type.as_str()) {
            Some(t) => {
                self.allocator.release(req.component_id.as_str(), &t);
                true
            },
            None => false,
        }
    }

    /// The broker.
    /// Utilization now, on the clock the coordinator's leases are timed by.
    pub fn usage(&self) -> (r: ResourceUsage)
        requires
            self.wf(),
        ensures
            r.cpu_capacity == self.allocator().cpu_capacity(),
            r.memory_capacity == self.allocator().memory_capacity(),
            exists|now: u64|
                r.cpu_used == used(live(self.allocator().leases(), now), ResourceKind::Cpu)
                    && r.memory_used == used(live(self.allocator().leases(), now), ResourceKind::Memory),
    {
        let now = millis_since(&self.epoch);
        self.allocator.usage_at(now)
    }

    pub fn allocator_ref(&self) -> (r: &ResourceAllocator)
        ensures
            *r == self.allocator(),
    {
        &self.allocator
    }

    /// The attempt counts.
    pub fn stats_ref(&self) -> (r: &AllocationStats)
        ensures
            *r == self.stats(),
    {
        &self.stats
    }
}

} // verus!
