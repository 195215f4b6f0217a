use jimbot::allocator::ResourceType;
use jimbot::clock::{AllocationTimer, ProcessingTimer};
use jimbot::coordinator::{
    allocation_id, parse_allocate_request, parse_release_type, AllocateRequest, AllocateStatus, AllocationStats,
    ReleaseRequest, RequestError,
};
use jimbot::rng::decimal;

fn req(t: &str) -> AllocateRequest {
    AllocateRequest {
        component_id: "comp".to_string(),
        resource_type: t.to_string(),
        duration_secs: None,
        priority: None,
        cpu_cores: None,
        memory_mb: None,
        api_name: None,
    }
}

#[test]
fn gpu_request_takes_defaults() {
    let a = parse_allocate_request(req("gpu"), 300).unwrap();
    assert!(matches!(a.resource_type, ResourceType::Gpu));
    assert_eq!(a.duration_ms, 300_000);
    assert_eq!(a.priority, 100);
    assert_eq!(a.component_id, "comp");
}

#[test]
fn typed_requests_need_their_parameter() {
    assert_eq!(parse_allocate_request(req("cpu"), 1).err(), Some(RequestError::MissingCpuCores));
    assert_eq!(parse_allocate_request(req("memory"), 1).err(), Some(RequestError::MissingMemoryMb));
    assert_eq!(parse_allocate_request(req("api"), 1).err(), Some(RequestError::MissingApiName));
    assert_eq!(parse_allocate_request(req("disk"), 1).err(), Some(RequestError::UnknownResourceType));

    let mut m = req("memory");
    m.memory_mb = Some(2);
    m.duration_secs = Some(60);
    m.priority = Some(7);
    let a = parse_allocate_request(m, 1).unwrap();
    assert!(matches!(a.resource_type, ResourceType::Memory(2_097_152)));
    assert_eq!((a.duration_ms, a.priority), (60_000, 7));

    let mut big = req("memory");
    big.memory_mb = Some(u64::MAX);
    assert_eq!(parse_allocate_request(big, 1).err(), Some(RequestError::MemoryTooLarge));

    let mut c = req("cpu");
    c.cpu_cores = Some(3);
    assert!(matches!(parse_allocate_request(c, 1).unwrap().resource_type, ResourceType::CpuCores(3)));

    let mut api = req("api");
    api.api_name = Some("assistant".to_string());
    match parse_allocate_request(api, 1).unwrap().resource_type {
        ResourceType::ApiQuota(n) => assert_eq!(n, "assistant"),
        other => panic!("unexpected {:?}", other),
    }
}

#[test]
fn release_types() {
    assert!(matches!(parse_release_type("gpu"), Some(ResourceType::Gpu)));
    assert!(matches!(parse_release_type("cpu"), Some(ResourceType::CpuCores(0))));
    assert!(matches!(parse_release_type("memory"), Some(ResourceType::Memory(0))));
    assert!(matches!(parse_release_type("api"), Some(ResourceType::ApiQuota(_))));
    assert!(parse_release_type("GPU").is_none());
}

#[test]
fn allocation_ids_and_decimals() {
    assert_eq!(allocation_id("c1", "gpu", 1700000000), "c1:gpu:1700000000");
    assert_eq!(decimal(0), "0");
    assert_eq!(decimal(u64::MAX), u64::MAX.to_string());
}

#[test]
fn stats_count_by_type() {
    let mut stats = AllocationStats::new();
    stats.record("gpu", true);
    stats.record("gpu", false);
    stats.record("cpu", true);
    assert_eq!(stats.total_success, 2);
    assert_eq!(stats.total_failures, 1);
    assert_eq!(stats.success_by_type, vec![("gpu".to_string(), 1), ("cpu".to_string(), 1)]);
    assert_eq!(stats.failure_by_type, vec![("gpu".to_string(), 1)]);
}

#[test]
fn timers_keep_their_label() {
    let t = ProcessingTimer::new("GAME_STATE".to_string());
    let (label, _ms) = t.finish();
    assert_eq!(label, "GAME_STATE");
    let a = AllocationTimer::new("gpu");
    let (label, _ms) = a.record();
    assert_eq!(label, "gpu");
}

#[test]
fn test_metrics_recording() {
    let mut stats = AllocationStats::new();

    stats.record("gpu", true);
    stats.record("gpu", false);
    stats.record("cpu", true);

    assert_eq!(stats.total_success, 2);
    assert_eq!(stats.total_failures, 1);
    let total = stats.total_success + stats.total_failures;
    assert_eq!(stats.total_success as f64 / total as f64, 2.0 / 3.0);
}

#[test]
fn test_allocation_timer() {
    let timer = AllocationTimer::new("gpu");
    let start = std::time::Instant::now();
    while start.elapsed().as_millis() < 10 {}
    let (label, ms) = timer.record();
    assert_eq!(label, "gpu");
    assert!(ms >= 10);
}

fn coordinator(calls_per_hour: u32) -> jimbot::coordinator::Coordinator {
    let allocator = jimbot::allocator::ResourceAllocator::new(4, 1024 * 1024 * 1024);
    let limiter = jimbot::rate_limiter::RateLimiterBuilder::new("basic".to_string())
        .add_basic_tier(calls_per_hour)
        .build();
    jimbot::coordinator::Coordinator::new(allocator, limiter, 60)
}

#[test]
fn test_allocate_gpu() {
    let mut c = coordinator(100);
    let mut r = req("gpu");
    r.component_id = "test_component".to_string();
    r.duration_secs = Some(60);
    r.priority = Some(100);
    let (status, body) = c.handle_allocate_at(r, 5_000, 1_700_000_000);
    assert_eq!(status, AllocateStatus::Granted);
    assert!(body.success);
    assert_eq!(body.allocation_id.as_deref(), Some("test_component:gpu:1700000000"));
}

#[test]
fn coordinator_answers_each_way() {
    // Clients without a tier of their own share the default tier's bucket.
    let mut c = coordinator(4);
    let (s1, _) = c.handle_allocate_at(req("gpu"), 0, 0);
    assert_eq!(s1, AllocateStatus::Granted);
    let mut other = req("gpu");
    other.component_id = "other".to_string();
    let (s2, b2) = c.handle_allocate_at(other, 10, 0);
    assert_eq!(s2, AllocateStatus::Conflict);
    assert_eq!(b2.message, "Resource capacity unavailable");
    let (s3, b3) = c.handle_allocate_at(req("cpu"), 20, 0);
    assert_eq!(s3, AllocateStatus::BadRequest);
    assert_eq!(b3.message, "CPU allocation requires cpu_cores parameter");
    let (s4, b4) = c.handle_allocate_at(req("gpu"), 30, 0);
    assert_eq!(s4, AllocateStatus::Conflict);
    assert_eq!(b4.message, "Component already holds this resource");
    let (s5, b5) = c.handle_allocate_at(req("gpu"), 40, 0);
    assert_eq!(s5, AllocateStatus::TooManyRequests);
    assert!(!b5.success);
    assert_eq!(c.stats_ref().total_success, 1);
    assert_eq!(c.stats_ref().total_failures, 2);

    assert!(c.handle_release(&ReleaseRequest { component_id: "comp".to_string(), resource_type: "gpu".to_string() }));
    assert!(!c.handle_release(&ReleaseRequest { component_id: "comp".to_string(), resource_type: "tpu".to_string() }));
    // A quarter of an hour later one call is back.
    let mut again = req("gpu");
    again.component_id = "other".to_string();
    assert_eq!(c.handle_allocate_at(again, 900_040, 0).0, AllocateStatus::Granted);
}
