use jimbot::allocator::{AllocError, AllocationRequest, ResourceAllocator, ResourceType};

fn request(component: &str, resource_type: ResourceType, duration_ms: u64) -> AllocationRequest {
    AllocationRequest { component_id: component.to_string(), resource_type, duration_ms, priority: 100 }
}

#[test]
fn test_gpu_allocation() {
    let mut allocator = ResourceAllocator::new(4, 1024 * 1024 * 1024);

    // First allocation should succeed
    assert!(allocator.allocate_at(request("test_component", ResourceType::Gpu, 1000), 0).is_ok());

    // Second allocation should fail (only 1 GPU)
    assert!(allocator.allocate_at(request("test_component", ResourceType::Gpu, 1000), 0).is_err());

    // Two seconds later the first allocation has expired
    assert!(allocator.allocate_at(request("test_component2", ResourceType::Gpu, 1000), 2000).is_ok());
}

#[test]
fn test_cpu_allocation() {
    let mut allocator = ResourceAllocator::new(4, 1024 * 1024 * 1024);

    assert!(allocator.allocate_at(request("component1", ResourceType::CpuCores(2), 10_000), 0).is_ok());
    assert!(allocator.allocate_at(request("component2", ResourceType::CpuCores(2), 10_000), 0).is_ok());

    // Should fail to allocate 1 more (only 4 total)
    assert!(allocator.allocate_at(request("component3", ResourceType::CpuCores(1), 10_000), 0).is_err());
}

#[test]
fn gpu_is_exclusive_until_expiry() {
    let mut a = ResourceAllocator::new(4, 1024);
    assert_eq!(a.allocate_at(request("c1", ResourceType::Gpu, 1000), 0), Ok(()));
    assert_eq!(
        a.allocate_at(request("c2", ResourceType::Gpu, 1000), 0),
        Err(AllocError::CapacityUnavailable)
    );
    assert_eq!(
        a.allocate_at(request("c2", ResourceType::Gpu, 1000), 999),
        Err(AllocError::CapacityUnavailable)
    );
    // Expired at exactly acquired_at + duration.
    assert_eq!(a.allocate_at(request("c3", ResourceType::Gpu, 1000), 1100), Ok(()));
    assert!(a.usage_at(1100).gpu_in_use);
    assert!(!a.usage_at(2100).gpu_in_use);
}

#[test]
fn counted_cpu_scenario() {
    let mut a = ResourceAllocator::new(4, 1024);
    assert_eq!(a.allocate_at(request("c1", ResourceType::CpuCores(2), 5000), 0), Ok(()));
    assert_eq!(a.allocate_at(request("c2", ResourceType::CpuCores(2), 5000), 0), Ok(()));
    assert_eq!(
        a.allocate_at(request("c3", ResourceType::CpuCores(1), 5000), 0),
        Err(AllocError::CapacityUnavailable)
    );
    let u = a.usage_at(0);
    assert_eq!((u.cpu_used, u.cpu_capacity), (4, 4));
    assert_eq!(a.usage_at(5000).cpu_used, 0);
}

#[test]
fn same_component_and_kind_is_already_held() {
    let mut a = ResourceAllocator::new(8, 1024);
    assert_eq!(a.allocate_at(request("c1", ResourceType::CpuCores(1), 5000), 0), Ok(()));
    assert_eq!(
        a.allocate_at(request("c1", ResourceType::CpuCores(1), 5000), 10),
        Err(AllocError::AlreadyHeld)
    );
    // Another kind is a separate lease.
    assert_eq!(a.allocate_at(request("c1", ResourceType::Memory(512), 5000), 10), Ok(()));
}

#[test]
fn memory_is_counted_in_bytes() {
    let mut a = ResourceAllocator::new(4, 1000);
    assert_eq!(a.allocate_at(request("m1", ResourceType::Memory(600), 5000), 0), Ok(()));
    assert_eq!(
        a.allocate_at(request("m2", ResourceType::Memory(401), 5000), 0),
        Err(AllocError::CapacityUnavailable)
    );
    assert_eq!(a.allocate_at(request("m2", ResourceType::Memory(400), 5000), 0), Ok(()));
    let u = a.usage_at(1);
    assert_eq!((u.memory_used, u.memory_capacity), (1000, 1000));
}

#[test]
fn release_frees_and_is_idempotent() {
    let mut a = ResourceAllocator::new(4, 1024);
    assert_eq!(a.allocate_at(request("c1", ResourceType::CpuCores(4), 60_000), 0), Ok(()));
    assert_eq!(
        a.allocate_at(request("c2", ResourceType::CpuCores(1), 60_000), 0),
        Err(AllocError::CapacityUnavailable)
    );
    a.release("c1", &ResourceType::CpuCores(0));
    assert_eq!(a.usage_at(0).cpu_used, 0);
    a.release("c1", &ResourceType::CpuCores(0));
    assert_eq!(a.usage_at(0).cpu_used, 0);
    assert_eq!(a.allocate_at(request("c2", ResourceType::CpuCores(1), 60_000), 0), Ok(()));
    // Releasing another kind of the same component leaves this one.
    a.release("c2", &ResourceType::Gpu);
    assert_eq!(a.usage_at(0).cpu_used, 1);
}

#[test]
fn releasing_the_gpu_frees_it() {
    let mut a = ResourceAllocator::new(4, 1024);
    assert_eq!(a.allocate_at(request("c1", ResourceType::Gpu, 60_000), 0), Ok(()));
    a.release("c1", &ResourceType::Gpu);
    assert_eq!(a.allocate_at(request("c2", ResourceType::Gpu, 60_000), 1), Ok(()));
}

#[test]
fn zero_duration_is_a_no_op_success() {
    let mut a = ResourceAllocator::new(1, 1024);
    assert_eq!(a.allocate_at(request("z", ResourceType::CpuCores(1), 0), 0), Ok(()));
    assert_eq!(a.usage_at(0).cpu_used, 0);
    assert_eq!(a.allocate_at(request("c", ResourceType::CpuCores(1), 1000), 0), Ok(()));
    // Even when nothing is free, a zero-length request succeeds and takes nothing.
    assert_eq!(a.allocate_at(request("z", ResourceType::Gpu, 0), 0), Ok(()));
    assert_eq!(a.allocate_at(request("g", ResourceType::Gpu, 1000), 0), Ok(()));
}

#[test]
fn api_quota_is_a_bucket_of_one_hundred() {
    let mut a = ResourceAllocator::new(1, 1024);
    for i in 0..100 {
        assert_eq!(
            a.allocate_at(request(&format!("c{}", i), ResourceType::ApiQuota("assistant".to_string()), 1000), 0),
            Ok(())
        );
    }
    assert_eq!(
        a.allocate_at(request("c", ResourceType::ApiQuota("assistant".to_string()), 1000), 0),
        Err(AllocError::CapacityUnavailable)
    );
    // Another API has its own bucket.
    assert_eq!(a.allocate_at(request("c", ResourceType::ApiQuota("other".to_string()), 1000), 0), Ok(()));
    // One call comes back every 36 seconds.
    assert_eq!(
        a.allocate_at(request("c", ResourceType::ApiQuota("assistant".to_string()), 1000), 36_000),
        Ok(())
    );
}
