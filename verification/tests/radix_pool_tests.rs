use chim_compiler::radix_pool::{LifetimeAwarePool, RadixMemoryPool};
use chim_compiler::semantic::Lifetime;

#[test]
fn test_tiny_allocation() {
    let mut pool = RadixMemoryPool::new();
    for size in 1..=16 {
        let ptr = pool.allocate(size);
        assert!(!ptr.as_ptr().is_null());
        pool.deallocate(ptr, size);
    }
    assert_eq!(pool.stats().allocation_count, 16);
    assert_eq!(pool.stats().deallocation_count, 16);
}

#[test]
fn test_small_allocation() {
    let mut pool = RadixMemoryPool::new();
    let sizes = [20, 64, 128, 200, 256];
    for &size in &sizes {
        let ptr = pool.allocate(size);
        assert!(!ptr.as_ptr().is_null());
        pool.deallocate(ptr, size);
    }
    assert_eq!(pool.stats().allocation_count, sizes.len());
}

#[test]
fn test_medium_allocation() {
    let mut pool = RadixMemoryPool::new();
    let sizes = [512, 1024, 2048, 4096];
    for &size in &sizes {
        let ptr = pool.allocate(size);
        assert!(!ptr.as_ptr().is_null());
        pool.deallocate(ptr, size);
    }
    assert_eq!(pool.stats().allocation_count, sizes.len());
}

#[test]
fn test_cache_reuse() {
    let mut pool = RadixMemoryPool::new();
    let ptr1 = pool.allocate(64);
    pool.deallocate(ptr1, 64);
    let ptr2 = pool.allocate(64);
    pool.deallocate(ptr2, 64);
    assert!(pool.stats().cache_hits > 0);
}

#[test]
fn test_lifetime_aware_pool() {
    let mut pool = LifetimeAwarePool::new();
    let lifetime = Lifetime("test".to_string());
    for size in &[16, 32, 64, 128] {
        pool.allocate_with_lifetime(*size, &lifetime);
    }
    pool.release_lifetime(&lifetime);
    assert_eq!(pool.stats().allocation_count, 4);
    assert_eq!(pool.stats().deallocation_count, 4);
}

#[test]
fn test_batch_deallocate() {
    let mut pool = RadixMemoryPool::new();
    let mut ptrs = Vec::new();
    for size in &[16, 32, 64, 128] {
        let ptr = pool.allocate(*size);
        ptrs.push((ptr, *size));
    }
    pool.batch_deallocate(&ptrs);
    assert_eq!(pool.stats().deallocation_count, 4);
}

#[test]
fn released_block_is_handed_out_again() {
    let mut pool = RadixMemoryPool::new();
    let a = pool.allocate(18);
    let b = pool.allocate(19);
    assert_ne!(a, b);
    pool.deallocate(a, 18);
    // 18 and 20 bytes share the 20-byte class.
    let c = pool.allocate(20);
    assert_eq!(c, a);
    assert_eq!(pool.stats().cache_hits, 1);
    assert_eq!(pool.stats().cache_misses, 2);
}

#[test]
fn free_lists_are_last_in_first_out() {
    let mut pool = RadixMemoryPool::new();
    let a = pool.allocate(8);
    let b = pool.allocate(8);
    pool.deallocate(a, 8);
    pool.deallocate(b, 8);
    assert_eq!(pool.allocate(8), b);
    assert_eq!(pool.allocate(8), a);
}

#[test]
fn large_blocks_are_cached_by_exact_size() {
    let mut pool = RadixMemoryPool::new();
    let a = pool.allocate(5000);
    assert_eq!(pool.stats().total_allocated, 5056);
    pool.deallocate(a, 5000);
    let b = pool.allocate(5001);
    assert_ne!(b, a);
    let c = pool.allocate(5000);
    assert_eq!(c, a);
}

#[test]
fn counters_follow_allocations() {
    let mut pool = RadixMemoryPool::new();
    let a = pool.allocate(100);
    assert_eq!(pool.stats().current_used, 100);
    assert_eq!(pool.stats().total_allocated, 100);
    assert_eq!(pool.stats().peak_used, 100);
    pool.deallocate(a, 100);
    assert_eq!(pool.stats().current_used, 0);
    assert_eq!(pool.stats().total_deallocated, 100);
    pool.allocate(100);
    assert_eq!(pool.stats().peak_used, 100);
    pool.deallocate(a, 500);
    assert_eq!(pool.stats().current_used, 0);
}

#[test]
fn reset_clears_usage() {
    let mut pool = RadixMemoryPool::new();
    let a = pool.allocate(9000);
    pool.deallocate(a, 9000);
    pool.allocate(10);
    pool.reset();
    assert_eq!(pool.stats().current_used, 0);
    let b = pool.allocate(9000);
    assert_ne!(b, a);
}

#[test]
fn releasing_unknown_lifetime_changes_nothing() {
    let mut pool = LifetimeAwarePool::new();
    let a = Lifetime("a".to_string());
    let b = Lifetime("b".to_string());
    pool.allocate_with_lifetime(32, &a);
    pool.release_lifetime(&b);
    assert_eq!(pool.stats().deallocation_count, 0);
    pool.release_lifetime(&a);
    assert_eq!(pool.stats().deallocation_count, 1);
    pool.release_lifetime(&a);
    assert_eq!(pool.stats().deallocation_count, 1);
}
