use vulcany::pool::{GpuResourcePool, PoolError};

#[test]
fn add_then_get_ref() {
    let mut pool: GpuResourcePool<u32> = GpuResourcePool::new();
    let h = pool.add(42).unwrap();
    assert_eq!(*pool.get_ref(h).unwrap(), 42);
    let h2 = pool.add(7).unwrap();
    assert_eq!(*pool.get_ref(h).unwrap(), 42);
    assert_eq!(*pool.get_ref(h2).unwrap(), 7);
}

#[test]
fn delete_returns_the_resource() {
    let mut pool: GpuResourcePool<String> = GpuResourcePool::new();
    let h = pool.add(String::from("texture")).unwrap();
    let back = pool.delete(h).unwrap();
    assert_eq!(back, "texture");
}

#[test]
fn stale_handle_rejected() {
    let mut pool: GpuResourcePool<u32> = GpuResourcePool::new();
    let h = pool.add(1).unwrap();
    pool.delete(h).unwrap();
    assert_eq!(pool.get_ref(h), Err(PoolError::InvalidHandle));
    assert_eq!(pool.delete(h), Err(PoolError::InvalidHandle));
}

#[test]
fn stale_handle_rejected_after_slot_reuse() {
    let mut pool: GpuResourcePool<u32> = GpuResourcePool::new();
    let h_old = pool.add(1).unwrap();
    pool.delete(h_old).unwrap();
    // The freed slot is reused for the next insertion, with a new version.
    let h_new = pool.add(2).unwrap();
    assert_ne!(h_old, h_new);
    assert_eq!(pool.get_ref(h_old), Err(PoolError::InvalidHandle));
    assert_eq!(pool.delete(h_old), Err(PoolError::InvalidHandle));
    assert_eq!(*pool.get_ref(h_new).unwrap(), 2);
}

#[test]
fn never_issued_handle_rejected() {
    let pool: GpuResourcePool<u32> = GpuResourcePool::new();
    assert_eq!(pool.get_ref(0), Err(PoolError::InvalidHandle));
    assert_eq!(pool.get_ref(u64::MAX), Err(PoolError::InvalidHandle));
    assert_eq!(pool.get_ref(1 << 32), Err(PoolError::InvalidHandle));
}

#[test]
fn live_handles_pairwise_distinct() {
    let mut pool: GpuResourcePool<usize> = GpuResourcePool::new();
    let mut handles = Vec::new();
    for i in 0..200 {
        handles.push(pool.add(i).unwrap());
    }
    for a in 0..handles.len() {
        for b in 0..a {
            assert_ne!(handles[a], handles[b]);
        }
        assert_eq!(*pool.get_ref(handles[a]).unwrap(), a);
    }
}

#[test]
fn handles_distinct_across_interleaved_delete() {
    let mut pool: GpuResourcePool<u32> = GpuResourcePool::new();
    let mut seen = Vec::new();
    for round in 0..50u32 {
        let h1 = pool.add(round).unwrap();
        let h2 = pool.add(round + 1000).unwrap();
        pool.delete(h1).unwrap();
        // Every handle ever returned is distinct from every other.
        seen.push(h1);
        seen.push(h2);
    }
    for a in 0..seen.len() {
        for b in 0..a {
            assert_ne!(seen[a], seen[b]);
        }
    }
}

#[test]
fn versions_do_not_wrap_around() {
    // Drive one slot through its whole version range: each reuse must keep
    // rejecting the previous handle, and the pool keeps accepting work even
    // once the slot's versions are exhausted.
    let mut pool: GpuResourcePool<u32> = GpuResourcePool::new();
    let first = pool.add(0).unwrap();
    let mut prev = first;
    for i in 0..70_000u32 {
        pool.delete(prev).unwrap();
        let h = pool.add(i).unwrap();
        assert_eq!(pool.get_ref(prev), Err(PoolError::InvalidHandle));
        assert_eq!(pool.get_ref(first), Err(PoolError::InvalidHandle));
        assert_eq!(*pool.get_ref(h).unwrap(), i);
        prev = h;
    }
}

#[test]
fn pool_capacity_is_bounded_and_recoverable() {
    // 65536 pages of 10 slots each.
    let mut pool: GpuResourcePool<u32> = GpuResourcePool::new();
    let mut last = 0;
    for i in 0..655_360u32 {
        last = pool.add(i).unwrap();
    }
    assert_eq!(pool.add(1), Err(PoolError::OutOfCapacity));
    // Deleting a resource makes room again.
    pool.delete(last).unwrap();
    let h = pool.add(9).unwrap();
    assert_eq!(*pool.get_ref(h).unwrap(), 9);
}
