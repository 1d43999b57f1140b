use router_analytics::memory_pool::{MAX_BUFFER_AGE_MS, MAX_BUFFER_IDLE_MS};
use router_analytics::{MemoryPool, PacketBuffer};

#[test]
fn test_memory_pool_creation() {
    let pool = MemoryPool::new(100, 1500);
    let stats = pool.get_stats();
    assert_eq!(stats.max_pool_size, 100);
    assert_eq!(stats.buffer_size, 1500);
    assert_eq!(stats.pool_size, 0);
}

#[test]
fn test_packet_allocation() {
    let mut pool = MemoryPool::new(10, 1500);

    let buffer = pool.get_packet(1000).unwrap();
    assert_eq!(buffer.size, 1000);
    assert_eq!(buffer.data.len(), 1500);

    let stats = pool.get_stats();
    assert_eq!(stats.total_allocations, 1);
    assert_eq!(stats.active_buffers, 1);
}

#[test]
fn test_packet_return() {
    let mut pool = MemoryPool::new(10, 1500);

    let buffer = pool.get_packet(1000).unwrap();
    pool.return_packet(buffer);

    let stats = pool.get_stats();
    assert_eq!(stats.pool_size, 1);
    assert_eq!(stats.total_deallocations, 1);
}

#[test]
fn test_pool_reuse() {
    let mut pool = MemoryPool::new(10, 1500);

    let buffer1 = pool.get_packet(1000).unwrap();
    let buffer_id1 = buffer1.id;
    pool.return_packet(buffer1);

    let buffer2 = pool.get_packet(1000).unwrap();
    let buffer_id2 = buffer2.id;

    // acquisition is first-fit over the pooled buffers: the buffer given
    // back is leased again, with its id
    assert_eq!(buffer_id1, buffer_id2);
    let stats = pool.get_stats();
    assert_eq!(stats.created_buffers, 1);
    assert_eq!(stats.pool_size, 0);
}

#[test]
fn test_pool_cleanup() {
    let mut pool = MemoryPool::new(10, 1500);

    for _ in 0..5 {
        let buffer = pool.get_packet(1000).unwrap();
        pool.return_packet(buffer);
    }

    // acquisition is first-fit over the pooled buffers, so the five
    // leases above all reuse the one buffer that went back to the pool
    let stats_before = pool.get_stats();
    assert_eq!(stats_before.pool_size, 1);

    pool.cleanup();

    let stats_after = pool.get_stats();
    // nothing has aged out, so the sweep keeps the pool as it was
    assert_eq!(stats_after.pool_size, stats_before.pool_size);
}

#[test]
fn reused_buffer_is_zeroed_and_keeps_its_storage() {
    let mut pool = MemoryPool::new(4, 64);
    let mut b = pool.get_packet_at(10, 0).unwrap();
    b.copy_from(&[7u8; 10], 1);
    assert_eq!(b.data(), &[7u8; 10][..]);
    pool.return_packet_at(b, 2);
    let again = pool.get_packet_at(32, 3).unwrap();
    assert_eq!(again.data.len(), 64);
    assert!(again.data.iter().all(|x| *x == 0));
    assert_eq!(again.size, 32);
    assert_eq!(pool.get_stats().created_buffers, 1);
}

#[test]
fn large_request_gets_its_own_size() {
    let mut pool = MemoryPool::new(4, 64);
    let b = pool.get_packet_at(100, 0).unwrap();
    assert_eq!(b.data.len(), 100);
    let small = pool.get_packet_at(8, 0).unwrap();
    assert_eq!(small.data.len(), 64);
}

#[test]
fn pool_never_exceeds_its_maximum() {
    let mut pool = MemoryPool::new(2, 64);
    let leased: Vec<PacketBuffer> = (0..5).map(|_| pool.get_packet_at(64, 0).unwrap()).collect();
    for b in leased {
        pool.return_packet_at(b, 1);
        assert!(pool.get_stats().pool_size <= 2);
    }
    assert_eq!(pool.get_stats().pool_size, 2);
    assert_eq!(pool.get_stats().total_deallocations, 5);
}

#[test]
fn aged_buffer_is_not_recycled() {
    let mut pool = MemoryPool::new(4, 64);
    let b = pool.get_packet_at(64, 0).unwrap();
    pool.return_packet_at(b, MAX_BUFFER_AGE_MS + 1);
    assert_eq!(pool.get_stats().pool_size, 0);
    assert_eq!(pool.get_stats().total_deallocations, 1);
}

#[test]
fn small_buffer_is_not_recycled() {
    let mut pool = MemoryPool::new(4, 64);
    let b = PacketBuffer::new_at(16, 9, 0);
    pool.return_packet_at(b, 0);
    assert_eq!(pool.get_stats().pool_size, 0);
}

#[test]
fn sweep_drops_only_aged_and_idle_buffers() {
    let mut pool = MemoryPool::new(4, 64);
    let old_buf = pool.get_packet_at(64, 0).unwrap();
    let young = pool.get_packet_at(64, MAX_BUFFER_AGE_MS).unwrap();
    pool.return_packet_at(old_buf, 10);
    pool.return_packet_at(young, MAX_BUFFER_AGE_MS);
    assert_eq!(pool.get_stats().pool_size, 2);
    pool.cleanup_at(MAX_BUFFER_AGE_MS + MAX_BUFFER_IDLE_MS);
    assert_eq!(pool.get_stats().pool_size, 1);
    pool.clear();
    assert_eq!(pool.get_stats().pool_size, 0);
}

#[test]
fn buffer_age_and_idle_checks() {
    let mut b = PacketBuffer::new_at(8, 1, 100);
    assert!(!b.is_expired(50, 150));
    assert!(b.is_expired(50, 151));
    b.resize(20, 200);
    assert_eq!(b.data.len(), 20);
    assert_eq!(b.size, 20);
    assert!(!b.is_stale(10, 210));
    assert!(b.is_stale(10, 211));
    assert!(!b.is_expired(0, 50));
}

#[test]
fn stats_percentages() {
    let mut pool = MemoryPool::new(4, 64);
    let b = pool.get_packet_at(64, 0).unwrap();
    pool.return_packet_at(b, 0);
    let b = pool.get_packet_at(64, 0).unwrap();
    pool.return_packet_at(b, 0);
    let stats = pool.get_stats();
    assert_eq!(stats.hit_rate(), 50);
    assert_eq!(stats.utilization(), 25);
}

#[test]
fn writes_through_data_mut_land_in_the_storage() {
    let mut b = PacketBuffer::new_at(8, 1, 0);
    b.resize(4, 1);
    {
        let view = b.data_mut(5);
        assert_eq!(view.len(), 4);
        view[0] = 0xab;
        view[3] = 0xcd;
    }
    assert_eq!(b.last_used, 5);
    assert_eq!(b.data, vec![0xab, 0, 0, 0xcd, 0, 0, 0, 0]);
    assert_eq!(b.data(), &[0xab, 0, 0, 0xcd][..]);
}
