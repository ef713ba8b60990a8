use bit_bound::fixed_pool::FixedPool;

#[test]
fn spawn_fails_only_past_capacity() {
    let mut pool: FixedPool<u32, 4> = FixedPool::new(0);
    assert_eq!(pool.capacity(), 4);
    for i in 0..4 {
        assert_eq!(pool.spawn(i), Ok(()));
        assert!(pool.len() <= 4);
    }
    assert_eq!(pool.spawn(99), Err(()));
    assert_eq!(pool.len(), 4);
    assert_eq!(pool.as_slice(), &[0, 1, 2, 3]);
}

#[test]
fn despawn_moves_last_into_slot() {
    let mut pool: FixedPool<char, 8> = FixedPool::new(' ');
    for c in ['a', 'b', 'c', 'd'] {
        pool.spawn(c).unwrap();
    }
    pool.despawn(1);
    assert_eq!(pool.as_slice(), &['a', 'd', 'c']);
    assert_eq!(pool.len(), 3);
}

#[test]
fn despawn_last_and_out_of_range() {
    let mut pool: FixedPool<i32, 3> = FixedPool::new(0);
    pool.spawn(1).unwrap();
    pool.spawn(2).unwrap();
    pool.despawn(5);
    assert_eq!(pool.as_slice(), &[1, 2]);
    pool.despawn(1);
    assert_eq!(pool.as_slice(), &[1]);
    pool.despawn(0);
    assert_eq!(pool.len(), 0);
    pool.despawn(0);
    assert_eq!(pool.len(), 0);
}

#[test]
fn set_and_mut_slice_change_live_items() {
    let mut pool: FixedPool<i32, 3> = FixedPool::new(0);
    pool.spawn(1).unwrap();
    pool.spawn(2).unwrap();
    pool.set(0, 10);
    pool.set(2, 30);
    assert_eq!(pool.as_slice(), &[10, 2]);
    pool.as_mut_slice()[1] = 20;
    assert_eq!(pool.as_slice(), &[10, 20]);
    assert_eq!(pool.as_mut_slice().len(), 2);
}
