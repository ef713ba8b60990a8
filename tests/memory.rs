use bit_bound::memory::{Arena, ArenaRegion, MemoryError, RuntimeMemory};

#[test]
fn alloc_bytes_aligns_and_bumps() {
    let mut arena: Arena<64> = Arena::new();
    let a = arena.alloc_bytes(&[1, 2, 3], 1).unwrap();
    assert_eq!(a.start, 0);
    assert_eq!(a.len, 3);
    assert_eq!(arena.used(), 3);
    let b = arena.alloc_bytes(&[9, 9, 9, 9], 8).unwrap();
    assert_eq!(b.start, 8);
    assert_eq!(arena.used(), 12);
    assert_eq!(arena.remaining(), 52);
    assert_eq!(arena.read(a, 2), Some(3));
    assert_eq!(arena.read(b, 0), Some(9));
    assert_eq!(arena.read(a, 3), None);
}

#[test]
fn out_of_memory_leaves_offset_unchanged() {
    let mut arena: Arena<16> = Arena::new();
    arena.alloc_bytes(&[0; 10], 1).unwrap();
    assert_eq!(arena.alloc_bytes(&[0; 7], 1), Err(MemoryError::OutOfMemory));
    assert_eq!(arena.used(), 10);
    // Alignment alone can push a request past the end.
    assert_eq!(arena.alloc_bytes(&[0; 1], 16), Err(MemoryError::OutOfMemory));
    assert_eq!(arena.used(), 10);
    let c = arena.alloc_bytes(&[5; 6], 1).unwrap();
    assert_eq!(c.start, 10);
    assert_eq!(arena.remaining(), 0);
}

#[test]
fn regions_are_disjoint_and_increasing() {
    let mut arena: Arena<256> = Arena::new();
    let mut last_end = 0usize;
    for (size, align) in [(3usize, 1usize), (5, 4), (1, 2), (16, 16), (7, 8)] {
        let data = vec![1u8; size];
        let r = arena.alloc_bytes(&data, align).unwrap();
        assert!(r.start >= last_end);
        assert_eq!(r.start % align, 0);
        last_end = r.start + r.len;
        assert_eq!(arena.used(), last_end);
    }
}

#[test]
fn reset_replays_like_a_fresh_arena() {
    let requests = [(10usize, 1usize), (4, 4), (30, 8), (40, 2), (1, 1)];
    let mut used: Arena<64> = Arena::new();
    used.alloc_bytes(&[7; 50], 1).unwrap();
    used.reset();
    assert_eq!(used.used(), 0);
    let mut fresh: Arena<64> = Arena::new();
    for (size, align) in requests {
        let data = vec![0u8; size];
        let a = used.alloc_bytes(&data, align).map(|r| (r.start, r.len));
        let b = fresh.alloc_bytes(&data, align).map(|r| (r.start, r.len));
        assert_eq!(a, b);
        assert_eq!(used.used(), fresh.used());
    }
}

#[test]
fn stale_region_is_refused_after_reset() {
    let mut arena: Arena<32> = Arena::new();
    let r = arena.alloc_bytes(&[4, 5], 1).unwrap();
    assert!(arena.write(r, 1, 6));
    assert_eq!(arena.read(r, 1), Some(6));
    arena.reset();
    assert_eq!(arena.read(r, 0), None);
    assert!(!arena.write(r, 0, 1));
    let forged = ArenaRegion { start: 0, len: 4, generation: r.generation + 1 };
    assert_eq!(arena.read(forged, 0), None);
}

#[test]
fn alloc_slice_is_zeroed_and_typed() {
    let mut arena: Arena<64> = Arena::new();
    let a = arena.alloc_bytes(&[0xff; 3], 1).unwrap();
    assert_eq!(a.start, 0);
    let s = arena.alloc_slice::<u32>(4).unwrap();
    assert_eq!(s.start, 4);
    assert_eq!(s.len, 16);
    for i in 0..16 {
        assert_eq!(arena.read(s, i), Some(0));
    }
    assert_eq!(arena.alloc_slice::<u64>(6), Err(MemoryError::OutOfMemory));
    assert_eq!(arena.used(), 20);
    assert_eq!(arena.alloc_slice::<u64>(usize::MAX), Err(MemoryError::OutOfMemory));
}

#[test]
fn runtime_memory_resets_only_the_frame_arena() {
    let mut memory = RuntimeMemory::new();
    assert_eq!(memory.global.capacity(), 256 * 1024);
    assert_eq!(memory.level.capacity(), 512 * 1024);
    assert_eq!(memory.frame.capacity(), 256 * 1024);
    memory.global.alloc_bytes(&[1; 8], 1).unwrap();
    memory.level.alloc_bytes(&[1; 4], 1).unwrap();
    memory.frame.alloc_bytes(&[1; 100], 1).unwrap();
    memory.end_frame();
    assert_eq!(memory.frame.used(), 0);
    assert_eq!(memory.global.used(), 8);
    assert_eq!(memory.level.used(), 4);
}
