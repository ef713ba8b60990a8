use vstd::prelude::*;

verus! {

/// Capacity in bytes of the arena that lives as long as the process.
pub const GLOBAL_ARENA_SIZE: usize = 256 * 1024;

/// Capacity in bytes of the arena that is recycled on level transitions.
pub const LEVEL_ARENA_SIZE: usize = 512 * 1024;

/// Capacity in bytes of the arena that is recycled once per rendered frame.
pub const FRAME_ARENA_SIZE: usize = 256 * 1024;

/// The smallest multiple of `align` that is not below `addr`.
pub open spec fn align_up_spec(addr: int, align: int) -> int {
    ((addr + align - 1) / align) * align
}

/// Where a bump allocation of `size` bytes aligned to `align` lands in an arena
/// of `cap` bytes whose offset is `offset`: `Some((start, end))`, or `None` when
/// the region would pass the end of the arena.
pub open spec fn bump(offset: int, cap: int, size: int, align: int) -> Option<(int, int)> {
    let start = align_up_spec(offset, align);
    if start + size <= cap {
        Some((start, start + size))
    } else {
        None
    }
}

/// The offset that follows one bump request.
pub open spec fn offset_after(offset: int, cap: int, size: int, align: int) -> int {
    match bump(offset, cap, size, align) {
        Some(r) => r.1,
        None => offset,
    }
}

/// The outcomes of a sequence of `(size, align)` requests made in order on an
/// arena of `cap` bytes whose offset starts at `offset`.
pub open spec fn run_requests(offset: int, cap: int, reqs: Seq<(int, int)>) -> Seq<
    Option<(int, int)>,
>
    decreases reqs.len(),
{
    if reqs.len() == 0 {
        Seq::empty()
    } else {
        let b = bump(offset, cap, reqs[0].0, reqs[0].1);
        seq![b].add(
            run_requests(offset_after(offset, cap, reqs[0].0, reqs[0].1), cap, reqs.drop_first()),
        )
    }
}

/// A request is well formed when its size is not negative and its alignment is positive.
pub open spec fn requests_wf(reqs: Seq<(int, int)>) -> bool {
    forall|i: int| 0 <= i < reqs.len() ==> reqs[i].0 >= 0 && reqs[i].1 > 0
}

proof fn lemma_align_up(o: int, a: int)
    requires
        o >= 0,
        a > 0,
    ensures
        0 <= o % a < a,
        align_up_spec(o, a) == (if o % a == 0 {
            o
        } else {
            o + (a - o % a)
        }),
{
    let q = o / a;
    let r = o % a;
    vstd::arithmetic::div_mod::lemma_fundamental_div_mod(o, a);
    if r == 0 {
        vstd::arithmetic::div_mod::lemma_fundamental_div_mod_converse(o + a - 1, a, q, a - 1);
    } else {
        assert((q + 1) * a == q * a + a) by (nonlinear_arith);
        vstd::arithmetic::div_mod::lemma_fundamental_div_mod_converse(o + a - 1, a, q + 1, r - 1);
    }
}

#[derive(Debug, Clone, Copy, PartialEq, Eq, Structural)]
pub enum MemoryError {
    /// The request does not fit in the bytes that remain.
    OutOfMemory,
}

/// A region handed out by an arena: `len` bytes from `start`, valid while the
/// arena's generation is still `generation` (a reset ends it).
#[derive(Debug, Clone, Copy, PartialEq, Eq, Structural)]
pub struct ArenaRegion {
    pub start: usize,
    pub len: usize,
    pub generation: u64,
}

/// A fixed buffer of `SIZE` bytes with a bump offset. Regions are never freed
/// one by one; `reset` recycles all of them at once and starts a new generation,
/// after which the regions handed out before are refused by `read` and `write`.
pub struct Arena<const SIZE: usize> {
    buffer: Vec<u8>,
    offset: usize,
    generation: u64,
}

impl<const SIZE: usize> Arena<SIZE> {
    /// The backing bytes are exactly `SIZE`, and the offset lies within them.
    pub open spec fn wf(&self) -> bool {
        self.spec_bytes().len() == SIZE && self.spec_offset() <= SIZE
    }

    /// The number of bytes handed out since the last reset.
    pub closed spec fn spec_offset(&self) -> nat {
        self.offset as nat
    }

    pub closed spec fn spec_generation(&self) -> u64 {
        self.generation
    }

    /// The arena's backing bytes.
    pub closed spec fn spec_bytes(&self) -> Seq<u8> {
        self.buffer@
    }

    /// A region is live when it was handed out in the current generation.
    pub open spec fn region_live(&self, r: ArenaRegion) -> bool {
        r.generation == self.spec_generation() && r.start + r.len <= self.spec_offset()
    }

    pub fn new() -> (r: Self)
        ensures
            r.wf(),
            r.spec_offset() == 0,
            r.spec_generation() == 0,
            r.spec_bytes() == Seq::new(SIZE as nat, |i: int| 0u8),
    {
        let mut buffer: Vec<u8> = Vec::with_capacity(SIZE);
        let mut i: usize = 0;
        while i < SIZE
            invariant
                i <= SIZE,
                buffer@ == Seq::new(i as nat, |k: int| 0u8),
            decreases SIZE - i,
        {
            buffer.push(0u8);
            i = i + 1;
            assert(buffer@ =~= Seq::new(i as nat, |k: int| 0u8));
        }
        Arena { buffer, offset: 0, generation: 0 }
    }

    /// The smallest multiple of `align` that is not below `addr`, or `None`
    /// when that multiple passes `limit`.
    fn align_up(addr: usize, align: usize, limit: usize) -> (r: Option<usize>)
        requires
            align > 0,
            addr <= limit,
        ensures
            r == (if align_up_spec(addr as int, align as int) <= limit {
                Some(align_up_spec(addr as int, align as int) as usize)
            } else {
                None
            }),
    {
        let rem = addr % align;
        proof {
            lemma_align_up(addr as int, align as int);
        }
        if rem == 0 {
            Some(addr)
        } else if align - rem > limit - addr {
            None
        } else {
            Some(addr + (align - rem))
        }
    }

    /// Reserves `size` bytes aligned to `align` and returns where they start,
    /// or `OutOfMemory` (offset untouched) when they do not fit.
    fn bump_alloc(&mut self, size: usize, align: usize) -> (r: Result<usize, MemoryError>)
        requires
            old(self).wf(),
            align > 0,
        ensures
            final(self).wf(),
            final(self).spec_generation() == old(self).spec_generation(),
            final(self).spec_bytes() == old(self).spec_bytes(),
            match r {
                Ok(start) => bump(old(self).spec_offset() as int, SIZE as int, size as int, align as int)
                    == Some((start as int, start + size)) && final(self).spec_offset() == start + size,
                Err(e) => e == MemoryError::OutOfMemory && bump(
                    old(self).spec_offset() as int,
                    SIZE as int,
                    size as int,
                    align as int,
                ) is None && final(self).spec_offset() == old(self).spec_offset(),
            },
    {
        let start = match Self::align_up(self.offset, align, SIZE) {
            Some(s) => s,
            None => {
                return Err(MemoryError::OutOfMemory);
            },
        };
        if size > SIZE - start {
            return Err(MemoryError::OutOfMemory);
        }
        self.offset = start + size;
        Ok(start)
    }

    /// Copies `value` into a fresh region aligned to `align`.
    pub fn alloc_bytes(&mut self, value: &[u8], align: usize) -> (r: Result<ArenaRegion, MemoryError>)
        requires
            old(self).wf(),
            align > 0,
        ensures
            final(self).wf(),
            alloc_outcome(
                old(self).spec_offset() as int,
                SIZE as int,
                value@.len() as int,
                align as int,
                r,
                final(self).spec_offset() as int,
            ),
            final(self).spec_generation() == old(self).spec_generation(),
            match r {
                Ok(reg) => {
                    &&& bump(
                        old(self).spec_offset() as int,
                        SIZE as int,
                        value@.len() as int,
                        align as int,
                    ) == Some((reg.start as int, reg.start + reg.len))
                    &&& reg.len == value@.len()
                    &&& reg.generation == old(self).spec_generation()
                    &&& final(self).spec_offset() == reg.start + reg.len
                    &&& final(self).spec_bytes() == old(self).spec_bytes().update_subrange_with(
                        reg.start as int,
                        value@,
                    )
                },
                Err(e) => {
                    &&& e == MemoryError::OutOfMemory
                    &&& bump(
                        old(self).spec_offset() as int,
                        SIZE as int,
                        value@.len() as int,
                        align as int,
                    ) is None
                    &&& final(self).spec_offset() == old(self).spec_offset()
                    &&& final(self).spec_bytes() == old(self).spec_bytes()
                },
            },
    {
        let n = value.len();
        let ghost before = *self;
        match self.bump_alloc(n, align) {
            Err(e) => {
                assert(self.buffer@ =~= before.buffer@);
                Err(e)
            },
            Ok(start) => {
                let mut i: usize = 0;
                while i < n
                    invariant
                        self.wf(),
                        i <= n,
                        n == value@.len(),
                        start + n <= self.offset,
                        self.offset == start + n,
                        bump(before.offset as int, SIZE as int, n as int, align as int) == Some(
                            (start as int, start + n),
                        ),
                        self.generation == before.generation,
                        self.buffer@ == before.buffer@.update_subrange_with(
                            start as int,
                            value@.subrange(0, i as int),
                        ),
                    decreases n - i,
                {
                    self.buffer.set(start + i, value[i]);
                    i = i + 1;
                    assert(self.buffer@ =~= before.buffer@.update_subrange_with(
                        start as int,
                        value@.subrange(0, i as int),
                    ));
                }
                assert(value@.subrange(0, n as int) =~= value@);
                Ok(ArenaRegion { start, len: n, generation: self.generation })
            },
        }
    }

    /// Reserves room for `count` values of `T`, aligned for `T`. The region is
    /// zero-filled, so it never shows bytes left from an earlier generation.
    pub fn alloc_slice<T>(&mut self, count: usize) -> (r: Result<ArenaRegion, MemoryError>)
        requires
            old(self).wf(),
        ensures
            final(self).wf(),
            alloc_outcome(
                old(self).spec_offset() as int,
                SIZE as int,
                count * vstd::layout::size_of::<T>(),
                vstd::layout::align_of::<T>() as int,
                r,
                final(self).spec_offset() as int,
            ),
            final(self).spec_generation() == old(self).spec_generation(),
            match r {
                Ok(reg) => {
                    &&& bump(
                        old(self).spec_offset() as int,
                        SIZE as int,
                        count * vstd::layout::size_of::<T>(),
                        vstd::layout::align_of::<T>() as int,
                    ) == Some((reg.start as int, reg.start + reg.len))
                    &&& reg.len == count * vstd::layout::size_of::<T>()
                    &&& reg.generation == old(self).spec_generation()
                    &&& final(self).spec_offset() == reg.start + reg.len
                    &&& final(self).spec_bytes() == old(self).spec_bytes().update_subrange_with(
                        reg.start as int,
                        Seq::new(reg.len as nat, |i: int| 0u8),
                    )
                },
                Err(e) => {
                    &&& e == MemoryError::OutOfMemory
                    &&& (count * vstd::layout::size_of::<T>() > usize::MAX || bump(
                        old(self).spec_offset() as int,
                        SIZE as int,
                        count * vstd::layout::size_of::<T>(),
                        vstd::layout::align_of::<T>() as int,
                    ) is None)
                    &&& final(self).spec_offset() == old(self).spec_offset()
                    &&& final(self).spec_bytes() == old(self).spec_bytes()
                },
            },
    {
        vstd::layout::layout_for_type_is_valid::<T>();
        let elem = core::mem::size_of::<T>();
        let align = core::mem::align_of::<T>();
        assert(align > 0);
        let size = match count.checked_mul(elem) {
            Some(s) => s,
            None => {
                return Err(MemoryError::OutOfMemory);
            },
        };
        let ghost before = *self;
        match self.bump_alloc(size, align) {
            Err(e) => {
                assert(self.buffer@ =~= before.buffer@);
                Err(e)
            },
            Ok(start) => {
                let mut i: usize = 0;
                while i < size
                    invariant
                        self.wf(),
                        i <= size,
                        self.offset == start + size,
                        size == count * vstd::layout::size_of::<T>(),
                        align == vstd::layout::align_of::<T>(),
                        bump(before.offset as int, SIZE as int, size as int, align as int) == Some(
                            (start as int, start + size),
                        ),
                        self.generation == before.generation,
                        self.buffer@ == before.buffer@.update_subrange_with(
                            start as int,
                            Seq::new(i as nat, |k: int| 0u8),
                        ),
                    decreases size - i,
                {
                    self.buffer.set(start + i, 0u8);
                    i = i + 1;
                    assert(self.buffer@ =~= before.buffer@.update_subrange_with(
                        start as int,
                        Seq::new(i as nat, |k: int| 0u8),
                    ));
                }
                Ok(ArenaRegion { start, len: size, generation: self.generation })
            },
        }
    }

    /// Recycles every region at once. The bytes stay as they are; the regions
    /// handed out before are refused from now on.
    pub fn reset(&mut self)
        requires
            old(self).wf(),
        ensures
            final(self).wf(),
            final(self).spec_offset() == 0,
            final(self).spec_generation() == old(self).spec_generation().wrapping_add(1),
            final(self).spec_bytes() == old(self).spec_bytes(),
    {
        self.offset = 0;
        self.generation = self.generation.wrapping_add(1);
    }

    pub fn used(&self) -> (r: usize)
        ensures
            r == self.spec_offset(),
    {
        self.offset
    }

    pub fn remaining(&self) -> (r: usize)
        requires
            self.wf(),
        ensures
            r == SIZE - self.spec_offset(),
    {
        SIZE - self.offset
    }

    pub fn capacity(&self) -> (r: usize)
        ensures
            r == SIZE,
    {
        SIZE
    }

    /// Byte `i` of a live region, or `None` when the region is stale or `i` is
    /// past its end.
    pub fn read(&self, region: ArenaRegion, i: usize) -> (r: Option<u8>)
        requires
            self.wf(),
        ensures
            r == (if self.region_live(region) && i < region.len {
                Some(self.spec_bytes()[region.start + i])
            } else {
                None
            }),
    {
        if region.generation != self.generation || region.start > self.offset || region.len
            > self.offset - region.start || i >= region.len {
            None
        } else {
            Some(self.buffer[region.start + i])
        }
    }

    /// Stores `v` as byte `i` of a live region; returns whether it did.
    pub fn write(&mut self, region: ArenaRegion, i: usize, v: u8) -> (r: bool)
        requires
            old(self).wf(),
        ensures
            final(self).wf(),
            r == (old(self).region_live(region) && i < region.len),
            final(self).spec_offset() == old(self).spec_offset(),
            final(self).spec_generation() == old(self).spec_generation(),
            final(self).spec_bytes() == (if r {
                old(self).spec_bytes().update(region.start + i, v)
            } else {
                old(self).spec_bytes()
            }),
    {
        if region.generation != self.generation || region.start > self.offset || region.len
            > self.offset - region.start || i >= region.len {
            false
        } else {
            self.buffer.set(region.start + i, v);
            true
        }
    }
}

/// Bump law: along any sequence of requests made in order, each region that
/// is obtained lies inside the arena at or after the starting offset, and ends
/// no later than any region obtained after it begins. The offset never moves
/// back, so the regions are pairwise disjoint.
pub proof fn lemma_bump_regions_disjoint(offset: int, cap: int, reqs: Seq<(int, int)>)
    requires
        0 <= offset <= cap,
        requests_wf(reqs),
    ensures
        run_requests(offset, cap, reqs).len() == reqs.len(),
        forall|i: int|
            0 <= i < reqs.len() && (#[trigger] run_requests(offset, cap, reqs)[i]) is Some ==> {
                let r = run_requests(offset, cap, reqs)[i]->Some_0;
                offset <= r.0 <= r.1 <= cap
            },
        forall|i: int, j: int|
            0 <= i < j < reqs.len() && (#[trigger] run_requests(offset, cap, reqs)[i]) is Some
                && (#[trigger] run_requests(offset, cap, reqs)[j]) is Some ==> run_requests(
                offset,
                cap,
                reqs,
            )[i]->Some_0.1 <= run_requests(offset, cap, reqs)[j]->Some_0.0,
    decreases reqs.len(),
{
    if reqs.len() > 0 {
        let size = reqs[0].0;
        let align = reqs[0].1;
        let next = offset_after(offset, cap, size, align);
        let tail = reqs.drop_first();
        lemma_align_up(offset, align);
        assert(requests_wf(tail)) by {
            assert forall|i: int| 0 <= i < tail.len() implies tail[i].0 >= 0 && tail[i].1 > 0 by {
                assert(tail[i] == reqs[i + 1]);
            }
        }
        lemma_bump_regions_disjoint(next, cap, tail);
        let all = run_requests(offset, cap, reqs);
        let rest = run_requests(next, cap, tail);
        assert(all == seq![bump(offset, cap, size, align)].add(rest));
        assert forall|i: int| 0 < i < all.len() implies all[i] == rest[i - 1] by {}
    }
}

/// What one call of `alloc_bytes` or `alloc_slice` that asks for `size` bytes
/// aligned to `align`, on an arena of `cap` bytes at offset `offset`, returns and
/// leaves: the region that `bump` gives and its end as the new offset, or
/// `OutOfMemory` with the offset kept.
pub open spec fn alloc_outcome(
    offset: int,
    cap: int,
    size: int,
    align: int,
    r: Result<ArenaRegion, MemoryError>,
    next: int,
) -> bool {
    match r {
        Ok(reg) => bump(offset, cap, size, align) == Some((reg.start as int, reg.start + reg.len))
            && next == reg.start + reg.len,
        Err(e) => e == MemoryError::OutOfMemory && bump(offset, cap, size, align) is None && next
            == offset,
    }
}

proof fn lemma_replay_offsets(
    cap: int,
    reqs: Seq<(int, int)>,
    offs1: Seq<int>,
    res1: Seq<Result<ArenaRegion, MemoryError>>,
    offs2: Seq<int>,
    res2: Seq<Result<ArenaRegion, MemoryError>>,
    k: int,
)
    requires
        offs1.len() == reqs.len() + 1,
        offs2.len() == reqs.len() + 1,
        res1.len() == reqs.len(),
        res2.len() == reqs.len(),
        offs1[0] == offs2[0],
        forall|i: int|
            0 <= i < reqs.len() ==> #[trigger] alloc_outcome(
                offs1[i],
                cap,
                reqs[i].0,
                reqs[i].1,
                res1[i],
                offs1[i + 1],
            ),
        forall|i: int|
            0 <= i < reqs.len() ==> #[trigger] alloc_outcome(
                offs2[i],
                cap,
                reqs[i].0,
                reqs[i].1,
                res2[i],
                offs2[i + 1],
            ),
        0 <= k <= reqs.len(),
    ensures
        offs1[k] == offs2[k],
    decreases k,
{
    if k > 0 {
        lemma_replay_offsets(cap, reqs, offs1, res1, offs2, res2, k - 1);
        let i = k - 1;
        assert(alloc_outcome(offs1[i], cap, reqs[i].0, reqs[i].1, res1[i], offs1[i + 1]));
        assert(alloc_outcome(offs2[i], cap, reqs[i].0, reqs[i].1, res2[i], offs2[i + 1]));
    }
}

/// Replay law: two arenas of one capacity that start at the same offset (as a
/// fresh arena and one just reset both do, at 0) and are given the same
/// requests in the same order, one call each, succeed and fail alike, hand out
/// regions at the same places, and keep equal offsets after every call.
/// `offs1[i]` is the first arena's offset before call `i` and `res1[i]` what
/// that call returned; `offs2` and `res2` likewise for the second.
pub proof fn lemma_replay(
    cap: int,
    reqs: Seq<(int, int)>,
    offs1: Seq<int>,
    res1: Seq<Result<ArenaRegion, MemoryError>>,
    offs2: Seq<int>,
    res2: Seq<Result<ArenaRegion, MemoryError>>,
)
    requires
        offs1.len() == reqs.len() + 1,
        offs2.len() == reqs.len() + 1,
        res1.len() == reqs.len(),
        res2.len() == reqs.len(),
        offs1[0] == offs2[0],
        forall|i: int|
            0 <= i < reqs.len() ==> #[trigger] alloc_outcome(
                offs1[i],
                cap,
                reqs[i].0,
                reqs[i].1,
                res1[i],
                offs1[i + 1],
            ),
        forall|i: int|
            0 <= i < reqs.len() ==> #[trigger] alloc_outcome(
                offs2[i],
                cap,
                reqs[i].0,
                reqs[i].1,
                res2[i],
                offs2[i + 1],
            ),
    ensures
        forall|i: int| 0 <= i <= reqs.len() ==> #[trigger] offs1[i] == offs2[i],
        forall|i: int|
            0 <= i < reqs.len() ==> (#[trigger] res1[i] is Ok <==> res2[i] is Ok),
        forall|i: int|
            0 <= i < reqs.len() && #[trigger] res1[i] is Ok ==> res1[i]->Ok_0.start == res2[i]->Ok_0.start
                && res1[i]->Ok_0.len == res2[i]->Ok_0.len,
{
    assert forall|i: int| 0 <= i <= reqs.len() implies #[trigger] offs1[i] == offs2[i] by {
        lemma_replay_offsets(cap, reqs, offs1, res1, offs2, res2, i);
    }
    assert forall|i: int| 0 <= i < reqs.len() implies (#[trigger] res1[i] is Ok <==> res2[i] is Ok)
        && (res1[i] is Ok ==> res1[i]->Ok_0.start == res2[i]->Ok_0.start && res1[i]->Ok_0.len
        == res2[i]->Ok_0.len) by {
        lemma_replay_offsets(cap, reqs, offs1, res1, offs2, res2, i);
        assert(alloc_outcome(offs1[i], cap, reqs[i].0, reqs[i].1, res1[i], offs1[i + 1]));
        assert(alloc_outcome(offs2[i], cap, reqs[i].0, reqs[i].1, res2[i], offs2[i + 1]));
    }
}

/// The three arenas of the engine, one per lifetime: the process, the level and
/// the frame. Each request goes to the arena whose lifetime matches the data.
pub struct RuntimeMemory {
    pub global: Arena<GLOBAL_ARENA_SIZE>,
    pub level: Arena<LEVEL_ARENA_SIZE>,
    pub frame: Arena<FRAME_ARENA_SIZE>,
}

impl RuntimeMemory {
    pub open spec fn wf(&self) -> bool {
        self.global.wf() && self.level.wf() && self.frame.wf()
    }

    pub fn new() -> (r: Self)
        ensures
            r.wf(),
            r.global.spec_offset() == 0,
            r.level.spec_offset() == 0,
            r.frame.spec_offset() == 0,
    {
        RuntimeMemory { global: Arena::new(), level: Arena::new(), frame: Arena::new() }
    }

    /// Recycles the frame arena; called once per rendered frame, after the
    /// frame has been presented. The other two arenas are left as they are.
    pub fn end_frame(&mut self)
        requires
            old(self).wf(),
        ensures
            final(self).wf(),
            final(self).frame.spec_offset() == 0,
            final(self).frame.spec_generation() == old(self).frame.spec_generation().wrapping_add(
                1,
            ),
            final(self).frame.spec_bytes() == old(self).frame.spec_bytes(),
            final(self).global == old(self).global,
            final(self).level == old(self).level,
    {
        self.frame.reset();
    }
}

} // verus!
