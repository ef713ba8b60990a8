use vstd::prelude::*;

verus! {

/// The live items after `despawn(index)` on live items `live`: the last item
/// moves into the freed slot (swap-remove); an index past the end changes nothing.
pub open spec fn swap_remove_spec<T>(live: Seq<T>, index: int) -> Seq<T> {
    if 0 <= index < live.len() {
        live.update(index, live.last()).drop_last()
    } else {
        live
    }
}

/// Whether each of `items`, spawned in order into a pool of capacity `cap` whose
/// live items are `live`, is accepted.
pub open spec fn spawn_outcomes<T>(live: Seq<T>, cap: nat, items: Seq<T>) -> Seq<bool>
    decreases items.len(),
{
    if items.len() == 0 {
        Seq::empty()
    } else {
        let ok = live.len() < cap;
        seq![ok].add(
            spawn_outcomes(
                if ok {
                    live.push(items[0])
                } else {
                    live
                },
                cap,
                items.drop_first(),
            ),
        )
    }
}

/// A fixed number of slots, `N`, of which a prefix is live. Spawning fills the
/// next free slot; despawning moves the last live item into the freed slot, so
/// the live items keep no order.
pub struct FixedPool<T, const N: usize> {
    items: Vec<T>,
    len: usize,
}

impl<T: Copy, const N: usize> FixedPool<T, N> {
    /// All `N` slots exist and the live prefix lies within them.
    pub open spec fn wf(&self) -> bool {
        self.slots_ok() && self.live().len() <= N
    }

    /// The slots exist: `N` of them, with the live count among them.
    pub closed spec fn slots_ok(&self) -> bool {
        self.items@.len() == N && self.len <= N
    }

    /// The live items, in slot order.
    pub closed spec fn live(&self) -> Seq<T> {
        self.items@.subrange(0, self.len as int)
    }

    pub fn new(default: T) -> (r: Self)
        ensures
            r.wf(),
            r.live() == Seq::<T>::empty(),
    {
        let mut items: Vec<T> = Vec::with_capacity(N);
        let mut i: usize = 0;
        while i < N
            invariant
                i <= N,
                items@.len() == i,
            decreases N - i,
        {
            items.push(default);
            i = i + 1;
        }
        let r = FixedPool { items, len: 0 };
        assert(r.live() =~= Seq::<T>::empty());
        r
    }

    /// Adds `item` after the live items, or fails, changing nothing, when all
    /// `N` slots are live.
    pub fn spawn(&mut self, item: T) -> (r: Result<(), ()>)
        requires
            old(self).wf(),
        ensures
            final(self).wf(),
            r is Ok <==> old(self).live().len() < N,
            r is Ok ==> final(self).live() == old(self).live().push(item),
            r is Err ==> final(self).live() == old(self).live(),
    {
        if self.len >= N {
            return Err(());
        }
        self.items.set(self.len, item);
        self.len = self.len + 1;
        assert(self.live() =~= old(self).live().push(item));
        Ok(())
    }

    /// Removes the live item at `index` by moving the last live item into its
    /// slot; an index past the live items changes nothing.
    pub fn despawn(&mut self, index: usize)
        requires
            old(self).wf(),
        ensures
            final(self).wf(),
            final(self).live() == swap_remove_spec(old(self).live(), index as int),
    {
        if index >= self.len {
            return ;
        }
        self.len = self.len - 1;
        let last = self.items[self.len];
        self.items.set(index, last);
        assert(self.live() =~= swap_remove_spec(old(self).live(), index as int));
    }

    /// Replaces the live item at `index`; an index past the live items changes nothing.
    pub fn set(&mut self, index: usize, item: T)
        requires
            old(self).wf(),
        ensures
            final(self).wf(),
            final(self).live() == (if index < old(self).live().len() {
                old(self).live().update(index as int, item)
            } else {
                old(self).live()
            }),
    {
        if index >= self.len {
            return ;
        }
        self.items.set(index, item);
        assert(self.live() =~= old(self).live().update(index as int, item));
    }

    /// The live items.
    pub fn as_slice(&self) -> (r: &[T])
        requires
            self.wf(),
        ensures
            r@ == self.live(),
    {
        vstd::slice::slice_subrange(self.items.as_slice(), 0, self.len)
    }

    /// The live items, for changing in place: what the slice holds when it is
    /// released becomes the live items.
    pub fn as_mut_slice(&mut self) -> (r: &mut [T])
        requires
            old(self).wf(),
        ensures
            r@ == old(self).live(),
            final(r)@.len() == r@.len() ==> final(self).wf() && final(self).live() == final(r)@,
    {
        let (live, rest) = self.items.as_mut_slice().split_at_mut(self.len);
        proof {
            assert(has_resolved(rest));
        }
        live
    }

    pub fn len(&self) -> (r: usize)
        requires
            self.wf(),
        ensures
            r == self.live().len(),
            r <= N,
    {
        self.len
    }

    pub fn capacity(&self) -> (r: usize)
        ensures
            r == N,
    {
        N
    }
}

/// Capacity law: into a pool of capacity `cap` holding `live`, spawn number
/// `i` of a run succeeds exactly while fewer than `cap` items are live; so from
/// an empty pool the first `cap` spawns succeed and every later one fails.
pub proof fn lemma_spawn_capacity<T>(live: Seq<T>, cap: nat, items: Seq<T>)
    requires
        live.len() <= cap,
    ensures
        spawn_outcomes(live, cap, items).len() == items.len(),
        forall|i: int|
            0 <= i < items.len() ==> #[trigger] spawn_outcomes(live, cap, items)[i] == (live.len()
                + i < cap),
    decreases items.len(),
{
    if items.len() > 0 {
        let ok = live.len() < cap;
        let next = if ok {
            live.push(items[0])
        } else {
            live
        };
        lemma_spawn_capacity(next, cap, items.drop_first());
        let all = spawn_outcomes(live, cap, items);
        let rest = spawn_outcomes(next, cap, items.drop_first());
        assert(all == seq![ok].add(rest));
        assert forall|i: int| 0 <= i < items.len() implies #[trigger] all[i] == (live.len() + i
            < cap) by {
            if i > 0 {
                assert(all[i] == rest[i - 1]);
            }
        }
    }
}

} // verus!
