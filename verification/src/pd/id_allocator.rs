use vstd::prelude::*;

verus! {

/// Hands out increasing ids: each id is one more than the last.
#[derive(Debug)]
pub struct IdAllocator {
    counter: u64,
}

impl View for IdAllocator {
    type V = u64;

    /// The last id handed out (the start value before the first one).
    closed spec fn view(&self) -> u64 {
        self.counter
    }
}

impl IdAllocator {
    /// An allocator whose first id is `start + 1`.
    pub fn new(start: u64) -> (r: Self)
        ensures
            r@ == start,
    {
        IdAllocator { counter: start }
    }

    /// The next id.
    pub fn alloc_id(&mut self) -> (r: u64)
        requires
            old(self)@ < u64::MAX,
        ensures
            r == old(self)@ + 1,
            final(self)@ == r,
    {
        self.counter = self.counter + 1;
        self.counter
    }
}

/// `ids` are what successive `alloc_id` calls returned, `states` the
/// allocator's last id before the first call and after each call.
pub open spec fn alloc_run(states: Seq<u64>, ids: Seq<u64>) -> bool {
    &&& states.len() == ids.len() + 1
    &&& forall|i: int|
        0 <= i < ids.len() ==> #[trigger] ids[i] == states[i] + 1 && states[i + 1] == ids[i]
}

/// `n` allocations from an allocator at `start` hand out `start + 1`,
/// ..., `start + n`, in this order: every id is new.
pub proof fn lemma_allocations_are_consecutive(states: Seq<u64>, ids: Seq<u64>)
    requires
        alloc_run(states, ids),
    ensures
        forall|i: int| 0 <= i < ids.len() ==> #[trigger] ids[i] == states[0] + i + 1,
        forall|i: int, j: int| 0 <= i < j < ids.len() ==> ids[i] < ids[j],
    decreases ids.len(),
{
    if ids.len() > 0 {
        let n = ids.len() - 1;
        let s2 = states.take(n + 1);
        let i2 = ids.take(n);
        assert forall|i: int| 0 <= i < i2.len() implies #[trigger] i2[i] == s2[i] + 1 && s2[i + 1]
            == i2[i] by {
            assert(ids[i] == states[i] + 1);
            assert(s2[i] == states[i] && s2[i + 1] == states[i + 1] && i2[i] == ids[i]);
        }
        assert(s2.len() == i2.len() + 1);
        lemma_allocations_are_consecutive(s2, i2);
        assert forall|i: int| 0 <= i < ids.len() implies #[trigger] ids[i] == states[0] + i + 1 by {
            if i < n {
                assert(i2[i] == ids[i]);
            } else {
                assert(ids[n] == states[n] + 1);
                if n > 0 {
                    assert(i2[n - 1] == ids[n - 1]);
                    assert(states[n] == ids[n - 1]);
                }
            }
        }
    }
}

} // verus!
