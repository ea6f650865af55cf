use vstd::prelude::*;

use crate::error::BoardError;

verus! {

/// Issues post ids `1, 2, 3, ...` and keeps track of which issued ids belong
/// to live posts. Ids are never issued twice.
pub struct PostIdAllocator {
    count: u64,
    /// `live[i]` tells whether id `i + 1` is live.
    live: Vec<bool>,
}

impl PostIdAllocator {
    /// How many ids have been issued; the last one issued is this number.
    pub closed spec fn issued(&self) -> nat {
        self.count as nat
    }

    /// The live ids.
    pub closed spec fn live(&self) -> Set<u64> {
        Set::new(|id: u64| 1 <= id <= self.count && self.live@[id - 1])
    }

    pub closed spec fn wf(&self) -> bool {
        self.live@.len() == self.count
    }

    pub fn new() -> (a: Self)
        ensures
            a.wf(),
            a.issued() == 0,
            a.live() == Set::<u64>::empty(),
    {
        let a = PostIdAllocator { count: 0, live: Vec::new() };
        assert(a.live() =~= Set::<u64>::empty());
        a
    }

    /// Every live id is one that was issued.
    pub proof fn lemma_live_issued(&self, id: u64)
        requires
            self.live().contains(id),
        ensures
            1 <= id <= self.issued(),
    {
    }

    pub fn count(&self) -> (r: u64)
        ensures
            r == self.issued(),
    {
        self.count
    }

    /// Issues the next id, `count + 1`. Refuses with `IdSpaceExhausted`,
    /// changing nothing, when the counter is at its largest value.
    pub fn allocate(&mut self) -> (r: Result<u64, BoardError>)
        requires
            old(self).wf(),
        ensures
            final(self).wf(),
            final(self).live() == old(self).live(),
            old(self).issued() == u64::MAX ==> r == Err::<u64, BoardError>(
                BoardError::IdSpaceExhausted,
            ) && *final(self) == *old(self),
            old(self).issued() < u64::MAX ==> r == Ok::<u64, BoardError>(
                (old(self).issued() + 1) as u64,
            ) && final(self).issued() == old(self).issued() + 1,
            r is Err ==> old(self).issued() == u64::MAX,
            r matches Ok(id) ==> !old(self).live().contains(id),
    {
        if self.count == u64::MAX {
            return Err(BoardError::IdSpaceExhausted);
        }
        self.count = self.count + 1;
        self.live.push(false);
        assert(self.live() =~= old(self).live()) by {
            assert forall|id: u64| self.live().contains(id) == old(self).live().contains(id) by {
                if 1 <= id <= old(self).count {
                    assert(self.live@[id - 1] == old(self).live@[id - 1]);
                }
            }
        }
        Ok(self.count)
    }

    /// Records `id` as live. Refuses with `PostNotFound` an id that was never
    /// issued.
    pub fn mark_used(&mut self, id: u64) -> (r: Result<(), BoardError>)
        requires
            old(self).wf(),
        ensures
            final(self).wf(),
            final(self).issued() == old(self).issued(),
            !(1 <= id <= old(self).issued()) ==> r == Err::<(), BoardError>(
                BoardError::PostNotFound,
            ) && final(self).live() == old(self).live(),
            1 <= id <= old(self).issued() ==> r is Ok && final(self).live() == old(
                self,
            ).live().insert(id),
    {
        if id == 0 || id > self.count {
            return Err(BoardError::PostNotFound);
        }
        let n: usize = self.live.len();
        assert(id - 1 < n);
        self.live.set((id - 1) as usize, true);
        assert(self.live() =~= old(self).live().insert(id));
        Ok(())
    }

    /// Forgets that `id` is live. Refuses with `PostNotFound` an id that is
    /// not live.
    pub fn release(&mut self, id: u64) -> (r: Result<(), BoardError>)
        requires
            old(self).wf(),
        ensures
            final(self).wf(),
            final(self).issued() == old(self).issued(),
            !old(self).live().contains(id) ==> r == Err::<(), BoardError>(
                BoardError::PostNotFound,
            ) && final(self).live() == old(self).live(),
            old(self).live().contains(id) ==> r is Ok && final(self).live() == old(
                self,
            ).live().remove(id),
    {
        if !self.contains(id) {
            return Err(BoardError::PostNotFound);
        }
        let n: usize = self.live.len();
        assert(id - 1 < n);
        self.live.set((id - 1) as usize, false);
        assert(self.live() =~= old(self).live().remove(id));
        Ok(())
    }

    pub fn contains(&self, id: u64) -> (r: bool)
        requires
            self.wf(),
        ensures
            r == self.live().contains(id),
    {
        if id == 0 || id > self.count {
            return false;
        }
        let n: usize = self.live.len();
        assert(id - 1 < n);
        self.live[(id - 1) as usize]
    }

    /// The live ids in increasing order.
    pub fn live_ids(&self) -> (r: Vec<u64>)
        requires
            self.wf(),
        ensures
            r@.to_set() == self.live(),
            forall|a: int, b: int| 0 <= a < b < r@.len() ==> r@[a] < r@[b],
    {
        let mut r: Vec<u64> = Vec::new();
        let mut i: usize = 0;
        while i < self.live.len()
            invariant
                self.wf(),
                i <= self.live@.len(),
                forall|id: u64| #[trigger]
                    r@.contains(id) <==> (1 <= id <= i && self.live@[id - 1]),
                forall|a: int, b: int| 0 <= a < b < r@.len() ==> r@[a] < r@[b],
                forall|a: int| 0 <= a < r@.len() ==> r@[a] <= i,
            decreases self.live@.len() - i,
        {
            let ghost before = r@;
            if self.live[i] {
                r.push((i + 1) as u64);
                assert forall|id: u64| #[trigger]
                    r@.contains(id) <==> (1 <= id <= i + 1 && self.live@[id - 1]) by {
                    if id == i + 1 {
                        assert(r@[r@.len() - 1] == id);
                    }
                    if r@.contains(id) && id != i + 1 {
                        let k = choose|k: int| 0 <= k < r@.len() && r@[k] == id;
                        assert(k < before.len());
                        assert(before.contains(id));
                    }
                    if 1 <= id <= i && self.live@[id - 1] {
                        assert(before.contains(id));
                        let k = choose|k: int| 0 <= k < before.len() && before[k] == id;
                        assert(r@[k] == id);
                    }
                }
            } else {
                assert forall|id: u64| #[trigger]
                    r@.contains(id) <==> (1 <= id <= i + 1 && self.live@[id - 1]) by {
                    if id == i + 1 && r@.contains(id) {
                        let k = choose|k: int| 0 <= k < r@.len() && r@[k] == id;
                        assert(r@[k] <= i);
                    }
                }
            }
            i = i + 1;
        }
        assert(r@.to_set() =~= self.live());
        r
    }
}

} // verus!
