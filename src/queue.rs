use vstd::prelude::*;

use crate::error::BoardError;

verus! {

/// What is left of a duplicate-free sequence once `x` is taken out of it.
pub proof fn lemma_remove_value(s: Seq<u64>, x: u64)
    requires
        s.no_duplicates(),
        s.contains(x),
    ensures
        s.remove_value(x).no_duplicates(),
        s.remove_value(x).len() == s.len() - 1,
        forall|y: u64| #[trigger]
            s.remove_value(x).contains(y) <==> (s.contains(y) && y != x),
{
    s.index_of_first_ensures(x);
    let i = s.index_of_first(x).unwrap();
    let r = s.remove(i);
    assert(s.remove_value(x) == r);
    assert forall|y: u64| #[trigger] r.contains(y) implies s.contains(y) && y != x by {
        let k = choose|k: int| 0 <= k < r.len() && r[k] == y;
        if k < i {
            assert(s[k] == y);
        } else {
            assert(s[k + 1] == y);
        }
    }
    assert forall|y: u64| s.contains(y) && y != x implies #[trigger] r.contains(y) by {
        let k = choose|k: int| 0 <= k < s.len() && s[k] == y;
        if k < i {
            assert(r[k] == y);
        } else {
            assert(k != i);
            assert(r[k - 1] == y);
        }
    }
}

/// Appending `x` adds `x` and nothing else.
pub proof fn lemma_push_contains(s: Seq<u64>, x: u64)
    ensures
        forall|y: u64| #[trigger] s.push(x).contains(y) <==> (s.contains(y) || y == x),
{
    assert forall|y: u64| #[trigger] s.push(x).contains(y) <==> (s.contains(y) || y == x) by {
        if s.contains(y) {
            let k = choose|k: int| 0 <= k < s.len() && s[k] == y;
            assert(s.push(x)[k] == y);
        }
        if y == x {
            assert(s.push(x)[s.len() as int] == y);
        }
        if s.push(x).contains(y) && y != x {
            let k = choose|k: int| 0 <= k < s.len() + 1 && s.push(x)[k] == y;
            assert(s[k] == y);
        }
    }
}

/// `i` is the first place where `x` stands in a duplicate-free `s`, so taking
/// `s[i]` out is taking `x` out.
pub proof fn lemma_remove_at_first(s: Seq<u64>, x: u64, i: int)
    requires
        s.no_duplicates(),
        0 <= i < s.len(),
        s[i] == x,
    ensures
        s.remove_value(x) == s.remove(i),
{
    s.index_of_first_ensures(x);
}

/// A bounded, duplicate-free sequence of thread ids, oldest first: the head is
/// the least recently enqueued or bumped thread, the tail the most recent one.
/// Membership, bump and removal scan the queue, which suits the small
/// capacities a board is configured with.
pub struct ThreadQueue {
    items: Vec<u64>,
    capacity: usize,
}

impl View for ThreadQueue {
    type V = Seq<u64>;

    closed spec fn view(&self) -> Seq<u64> {
        self.items@
    }
}

impl ThreadQueue {
    /// The bound fixed at construction.
    pub closed spec fn cap(&self) -> nat {
        self.capacity as nat
    }

    /// No thread twice, and never more threads than the capacity.
    pub open spec fn wf(&self) -> bool {
        &&& self@.no_duplicates()
        &&& self@.len() <= self.cap()
    }

    pub fn new(capacity: usize) -> (q: Self)
        ensures
            q.wf(),
            q@ == Seq::<u64>::empty(),
            q.cap() == capacity,
    {
        ThreadQueue { items: Vec::new(), capacity }
    }

    /// Rebuilds a queue from its threads, oldest first. Refuses more threads
    /// than `capacity` with `QueueFull`, and a thread listed twice with
    /// `DuplicateThread`.
    pub fn from_items(items: Vec<u64>, capacity: usize) -> (r: Result<Self, BoardError>)
        ensures
            items@.len() > capacity ==> r == Err::<Self, BoardError>(BoardError::QueueFull),
            items@.len() <= capacity && !items@.no_duplicates() ==> r == Err::<Self, BoardError>(
                BoardError::DuplicateThread,
            ),
            items@.len() <= capacity && items@.no_duplicates() ==> r is Ok,
            r matches Ok(q) ==> q.wf() && q@ == items@ && q.cap() == capacity,
    {
        if items.len() > capacity {
            return Err(BoardError::QueueFull);
        }
        let mut i: usize = 0;
        while i < items.len()
            invariant
                i <= items@.len(),
                items@.len() <= capacity,
                forall|a: int, b: int| 0 <= a < b < i ==> items@[a] != items@[b],
            decreases items@.len() - i,
        {
            let mut j: usize = 0;
            while j < i
                invariant
                    i < items@.len(),
                    items@.len() <= capacity,
                    j <= i,
                    forall|a: int| 0 <= a < j ==> items@[a] != items@[i as int],
                decreases i - j,
            {
                if items[j] == items[i] {
                    assert(!items@.no_duplicates());
                    return Err(BoardError::DuplicateThread);
                }
                j = j + 1;
            }
            i = i + 1;
        }
        assert(items@.no_duplicates()) by {
            assert forall|a: int, b: int|
                0 <= a < items@.len() && 0 <= b < items@.len() && a != b implies items@[a]
                != items@[b] by {
                if a < b {
                } else {
                }
            }
        }
        Ok(ThreadQueue { items, capacity })
    }

    pub fn capacity(&self) -> (r: usize)
        ensures
            r == self.cap(),
    {
        self.capacity
    }

    pub fn len(&self) -> (r: usize)
        ensures
            r == self@.len(),
    {
        self.items.len()
    }

    pub fn is_empty(&self) -> (r: bool)
        ensures
            r == (self@.len() == 0),
    {
        self.items.len() == 0
    }

    pub fn is_full(&self) -> (r: bool)
        requires
            self.wf(),
        ensures
            r == (self@.len() == self.cap()),
    {
        self.items.len() == self.capacity
    }

    /// The threads, oldest first.
    pub fn items(&self) -> (r: &Vec<u64>)
        ensures
            r@ == self@,
    {
        &self.items
    }

    /// The threads, oldest first, handed over.
    pub fn into_items(self) -> (r: Vec<u64>)
        ensures
            r@ == self@,
    {
        self.items
    }

    /// Where `id` stands, if it is queued.
    fn position(&self, id: u64) -> (r: Option<usize>)
        ensures
            r matches Some(i) ==> i < self@.len() && self@[i as int] == id,
            r is None ==> !self@.contains(id),
    {
        let mut i: usize = 0;
        while i < self.items.len()
            invariant
                i <= self@.len(),
                forall|k: int| 0 <= k < i ==> self@[k] != id,
            decreases self@.len() - i,
        {
            if self.items[i] == id {
                return Some(i);
            }
            i = i + 1;
        }
        None
    }

    pub fn contains(&self, id: u64) -> (r: bool)
        ensures
            r == self@.contains(id),
    {
        self.position(id).is_some()
    }

    /// Appends `id` as the most recent thread. Refuses with `QueueFull` when
    /// the queue is at capacity, else with `DuplicateThread` when `id` is
    /// already queued; a refused call changes nothing.
    pub fn enqueue(&mut self, id: u64) -> (r: Result<(), BoardError>)
        requires
            old(self).wf(),
        ensures
            final(self).wf(),
            final(self).cap() == old(self).cap(),
            old(self)@.len() == old(self).cap() ==> r == Err::<(), BoardError>(
                BoardError::QueueFull,
            ),
            old(self)@.len() < old(self).cap() && old(self)@.contains(id) ==> r == Err::<
                (),
                BoardError,
            >(BoardError::DuplicateThread),
            old(self)@.len() < old(self).cap() && !old(self)@.contains(id) ==> r is Ok,
            r is Ok ==> final(self)@ == old(self)@.push(id),
            r is Err ==> *final(self) == *old(self),
    {
        if self.items.len() == self.capacity {
            return Err(BoardError::QueueFull);
        }
        if self.contains(id) {
            return Err(BoardError::DuplicateThread);
        }
        self.items.push(id);
        proof {
            let s = old(self)@;
            assert forall|a: int, b: int|
                0 <= a < self@.len() && 0 <= b < self@.len() && a != b implies self@[a]
                != self@[b] by {
                if a == s.len() {
                    assert(self@[b] == s[b]);
                } else if b == s.len() {
                    assert(self@[a] == s[a]);
                }
            }
        }
        Ok(())
    }

    /// Removes and returns the oldest thread; refuses with `QueueEmpty`.
    pub fn dequeue_oldest(&mut self) -> (r: Result<u64, BoardError>)
        requires
            old(self).wf(),
        ensures
            final(self).wf(),
            final(self).cap() == old(self).cap(),
            old(self)@.len() == 0 ==> r == Err::<u64, BoardError>(BoardError::QueueEmpty)
                && *final(self) == *old(self),
            old(self)@.len() > 0 ==> r == Ok::<u64, BoardError>(old(self)@[0]) && final(self)@
                == old(self)@.drop_first(),
    {
        if self.items.len() == 0 {
            return Err(BoardError::QueueEmpty);
        }
        let id = self.items.remove(0);
        assert(self@ == old(self)@.drop_first());
        Ok(id)
    }

    /// Removes and returns the most recent thread, if any.
    pub fn pop_newest(&mut self) -> (r: Option<u64>)
        requires
            old(self).wf(),
        ensures
            final(self).wf(),
            final(self).cap() == old(self).cap(),
            old(self)@.len() == 0 ==> r is None && final(self)@ == old(self)@,
            old(self)@.len() > 0 ==> r == Some(old(self)@.last()) && final(self)@ == old(
                self,
            )@.drop_last(),
    {
        self.items.pop()
    }

    /// Takes `id` out of the queue wherever it stands; refuses with
    /// `ThreadNotFound` when it is not queued.
    pub fn remove(&mut self, id: u64) -> (r: Result<(), BoardError>)
        requires
            old(self).wf(),
        ensures
            final(self).wf(),
            final(self).cap() == old(self).cap(),
            !old(self)@.contains(id) ==> r == Err::<(), BoardError>(BoardError::ThreadNotFound)
                && *final(self) == *old(self),
            old(self)@.contains(id) ==> r is Ok && final(self)@ == old(self)@.remove_value(id),
    {
        match self.position(id) {
            None => Err(BoardError::ThreadNotFound),
            Some(i) => {
                proof {
                    lemma_remove_at_first(self@, id, i as int);
                    lemma_remove_value(self@, id);
                }
                self.items.remove(i);
                Ok(())
            },
        }
    }

    /// Moves `id` to the most recent position; refuses with `ThreadNotFound`
    /// when it is not queued. Bumping the newest thread keeps the order.
    pub fn bump(&mut self, id: u64) -> (r: Result<(), BoardError>)
        requires
            old(self).wf(),
        ensures
            final(self).wf(),
            final(self).cap() == old(self).cap(),
            !old(self)@.contains(id) ==> r == Err::<(), BoardError>(BoardError::ThreadNotFound)
                && *final(self) == *old(self),
            old(self)@.contains(id) ==> r is Ok && final(self)@ == old(self)@.remove_value(
                id,
            ).push(id),
    {
        match self.position(id) {
            None => Err(BoardError::ThreadNotFound),
            Some(i) => {
                let ghost s = self@;
                proof {
                    lemma_remove_at_first(s, id, i as int);
                    lemma_remove_value(s, id);
                }
                self.items.remove(i);
                self.items.push(id);
                proof {
                    let t = s.remove_value(id);
                    assert(!t.contains(id));
                    assert forall|a: int, b: int|
                        0 <= a < self@.len() && 0 <= b < self@.len() && a != b implies self@[a]
                        != self@[b] by {
                        if a == t.len() {
                            assert(t.contains(self@[b]));
                        } else if b == t.len() {
                            assert(t.contains(self@[a]));
                        } else {
                            assert(self@[a] == t[a] && self@[b] == t[b]);
                        }
                    }
                }
                Ok(())
            },
        }
    }
}

} // verus!
