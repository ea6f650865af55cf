use vstd::prelude::*;

use bytes::Bytes;

use crate::error::BoardError;
use crate::ids::PostIdAllocator;
use crate::post::Post;
use crate::queue::{lemma_push_contains, lemma_remove_at_first, lemma_remove_value, ThreadQueue};
use crate::thread::Thread;

verus! {

/// What stands in the slot of `id` in a table indexed by `id - 1`.
pub open spec fn slot<T>(v: Seq<Option<T>>, id: u64) -> Option<T> {
    if 1 <= id <= v.len() {
        v[id - 1]
    } else {
        None
    }
}

/// The oldest thread of `s` that is not pinned: the one eviction picks.
pub open spec fn oldest_unpinned(s: Seq<u64>, pinned: Set<u64>) -> Option<u64>
    decreases s.len(),
{
    if s.len() == 0 {
        None
    } else if !pinned.contains(s[0]) {
        Some(s[0])
    } else {
        oldest_unpinned(s.drop_first(), pinned)
    }
}

/// The thread that eviction picks is queued and not pinned.
pub proof fn lemma_oldest_unpinned(s: Seq<u64>, pinned: Set<u64>)
    ensures
        oldest_unpinned(s, pinned) matches Some(x) ==> s.contains(x) && !pinned.contains(x),
        oldest_unpinned(s, pinned) is None ==> forall|i: int|
            0 <= i < s.len() ==> pinned.contains(#[trigger] s[i]),
    decreases s.len(),
{
    if s.len() > 0 {
        lemma_oldest_unpinned(s.drop_first(), pinned);
        if pinned.contains(s[0]) {
            if let Some(x) = oldest_unpinned(s, pinned) {
                let k = choose|k: int| 0 <= k < s.drop_first().len() && s.drop_first()[k] == x;
                assert(s[k + 1] == x);
            } else {
                assert forall|i: int| 0 <= i < s.len() implies pinned.contains(#[trigger] s[i]) by {
                    if i > 0 {
                        assert(s[i] == s.drop_first()[i - 1]);
                    }
                }
            }
        }
    }
}

/// The archive once `x` is put into it: appended while there is room, else
/// appended after its oldest thread is dropped. An archive of capacity zero
/// keeps nothing.
pub open spec fn archived(q: Seq<u64>, cap: nat, x: u64) -> Seq<u64> {
    if q.len() < cap {
        q.push(x)
    } else if cap == 0 {
        q
    } else {
        q.drop_first().push(x)
    }
}

/// The thread that archiving `x` discards for good, if any.
pub open spec fn archive_overflow(q: Seq<u64>, cap: nat, x: u64) -> Option<u64> {
    if q.len() < cap {
        None
    } else if cap == 0 {
        Some(x)
    } else {
        Some(q[0])
    }
}

/// Everything a board holds, laid out for storage: the queues oldest first,
/// the pinned threads, the counter, and the thread and post records, the
/// record of id `i + 1` at index `i`.
pub struct BoardSnapshot {
    pub name: String,
    pub description: String,
    pub active_capacity: usize,
    pub archive_capacity: usize,
    pub active: Vec<u64>,
    pub archive: Vec<u64>,
    pub sticky: Vec<u64>,
    pub count: u64,
    pub threads: Vec<Option<Thread>>,
    pub posts: Vec<Option<Post>>,
}

impl BoardSnapshot {
    /// The snapshot holds a board that keeps the board invariant.
    pub open spec fn valid(&self) -> bool {
        &&& self.active@.len() <= self.active_capacity
        &&& self.archive@.len() <= self.archive_capacity
        &&& self.active@.no_duplicates()
        &&& self.archive@.no_duplicates()
        &&& forall|x: u64| self.active@.contains(x) ==> !self.archive@.contains(x)
        &&& self.sticky@.no_duplicates()
        &&& forall|x: u64| self.sticky@.contains(x) ==> self.active@.contains(x)
        &&& self.threads@.len() == self.count
        &&& self.posts@.len() == self.count
        &&& forall|id: u64| #[trigger]
            slot(self.threads@, id) matches Some(t) ==> t.wf() && t.parent() == id && (
            self.active@.contains(id) || self.archive@.contains(id))
        &&& forall|id: u64| #[trigger] slot(self.posts@, id) matches Some(p) ==> p.wf()
    }

    /// Why loading refuses the snapshot: the first of its checks that fails,
    /// in the order queues, overlap, pins, table sizes, thread records, post
    /// records. `None` exactly for a valid snapshot.
    pub open spec fn refusal(&self) -> Option<BoardError> {
        if self.active@.len() > self.active_capacity {
            Some(BoardError::QueueFull)
        } else if !self.active@.no_duplicates() {
            Some(BoardError::DuplicateThread)
        } else if self.archive@.len() > self.archive_capacity {
            Some(BoardError::QueueFull)
        } else if !self.archive@.no_duplicates() {
            Some(BoardError::DuplicateThread)
        } else if exists|x: u64| self.active@.contains(x) && self.archive@.contains(x) {
            Some(BoardError::DuplicateThread)
        } else if exists|x: u64| self.sticky@.contains(x) && !self.active@.contains(x) {
            Some(BoardError::ThreadNotFound)
        } else if !self.sticky@.no_duplicates() {
            Some(BoardError::AlreadySticky)
        } else if self.threads@.len() != self.count || self.posts@.len() != self.count {
            Some(BoardError::PostNotFound)
        } else if exists|id: u64|
            #[trigger] slot(self.threads@, id) matches Some(t) && !(t.wf() && t.parent() == id
                && (self.active@.contains(id) || self.archive@.contains(id))) {
            Some(BoardError::ThreadNotFound)
        } else if exists|id: u64| #[trigger] slot(self.posts@, id) matches Some(p) && !p.wf() {
            Some(BoardError::PostNotFound)
        } else {
            None
        }
    }

    /// The snapshot holds exactly what board `b` holds.
    pub open spec fn describes(&self, b: &Board) -> bool {
        &&& self.name@ == b.name_view()
        &&& self.description@ == b.description_view()
        &&& self.active_capacity == b.active_cap()
        &&& self.archive_capacity == b.archive_cap()
        &&& self.active@ == b.active_seq()
        &&& self.archive@ == b.archive_seq()
        &&& self.sticky@.no_duplicates()
        &&& self.sticky@.to_set() == b.sticky_set()
        &&& self.count == b.count()
        &&& self.threads@.len() == b.count()
        &&& self.posts@.len() == b.count()
        &&& forall|id: u64| #[trigger] slot(self.threads@, id) == b.thread_of(id)
        &&& forall|id: u64| #[trigger] slot(self.posts@, id) == b.post_of(id)
        &&& forall|id: u64| #[trigger] b.post_set().contains(id) <==> slot(self.posts@, id) is Some
    }
}

/// One forum section: a bounded queue of active threads, a bounded archive
/// for threads pushed out of it, the pinned threads, and the thread and post
/// records. Post ids come from one counter; a thread's id is the id of its
/// root post.
pub struct Board {
    name: String,
    description: String,
    active: ThreadQueue,
    archive: ThreadQueue,
    sticky: Vec<u64>,
    ids: PostIdAllocator,
    /// The thread whose id is `i + 1`, if there is one.
    threads: Vec<Option<Thread>>,
    /// The post whose id is `i + 1`, if there is one.
    posts: Vec<Option<Post>>,
}

impl Board {
    pub closed spec fn name_view(&self) -> Seq<char> {
        self.name@
    }

    pub closed spec fn description_view(&self) -> Seq<char> {
        self.description@
    }

    /// The active threads, oldest first.
    pub closed spec fn active_seq(&self) -> Seq<u64> {
        self.active@
    }

    /// The archived threads, oldest first.
    pub closed spec fn archive_seq(&self) -> Seq<u64> {
        self.archive@
    }

    pub closed spec fn active_cap(&self) -> nat {
        self.active.cap()
    }

    pub closed spec fn archive_cap(&self) -> nat {
        self.archive.cap()
    }

    /// The pinned threads.
    pub closed spec fn sticky_set(&self) -> Set<u64> {
        self.sticky@.to_set()
    }

    /// How many post ids have been issued; the last one issued is this number.
    pub closed spec fn count(&self) -> nat {
        self.ids.issued()
    }

    /// The ids of the live posts.
    pub closed spec fn post_set(&self) -> Set<u64> {
        self.ids.live()
    }

    pub closed spec fn thread_of(&self, id: u64) -> Option<Thread> {
        slot(self.threads@, id)
    }

    pub closed spec fn post_of(&self, id: u64) -> Option<Post> {
        slot(self.posts@, id)
    }

    pub open spec fn queued(&self, id: u64) -> bool {
        self.active_seq().contains(id) || self.archive_seq().contains(id)
    }

    /// The board's invariant.
    pub closed spec fn wf(&self) -> bool {
        &&& self.active.wf()
        &&& self.archive.wf()
        &&& forall|x: u64| self.active@.contains(x) ==> !self.archive@.contains(x)
        &&& self.sticky@.no_duplicates()
        &&& forall|x: u64| self.sticky@.contains(x) ==> self.active@.contains(x)
        &&& self.ids.wf()
        &&& self.threads@.len() == self.ids.issued()
        &&& self.posts@.len() == self.ids.issued()
        &&& forall|id: u64|
            #![trigger self.ids.live().contains(id)]
            #![trigger slot(self.posts@, id)]
            self.ids.live().contains(id) <==> slot(self.posts@, id) is Some
        &&& forall|id: u64| #[trigger]
            slot(self.threads@, id) matches Some(t) ==> t.wf() && t.parent() == id && (
            self.active@.contains(id) || self.archive@.contains(id))
        &&& forall|id: u64| #[trigger] slot(self.posts@, id) matches Some(p) ==> p.wf()
    }

    /// Everything but the name and description.
    pub open spec fn same_state(&self, other: &Board) -> bool {
        &&& self.active_seq() == other.active_seq()
        &&& self.archive_seq() == other.archive_seq()
        &&& self.active_cap() == other.active_cap()
        &&& self.archive_cap() == other.archive_cap()
        &&& self.sticky_set() == other.sticky_set()
        &&& self.count() == other.count()
        &&& self.post_set() == other.post_set()
        &&& forall|id: u64| #[trigger] self.thread_of(id) == other.thread_of(id)
        &&& forall|id: u64| #[trigger] self.post_of(id) == other.post_of(id)
    }

    /// What the invariant promises a caller: both queues within their
    /// capacities and free of repeats, no thread both active and archived,
    /// every pinned thread active, every live post id issued, and every
    /// thread record queued and rooted at its own id.
    pub proof fn lemma_wf(&self)
        requires
            self.wf(),
        ensures
            self.active_seq().len() <= self.active_cap(),
            self.archive_seq().len() <= self.archive_cap(),
            self.active_seq().no_duplicates(),
            self.archive_seq().no_duplicates(),
            forall|x: u64| self.active_seq().contains(x) ==> !self.archive_seq().contains(x),
            forall|x: u64| #[trigger] self.sticky_set().contains(x) ==> self.active_seq().contains(x),
            forall|id: u64| #[trigger] self.post_set().contains(id) ==> 1 <= id <= self.count(),
            forall|id: u64| #[trigger] self.post_set().contains(id) <==> self.post_of(id) is Some,
            forall|id: u64| #[trigger]
                self.thread_of(id) matches Some(t) ==> t.wf() && t.parent() == id
                    && self.queued(id),
            forall|id: u64| #[trigger] self.post_of(id) matches Some(p) ==> p.wf(),
    {
        assert forall|id: u64| #[trigger] self.post_set().contains(id) implies 1 <= id
            <= self.count() by {
            self.ids.lemma_live_issued(id);
        }
    }

    /// A board whose queues are bounded only by what memory can hold.
    pub fn new(name: String, description: String) -> (b: Board)
        ensures
            b.wf(),
            b.name_view() == name@,
            b.description_view() == description@,
            b.active_seq() == Seq::<u64>::empty(),
            b.archive_seq() == Seq::<u64>::empty(),
            b.active_cap() == usize::MAX,
            b.archive_cap() == usize::MAX,
            b.sticky_set() == Set::<u64>::empty(),
            b.count() == 0,
            b.post_set() == Set::<u64>::empty(),
            forall|id: u64| #[trigger] b.thread_of(id) is None,
            forall|id: u64| #[trigger] b.post_of(id) is None,
    {
        Board::with_capacity(name, description, usize::MAX, usize::MAX)
    }

    /// A board as its configuration describes it.
    pub fn with_capacity(
        name: String,
        description: String,
        active_capacity: usize,
        archive_capacity: usize,
    ) -> (b: Board)
        ensures
            b.wf(),
            b.name_view() == name@,
            b.description_view() == description@,
            b.active_seq() == Seq::<u64>::empty(),
            b.archive_seq() == Seq::<u64>::empty(),
            b.active_cap() == active_capacity,
            b.archive_cap() == archive_capacity,
            b.sticky_set() == Set::<u64>::empty(),
            b.count() == 0,
            b.post_set() == Set::<u64>::empty(),
            forall|id: u64| #[trigger] b.thread_of(id) is None,
            forall|id: u64| #[trigger] b.post_of(id) is None,
    {
        let b = Board {
            name,
            description,
            active: ThreadQueue::new(active_capacity),
            archive: ThreadQueue::new(archive_capacity),
            sticky: Vec::new(),
            ids: PostIdAllocator::new(),
            threads: Vec::new(),
            posts: Vec::new(),
        };
        assert(b.sticky@.to_set() =~= Set::<u64>::empty());
        b
    }

    pub fn get_name(&self) -> (r: &String)
        ensures
            r@ == self.name_view(),
    {
        &self.name
    }

    pub fn get_description(&self) -> (r: &String)
        ensures
            r@ == self.description_view(),
    {
        &self.description
    }

    /// The active threads, oldest first.
    pub fn get_active(&self) -> (r: &Vec<u64>)
        ensures
            r@ == self.active_seq(),
    {
        self.active.items()
    }

    /// The archived threads, oldest first.
    pub fn get_archive(&self) -> (r: &Vec<u64>)
        ensures
            r@ == self.archive_seq(),
    {
        self.archive.items()
    }

    /// The pinned threads, each once.
    pub fn get_sticky(&self) -> (r: &Vec<u64>)
        requires
            self.wf(),
        ensures
            r@.to_set() == self.sticky_set(),
            r@.no_duplicates(),
    {
        &self.sticky
    }

    pub fn get_count(&self) -> (r: u64)
        ensures
            r == self.count(),
    {
        self.ids.count()
    }

    pub fn active_capacity(&self) -> (r: usize)
        ensures
            r == self.active_cap(),
    {
        self.active.capacity()
    }

    pub fn archive_capacity(&self) -> (r: usize)
        ensures
            r == self.archive_cap(),
    {
        self.archive.capacity()
    }

    pub fn contains_post(&self, id: u64) -> (r: bool)
        requires
            self.wf(),
        ensures
            r == self.post_set().contains(id),
    {
        self.ids.contains(id)
    }

    /// The ids of the live posts, in increasing order.
    pub fn post_ids(&self) -> (r: Vec<u64>)
        requires
            self.wf(),
        ensures
            r@.to_set() == self.post_set(),
            forall|a: int, b: int| 0 <= a < b < r@.len() ==> r@[a] < r@[b],
    {
        self.ids.live_ids()
    }

    pub fn get_thread(&self, id: u64) -> (r: Option<&Thread>)
        requires
            self.wf(),
        ensures
            r matches Some(t) ==> self.thread_of(id) == Some(*t),
            r is None ==> self.thread_of(id) is None,
    {
        if id == 0 || id > self.ids.count() {
            return None;
        }
        let n: usize = self.threads.len();
        assert(id - 1 < n);
        self.threads[(id - 1) as usize].as_ref()
    }

    pub fn get_post(&self, id: u64) -> (r: Option<&Post>)
        requires
            self.wf(),
        ensures
            r matches Some(p) ==> self.post_of(id) == Some(*p),
            r is None ==> self.post_of(id) is None,
    {
        if id == 0 || id > self.ids.count() {
            return None;
        }
        let n: usize = self.posts.len();
        assert(id - 1 < n);
        self.posts[(id - 1) as usize].as_ref()
    }

    /// The thread and post records, the counter and the live posts agree.
    pub open spec fn same_records(&self, other: &Board) -> bool {
        &&& self.count() == other.count()
        &&& self.post_set() == other.post_set()
        &&& forall|id: u64| #[trigger] self.thread_of(id) == other.thread_of(id)
        &&& forall|id: u64| #[trigger] self.post_of(id) == other.post_of(id)
    }

    /// As `same_records`, but the record of thread `x` is gone.
    pub open spec fn records_without(&self, other: &Board, x: u64) -> bool {
        &&& self.count() == other.count()
        &&& self.post_set() == other.post_set()
        &&& self.thread_of(x) is None
        &&& forall|id: u64| id != x ==> #[trigger] self.thread_of(id) == other.thread_of(id)
        &&& forall|id: u64| #[trigger] self.post_of(id) == other.post_of(id)
    }

    fn sticky_position(&self, id: u64) -> (r: Option<usize>)
        ensures
            r matches Some(i) ==> i < self.sticky@.len() && self.sticky@[i as int] == id,
            r is None ==> !self.sticky@.contains(id),
    {
        let mut i: usize = 0;
        while i < self.sticky.len()
            invariant
                i <= self.sticky@.len(),
                forall|k: int| 0 <= k < i ==> self.sticky@[k] != id,
            decreases self.sticky@.len() - i,
        {
            if self.sticky[i] == id {
                return Some(i);
            }
            i = i + 1;
        }
        None
    }

    pub fn is_sticky(&self, id: u64) -> (r: bool)
        ensures
            r == self.sticky_set().contains(id),
    {
        self.sticky_position(id).is_some()
    }

    /// Takes `id` out of the pinned threads, if it is there.
    fn unstick(&mut self, id: u64)
        requires
            old(self).sticky@.no_duplicates(),
        ensures
            final(self).sticky@.no_duplicates(),
            final(self).sticky@.to_set() == old(self).sticky@.to_set().remove(id),
            final(self).active == old(self).active,
            final(self).archive == old(self).archive,
            final(self).ids == old(self).ids,
            final(self).threads == old(self).threads,
            final(self).posts == old(self).posts,
            final(self).name == old(self).name,
            final(self).description == old(self).description,
    {
        if let Some(i) = self.sticky_position(id) {
            let ghost s = self.sticky@;
            proof {
                s.index_of_first_ensures(id);
                lemma_remove_value(s, id);
            }
            self.sticky.remove(i);
            assert(self.sticky@.to_set() =~= s.to_set().remove(id)) by {
                assert(self.sticky@ == s.remove_value(id));
            }
        } else {
            assert(self.sticky@.to_set() =~= old(self).sticky@.to_set().remove(id));
        }
    }

    /// Forgets the record of thread `id`, if there is one.
    fn drop_record(&mut self, id: u64)
        ensures
            forall|k: u64| k != id ==> #[trigger] slot(final(self).threads@, k) == slot(
                old(self).threads@,
                k,
            ),
            slot(final(self).threads@, id) is None,
            final(self).threads@.len() == old(self).threads@.len(),
            final(self).active == old(self).active,
            final(self).archive == old(self).archive,
            final(self).sticky == old(self).sticky,
            final(self).ids == old(self).ids,
            final(self).posts == old(self).posts,
            final(self).name == old(self).name,
            final(self).description == old(self).description,
    {
        let n: usize = self.threads.len();
        if id >= 1 && ((id - 1) as u128) < (n as u128) {
            self.threads.set((id - 1) as usize, None);
        }
    }

    /// Issues the next post id and opens its slots, both empty.
    fn next_id(&mut self) -> (r: Result<u64, BoardError>)
        requires
            old(self).wf(),
        ensures
            final(self).wf(),
            final(self).active == old(self).active,
            final(self).archive == old(self).archive,
            final(self).sticky == old(self).sticky,
            final(self).name == old(self).name,
            final(self).description == old(self).description,
            final(self).post_set() == old(self).post_set(),
            forall|id: u64| #[trigger] final(self).thread_of(id) == old(self).thread_of(id),
            forall|id: u64| #[trigger] final(self).post_of(id) == old(self).post_of(id),
            old(self).count() == u64::MAX ==> r == Err::<u64, BoardError>(
                BoardError::IdSpaceExhausted,
            ) && *final(self) == *old(self),
            old(self).count() < u64::MAX ==> r == Ok::<u64, BoardError>(
                (old(self).count() + 1) as u64,
            ) && final(self).count() == old(self).count() + 1,
    {
        if self.ids.count() == u64::MAX {
            return Err(BoardError::IdSpaceExhausted);
        }
        let allocated = self.ids.allocate();
        match allocated {
            Err(e) => Err(e),
            Ok(id) => {
                self.threads.push(None);
                self.posts.push(None);
                assert forall|k: u64| #[trigger] slot(self.threads@, k) == slot(
                    old(self).threads@,
                    k,
                ) by {
                    if 1 <= k <= old(self).threads@.len() {
                        assert(self.threads@[k - 1] == old(self).threads@[k - 1]);
                    }
                }
                assert forall|k: u64| #[trigger] slot(self.posts@, k) == slot(
                    old(self).posts@,
                    k,
                ) by {
                    if 1 <= k <= old(self).posts@.len() {
                        assert(self.posts@[k - 1] == old(self).posts@[k - 1]);
                    }
                }
                Ok(id)
            },
        }
    }

    /// Issues the next post id without making a post for it.
    pub fn increment_count(&mut self) -> (r: Result<u64, BoardError>)
        requires
            old(self).wf(),
        ensures
            final(self).wf(),
            final(self).name_view() == old(self).name_view(),
            final(self).description_view() == old(self).description_view(),
            final(self).active_seq() == old(self).active_seq(),
            final(self).archive_seq() == old(self).archive_seq(),
            final(self).active_cap() == old(self).active_cap(),
            final(self).archive_cap() == old(self).archive_cap(),
            final(self).sticky_set() == old(self).sticky_set(),
            final(self).post_set() == old(self).post_set(),
            forall|id: u64| #[trigger] final(self).thread_of(id) == old(self).thread_of(id),
            forall|id: u64| #[trigger] final(self).post_of(id) == old(self).post_of(id),
            old(self).count() == u64::MAX ==> r == Err::<u64, BoardError>(
                BoardError::IdSpaceExhausted,
            ) && final(self).count() == old(self).count(),
            old(self).count() < u64::MAX ==> r == Ok::<u64, BoardError>(
                (old(self).count() + 1) as u64,
            ) && final(self).count() == old(self).count() + 1,
    {
        self.next_id()
    }

    /// Appends `parent` to the active queue. Refuses with `QueueFull` when
    /// the queue is at capacity, else with `DuplicateThread` a thread that is
    /// active or archived already.
    pub fn add_active(&mut self, parent: u64) -> (r: Result<(), BoardError>)
        requires
            old(self).wf(),
        ensures
            final(self).wf(),
            old(self).active_seq().len() == old(self).active_cap() ==> r == Err::<(), BoardError>(
                BoardError::QueueFull,
            ),
            old(self).active_seq().len() < old(self).active_cap() && old(self).queued(parent) ==> r
                == Err::<(), BoardError>(BoardError::DuplicateThread),
            !old(self).queued(parent) && old(self).active_seq().len() < old(self).active_cap()
                ==> r is Ok,
            r is Ok ==> final(self).active_seq() == old(self).active_seq().push(parent),
            r is Ok ==> final(self).archive_seq() == old(self).archive_seq(),
            r is Err ==> *final(self) == *old(self),
            final(self).same_records(old(self)),
            final(self).sticky_set() == old(self).sticky_set(),
            final(self).active_cap() == old(self).active_cap(),
            final(self).archive_cap() == old(self).archive_cap(),
            final(self).name_view() == old(self).name_view(),
            final(self).description_view() == old(self).description_view(),
    {
        if self.active.is_full() {
            return Err(BoardError::QueueFull);
        }
        if self.archive.contains(parent) {
            return Err(BoardError::DuplicateThread);
        }
        let r = self.active.enqueue(parent);
        proof {
            lemma_push_contains(old(self).active@, parent);
        }
        r
    }

    /// Appends `parent` to the archive. Refuses with `QueueFull` when the
    /// archive is at capacity, else with `DuplicateThread` a thread that is
    /// active or archived already.
    pub fn add_archive(&mut self, parent: u64) -> (r: Result<(), BoardError>)
        requires
            old(self).wf(),
        ensures
            final(self).wf(),
            old(self).archive_seq().len() == old(self).archive_cap() ==> r == Err::<(), BoardError>(
                BoardError::QueueFull,
            ),
            old(self).archive_seq().len() < old(self).archive_cap() && old(self).queued(parent) ==> r
                == Err::<(), BoardError>(BoardError::DuplicateThread),
            !old(self).queued(parent) && old(self).archive_seq().len() < old(self).archive_cap()
                ==> r is Ok,
            r is Ok ==> final(self).archive_seq() == old(self).archive_seq().push(parent),
            r is Ok ==> final(self).active_seq() == old(self).active_seq(),
            r is Err ==> *final(self) == *old(self),
            final(self).same_records(old(self)),
            final(self).sticky_set() == old(self).sticky_set(),
            final(self).active_cap() == old(self).active_cap(),
            final(self).archive_cap() == old(self).archive_cap(),
            final(self).name_view() == old(self).name_view(),
            final(self).description_view() == old(self).description_view(),
    {
        if self.archive.is_full() {
            return Err(BoardError::QueueFull);
        }
        if self.active.contains(parent) {
            return Err(BoardError::DuplicateThread);
        }
        let r = self.archive.enqueue(parent);
        proof {
            lemma_push_contains(old(self).archive@, parent);
        }
        r
    }

    /// Pins an active thread so that eviction passes it over. Refuses with
    /// `ThreadNotFound` a thread that is not active, and with `AlreadySticky`
    /// one that is pinned.
    pub fn pin(&mut self, id: u64) -> (r: Result<(), BoardError>)
        requires
            old(self).wf(),
        ensures
            final(self).wf(),
            !old(self).active_seq().contains(id) ==> r == Err::<(), BoardError>(
                BoardError::ThreadNotFound,
            ),
            old(self).active_seq().contains(id) && old(self).sticky_set().contains(id) ==> r
                == Err::<(), BoardError>(BoardError::AlreadySticky),
            old(self).active_seq().contains(id) && !old(self).sticky_set().contains(id) ==> r
                is Ok,
            r is Ok ==> final(self).sticky_set() == old(self).sticky_set().insert(id),
            r is Err ==> *final(self) == *old(self),
            final(self).active_seq() == old(self).active_seq(),
            final(self).archive_seq() == old(self).archive_seq(),
            final(self).active_cap() == old(self).active_cap(),
            final(self).archive_cap() == old(self).archive_cap(),
            final(self).same_records(old(self)),
            final(self).name_view() == old(self).name_view(),
            final(self).description_view() == old(self).description_view(),
    {
        if !self.active.contains(id) {
            return Err(BoardError::ThreadNotFound);
        }
        if self.sticky_position(id).is_some() {
            return Err(BoardError::AlreadySticky);
        }
        self.sticky.push(id);
        proof {
            let s = old(self).sticky@;
            assert forall|a: int, b: int|
                0 <= a < self.sticky@.len() && 0 <= b < self.sticky@.len() && a != b implies
                self.sticky@[a] != self.sticky@[b] by {
                if a == s.len() {
                    assert(s.contains(self.sticky@[b]));
                } else if b == s.len() {
                    assert(s.contains(self.sticky@[a]));
                }
            }
            lemma_push_contains(s, id);
            assert(self.sticky@.to_set() =~= s.to_set().insert(id));
        }
        Ok(())
    }

    /// Pins `parent`, as `pin` does; tells whether it was newly pinned.
    pub fn add_sticky(&mut self, parent: u64) -> (r: bool)
        requires
            old(self).wf(),
        ensures
            final(self).wf(),
            r == (old(self).active_seq().contains(parent) && !old(self).sticky_set().contains(
                parent,
            )),
            final(self).sticky_set() == old(self).sticky_set().insert(parent) || !r,
            !r ==> *final(self) == *old(self),
            final(self).active_seq() == old(self).active_seq(),
            final(self).archive_seq() == old(self).archive_seq(),
            final(self).same_records(old(self)),
            final(self).active_cap() == old(self).active_cap(),
            final(self).archive_cap() == old(self).archive_cap(),
            final(self).name_view() == old(self).name_view(),
            final(self).description_view() == old(self).description_view(),
    {
        self.pin(parent).is_ok()
    }

    /// Unpins a thread. Refuses with `ThreadNotFound` one that is not pinned.
    pub fn unpin(&mut self, id: u64) -> (r: Result<(), BoardError>)
        requires
            old(self).wf(),
        ensures
            final(self).wf(),
            !old(self).sticky_set().contains(id) ==> r == Err::<(), BoardError>(
                BoardError::ThreadNotFound,
            ) && *final(self) == *old(self),
            old(self).sticky_set().contains(id) ==> r is Ok && final(self).sticky_set() == old(
                self,
            ).sticky_set().remove(id),
            final(self).active_seq() == old(self).active_seq(),
            final(self).archive_seq() == old(self).archive_seq(),
            final(self).active_cap() == old(self).active_cap(),
            final(self).archive_cap() == old(self).archive_cap(),
            final(self).same_records(old(self)),
            final(self).name_view() == old(self).name_view(),
            final(self).description_view() == old(self).description_view(),
    {
        if self.sticky_position(id).is_none() {
            return Err(BoardError::ThreadNotFound);
        }
        self.unstick(id);
        proof {
            assert forall|x: u64| self.sticky@.contains(x) implies self.active@.contains(x) by {
                assert(self.sticky@.to_set().contains(x));
                assert(old(self).sticky@.to_set().contains(x));
            }
        }
        Ok(())
    }

    /// Unpins `parent`, as `unpin` does; tells whether it was pinned.
    pub fn remove_sticky(&mut self, parent: u64) -> (r: bool)
        requires
            old(self).wf(),
        ensures
            final(self).wf(),
            r == old(self).sticky_set().contains(parent),
            final(self).sticky_set() == old(self).sticky_set().remove(parent),
            final(self).active_seq() == old(self).active_seq(),
            final(self).archive_seq() == old(self).archive_seq(),
            final(self).same_records(old(self)),
            final(self).active_cap() == old(self).active_cap(),
            final(self).archive_cap() == old(self).archive_cap(),
            final(self).name_view() == old(self).name_view(),
            final(self).description_view() == old(self).description_view(),
    {
        let r = self.unpin(parent).is_ok();
        proof {
            if !r {
                assert(old(self).sticky_set().remove(parent) =~= old(self).sticky_set());
            }
        }
        r
    }

    /// The active queue is at capacity: a new active thread needs eviction.
    pub open spec fn must_evict(&self) -> bool {
        self.active_seq().len() >= self.active_cap()
    }

    /// The thread that eviction would move to the archive.
    pub open spec fn eviction_candidate(&self) -> Option<u64> {
        oldest_unpinned(self.active_seq(), self.sticky_set())
    }

    /// A thread can be made active without exceeding the capacity.
    pub open spec fn has_room(&self) -> bool {
        !self.must_evict() || self.eviction_candidate() is Some
    }

    /// The active queue once room is made for one more thread.
    pub open spec fn active_after_room(&self) -> Seq<u64> {
        if self.must_evict() && self.eviction_candidate() is Some {
            self.active_seq().remove_value(self.eviction_candidate().unwrap())
        } else {
            self.active_seq()
        }
    }

    /// The archive once room is made for one more active thread.
    pub open spec fn archive_after_room(&self) -> Seq<u64> {
        if self.must_evict() && self.eviction_candidate() is Some {
            archived(self.archive_seq(), self.archive_cap(), self.eviction_candidate().unwrap())
        } else {
            self.archive_seq()
        }
    }

    /// The thread that making room discards for good, if any.
    pub open spec fn discarded_by_room(&self) -> Option<u64> {
        if self.must_evict() && self.eviction_candidate() is Some {
            archive_overflow(
                self.archive_seq(),
                self.archive_cap(),
                self.eviction_candidate().unwrap(),
            )
        } else {
            None
        }
    }

    /// The thread records once making room has discarded what it discards.
    pub open spec fn records_after_room(&self, other: &Board) -> bool {
        &&& self.count() == other.count()
        &&& self.post_set() == other.post_set()
        &&& forall|id: u64| #[trigger]
            self.thread_of(id) == if other.discarded_by_room() == Some(id) {
                None
            } else {
                other.thread_of(id)
            }
        &&& forall|id: u64| #[trigger] self.post_of(id) == other.post_of(id)
    }

    /// The active queue after a reply to thread `t`: `t` becomes the most
    /// recent thread, promoted from the archive if it was there.
    pub open spec fn active_after_reply(&self, t: u64) -> Seq<u64> {
        if self.active_seq().contains(t) {
            self.active_seq().remove_value(t).push(t)
        } else if self.must_evict() {
            self.active_seq().remove_value(self.eviction_candidate().unwrap()).push(t)
        } else {
            self.active_seq().push(t)
        }
    }

    /// The archive after a reply to thread `t`.
    pub open spec fn archive_after_reply(&self, t: u64) -> Seq<u64> {
        if self.active_seq().contains(t) {
            self.archive_seq()
        } else if self.must_evict() {
            self.archive_seq().remove_value(t).push(self.eviction_candidate().unwrap())
        } else {
            self.archive_seq().remove_value(t)
        }
    }

    /// The oldest active thread that is not pinned.
    fn find_evictable(&self) -> (r: Option<u64>)
        requires
            self.wf(),
        ensures
            r == self.eviction_candidate(),
    {
        let items = self.active.items();
        let ghost s = self.active@;
        let ghost p = self.sticky_set();
        let mut i: usize = 0;
        assert(s.subrange(0, s.len() as int) =~= s);
        while i < items.len()
            invariant
                items@ == s,
                s == self.active@,
                p == self.sticky_set(),
                i <= s.len(),
                oldest_unpinned(s, p) == oldest_unpinned(s.subrange(i as int, s.len() as int), p),
            decreases s.len() - i,
        {
            let x = items[i];
            let ghost rest = s.subrange(i as int, s.len() as int);
            assert(rest[0] == x);
            if !self.is_sticky(x) {
                assert(oldest_unpinned(rest, p) == Some(x));
                return Some(x);
            }
            assert(rest.drop_first() =~= s.subrange(i + 1, s.len() as int));
            i = i + 1;
        }
        assert(s.subrange(i as int, s.len() as int).len() == 0);
        None
    }

    /// Takes an active thread out: out of the queue, out of the pinned
    /// threads, and its record forgotten.
    fn forget_active(&mut self, x: u64)
        requires
            old(self).wf(),
            old(self).active@.contains(x),
        ensures
            final(self).wf(),
            final(self).active@ == old(self).active@.remove_value(x),
            final(self).active.cap() == old(self).active.cap(),
            final(self).archive == old(self).archive,
            final(self).sticky_set() == old(self).sticky_set().remove(x),
            final(self).records_without(old(self), x),
            final(self).name == old(self).name,
            final(self).description == old(self).description,
    {
        let ghost a = self.active@;
        proof {
            lemma_remove_value(a, x);
        }
        let _ = self.active.remove(x);
        self.unstick(x);
        self.drop_record(x);
        proof {
            assert forall|y: u64| self.sticky@.contains(y) implies self.active@.contains(y) by {
                assert(self.sticky@.to_set().contains(y));
                assert(old(self).sticky@.to_set().contains(y));
            }
        }
    }

    /// Takes an archived thread out and forgets its record.
    fn forget_archived(&mut self, x: u64)
        requires
            old(self).wf(),
            old(self).archive@.contains(x),
        ensures
            final(self).wf(),
            final(self).archive@ == old(self).archive@.remove_value(x),
            final(self).archive.cap() == old(self).archive.cap(),
            final(self).active == old(self).active,
            final(self).sticky == old(self).sticky,
            final(self).records_without(old(self), x),
            final(self).name == old(self).name,
            final(self).description == old(self).description,
    {
        let ghost a = self.archive@;
        proof {
            lemma_remove_value(a, x);
        }
        let _ = self.archive.remove(x);
        self.drop_record(x);
    }

    /// Removes an active thread, unpins it and forgets its record; tells
    /// whether it was active.
    pub fn remove_active(&mut self, parent: u64) -> (r: bool)
        requires
            old(self).wf(),
        ensures
            final(self).wf(),
            r == old(self).active_seq().contains(parent),
            !r ==> *final(self) == *old(self),
            r ==> final(self).active_seq() == old(self).active_seq().remove_value(parent),
            r ==> final(self).sticky_set() == old(self).sticky_set().remove(parent),
            r ==> final(self).records_without(old(self), parent),
            final(self).archive_seq() == old(self).archive_seq(),
            final(self).active_cap() == old(self).active_cap(),
            final(self).archive_cap() == old(self).archive_cap(),
            final(self).name_view() == old(self).name_view(),
            final(self).description_view() == old(self).description_view(),
    {
        if !self.active.contains(parent) {
            return false;
        }
        self.forget_active(parent);
        true
    }

    /// Removes an archived thread and forgets its record; tells whether it
    /// was archived.
    pub fn remove_archive(&mut self, parent: u64) -> (r: bool)
        requires
            old(self).wf(),
        ensures
            final(self).wf(),
            r == old(self).archive_seq().contains(parent),
            !r ==> *final(self) == *old(self),
            r ==> final(self).archive_seq() == old(self).archive_seq().remove_value(parent),
            r ==> final(self).records_without(old(self), parent),
            final(self).active_seq() == old(self).active_seq(),
            final(self).sticky_set() == old(self).sticky_set(),
            final(self).active_cap() == old(self).active_cap(),
            final(self).archive_cap() == old(self).archive_cap(),
            final(self).name_view() == old(self).name_view(),
            final(self).description_view() == old(self).description_view(),
    {
        if !self.archive.contains(parent) {
            return false;
        }
        self.forget_archived(parent);
        true
    }

    /// Removes the most recent active thread, as `remove_active` does, and
    /// returns it.
    pub fn pop_active(&mut self) -> (r: Option<u64>)
        requires
            old(self).wf(),
        ensures
            final(self).wf(),
            old(self).active_seq().len() == 0 ==> r is None && *final(self) == *old(self),
            old(self).active_seq().len() > 0 ==> r == Some(old(self).active_seq().last())
                && final(self).active_seq() == old(self).active_seq().drop_last()
                && final(self).sticky_set() == old(self).sticky_set().remove(r.unwrap())
                && final(self).records_without(old(self), r.unwrap()),
            final(self).archive_seq() == old(self).archive_seq(),
            final(self).active_cap() == old(self).active_cap(),
            final(self).archive_cap() == old(self).archive_cap(),
            final(self).name_view() == old(self).name_view(),
            final(self).description_view() == old(self).description_view(),
    {
        let n = self.active.len();
        if n == 0 {
            return None;
        }
        let x = self.active.items()[n - 1];
        proof {
            let s = self.active@;
            lemma_remove_at_first(s, x, n - 1);
            assert(s.remove(n - 1) =~= s.drop_last());
        }
        self.forget_active(x);
        Some(x)
    }

    /// Removes the most recent archived thread, as `remove_archive` does,
    /// and returns it.
    pub fn pop_archive(&mut self) -> (r: Option<u64>)
        requires
            old(self).wf(),
        ensures
            final(self).wf(),
            old(self).archive_seq().len() == 0 ==> r is None && *final(self) == *old(self),
            old(self).archive_seq().len() > 0 ==> r == Some(old(self).archive_seq().last())
                && final(self).archive_seq() == old(self).archive_seq().drop_last()
                && final(self).records_without(old(self), r.unwrap()),
            final(self).active_seq() == old(self).active_seq(),
            final(self).sticky_set() == old(self).sticky_set(),
            final(self).active_cap() == old(self).active_cap(),
            final(self).archive_cap() == old(self).archive_cap(),
            final(self).name_view() == old(self).name_view(),
            final(self).description_view() == old(self).description_view(),
    {
        let n = self.archive.len();
        if n == 0 {
            return None;
        }
        let x = self.archive.items()[n - 1];
        proof {
            let s = self.archive@;
            lemma_remove_at_first(s, x, n - 1);
            assert(s.remove(n - 1) =~= s.drop_last());
        }
        self.forget_archived(x);
        Some(x)
    }

    /// Removes a thread from whichever queue holds it and from the pinned
    /// threads, and forgets its record; its posts stay. Refuses with
    /// `ThreadNotFound` a thread in neither queue.
    pub fn purge_thread(&mut self, id: u64) -> (r: Result<(), BoardError>)
        requires
            old(self).wf(),
        ensures
            final(self).wf(),
            !old(self).queued(id) ==> r == Err::<(), BoardError>(BoardError::ThreadNotFound)
                && *final(self) == *old(self),
            old(self).queued(id) ==> r is Ok && final(self).records_without(old(self), id),
            old(self).active_seq().contains(id) ==> final(self).active_seq() == old(
                self,
            ).active_seq().remove_value(id) && final(self).archive_seq() == old(
                self,
            ).archive_seq(),
            old(self).archive_seq().contains(id) ==> final(self).archive_seq() == old(
                self,
            ).archive_seq().remove_value(id) && final(self).active_seq() == old(
                self,
            ).active_seq(),
            final(self).sticky_set() == old(self).sticky_set().remove(id),
            final(self).active_cap() == old(self).active_cap(),
            final(self).archive_cap() == old(self).archive_cap(),
            final(self).name_view() == old(self).name_view(),
            final(self).description_view() == old(self).description_view(),
    {
        if self.active.contains(id) {
            self.forget_active(id);
            Ok(())
        } else if self.archive.contains(id) {
            self.forget_archived(id);
            proof {
                assert(!old(self).sticky_set().contains(id));
                assert(old(self).sticky_set().remove(id) =~= old(self).sticky_set());
            }
            Ok(())
        } else {
            proof {
                assert(!old(self).sticky_set().contains(id));
                assert(old(self).sticky_set().remove(id) =~= old(self).sticky_set());
            }
            Err(BoardError::ThreadNotFound)
        }
    }

    /// The eviction protocol: moves the oldest unpinned active thread to the
    /// archive, dropping the oldest archived thread if the archive is full.
    /// Refuses with `BoardFull`, changing nothing, when every active thread
    /// is pinned.
    fn make_room(&mut self) -> (r: Result<(), BoardError>)
        requires
            old(self).wf(),
            old(self).must_evict(),
        ensures
            final(self).wf(),
            old(self).eviction_candidate() is None ==> r == Err::<(), BoardError>(
                BoardError::BoardFull,
            ) && *final(self) == *old(self),
            old(self).eviction_candidate() is Some ==> r is Ok,
            r is Ok ==> final(self).active_seq() == old(self).active_after_room(),
            r is Ok ==> final(self).archive_seq() == old(self).archive_after_room(),
            r is Ok ==> final(self).records_after_room(old(self)),
            r is Ok ==> final(self).active_seq().len() < final(self).active_cap(),
            forall|y: u64| #[trigger] final(self).queued(y) ==> old(self).queued(y),
            final(self).sticky == old(self).sticky,
            final(self).active.cap() == old(self).active.cap(),
            final(self).archive.cap() == old(self).archive.cap(),
            final(self).name == old(self).name,
            final(self).description == old(self).description,
    {
        let x = match self.find_evictable() {
            None => return Err(BoardError::BoardFull),
            Some(x) => x,
        };
        proof {
            lemma_oldest_unpinned(self.active@, self.sticky_set());
            lemma_remove_value(self.active@, x);
            assert(!self.sticky@.contains(x)) by {
                if self.sticky@.contains(x) {
                    assert(self.sticky@.to_set().contains(x));
                }
            }
        }
        let _ = self.active.remove(x);
        let ghost q0 = self.archive@;
        let ghost dropped: Option<u64> = None;
        if self.archive.is_full() {
            match self.archive.dequeue_oldest() {
                Ok(h) => {
                    self.drop_record(h);
                    proof {
                        dropped = Some(h);
                        assert(q0.contains(h)) by {
                            assert(q0[0] == h);
                        }
                        assert forall|y: u64| #[trigger]
                            self.archive@.contains(y) <==> (q0.contains(y) && y != h) by {
                            if self.archive@.contains(y) {
                                let k = choose|k: int|
                                    0 <= k < self.archive@.len() && self.archive@[k] == y;
                                assert(q0[k + 1] == y);
                            }
                            if q0.contains(y) && y != h {
                                let k = choose|k: int| 0 <= k < q0.len() && q0[k] == y;
                                assert(k != 0);
                                assert(self.archive@[k - 1] == y);
                            }
                        }
                    }
                },
                Err(_) => {
                    self.drop_record(x);
                    assert forall|y: u64| #[trigger] self.queued(y) implies old(self).queued(y) by {
                        if self.active@.contains(y) {
                            assert(old(self).active@.contains(y));
                        }
                    }
                    return Ok(());
                },
            }
        }
        let ghost before = self.archive@;
        let _ = self.archive.enqueue(x);
        proof {
            lemma_push_contains(before, x);
            let a0 = old(self).active@;
            assert forall|y: u64| #[trigger]
                self.archive@.contains(y) <==> ((q0.contains(y) && dropped != Some(y)) || y
                    == x) by {
                if dropped is None {
                    assert(before == q0);
                }
            }
            assert forall|y: u64| self.active@.contains(y) implies !self.archive@.contains(y) by {
                assert(a0.contains(y) && y != x);
            }
            assert forall|y: u64| #[trigger] self.queued(y) implies old(self).queued(y) by {
                if self.active@.contains(y) {
                    assert(a0.contains(y));
                }
            }
            assert forall|y: u64| self.sticky@.contains(y) implies self.active@.contains(y) by {
                assert(a0.contains(y));
                assert(y != x);
            }
            assert forall|id: u64| #[trigger] slot(self.threads@, id) is Some implies (
            self.active@.contains(id) || self.archive@.contains(id)) by {
                assert(dropped != Some(id));
                assert(slot(old(self).threads@, id) == slot(self.threads@, id));
                if id == x {
                } else if a0.contains(id) {
                } else {
                    assert(q0.contains(id));
                }
            }
        }
        Ok(())
    }

    /// Everything outside the thread and post records is as in `other`.
    pub open spec fn same_layout(&self, other: &Board) -> bool {
        &&& self.name_view() == other.name_view()
        &&& self.description_view() == other.description_view()
        &&& self.active_seq() == other.active_seq()
        &&& self.archive_seq() == other.archive_seq()
        &&& self.active_cap() == other.active_cap()
        &&& self.archive_cap() == other.archive_cap()
        &&& self.sticky_set() == other.sticky_set()
        &&& self.count() == other.count()
        &&& self.post_set() == other.post_set()
    }

    /// All records are as in `other` but that of thread `id`.
    pub open spec fn threads_but(&self, other: &Board, id: u64) -> bool {
        &&& forall|k: u64| k != id ==> #[trigger] self.thread_of(k) == other.thread_of(k)
        &&& forall|k: u64| #[trigger] self.post_of(k) == other.post_of(k)
    }

    /// All records are as in `other` but that of post `id`.
    pub open spec fn posts_but(&self, other: &Board, id: u64) -> bool {
        &&& forall|k: u64| #[trigger] self.thread_of(k) == other.thread_of(k)
        &&& forall|k: u64| k != id ==> #[trigger] self.post_of(k) == other.post_of(k)
    }

    /// `n` is `t` with its flags as given.
    pub open spec fn flags_set(n: Thread, t: Thread, locked: bool, deleted: bool) -> bool {
        &&& n.name_view() == t.name_view()
        &&& n.children_view() == t.children_view()
        &&& n.is_locked() == locked
        &&& n.is_deleted() == deleted
    }

    /// Takes the record of thread `id` out of its slot.
    fn take_thread(&mut self, id: u64) -> (t: Thread)
        requires
            slot(old(self).threads@, id) is Some,
        ensures
            slot(old(self).threads@, id) == Some(t),
            final(self).threads@ == old(self).threads@.update(id - 1, None),
            final(self).active == old(self).active,
            final(self).archive == old(self).archive,
            final(self).sticky == old(self).sticky,
            final(self).ids == old(self).ids,
            final(self).posts == old(self).posts,
            final(self).name == old(self).name,
            final(self).description == old(self).description,
    {
        let n: usize = self.threads.len();
        assert(id - 1 < n);
        let mut taken: Option<Thread> = None;
        self.threads.set_and_swap((id - 1) as usize, &mut taken);
        taken.unwrap()
    }

    /// Puts a record into the slot of thread `id`.
    fn put_thread(&mut self, id: u64, t: Thread)
        requires
            1 <= id <= old(self).threads@.len(),
        ensures
            final(self).threads@ == old(self).threads@.update(id - 1, Some(t)),
            final(self).active == old(self).active,
            final(self).archive == old(self).archive,
            final(self).sticky == old(self).sticky,
            final(self).ids == old(self).ids,
            final(self).posts == old(self).posts,
            final(self).name == old(self).name,
            final(self).description == old(self).description,
    {
        let n: usize = self.threads.len();
        assert(id - 1 < n);
        self.threads.set((id - 1) as usize, Some(t));
    }

    /// Takes the record of post `id` out of its slot.
    fn take_post(&mut self, id: u64) -> (p: Post)
        requires
            slot(old(self).posts@, id) is Some,
        ensures
            slot(old(self).posts@, id) == Some(p),
            final(self).posts@ == old(self).posts@.update(id - 1, None),
            final(self).active == old(self).active,
            final(self).archive == old(self).archive,
            final(self).sticky == old(self).sticky,
            final(self).ids == old(self).ids,
            final(self).threads == old(self).threads,
            final(self).name == old(self).name,
            final(self).description == old(self).description,
    {
        let n: usize = self.posts.len();
        assert(id - 1 < n);
        let mut taken: Option<Post> = None;
        self.posts.set_and_swap((id - 1) as usize, &mut taken);
        taken.unwrap()
    }

    /// Puts a record into the slot of post `id`.
    fn put_post(&mut self, id: u64, p: Post)
        requires
            1 <= id <= old(self).posts@.len(),
        ensures
            final(self).posts@ == old(self).posts@.update(id - 1, Some(p)),
            final(self).active == old(self).active,
            final(self).archive == old(self).archive,
            final(self).sticky == old(self).sticky,
            final(self).ids == old(self).ids,
            final(self).threads == old(self).threads,
            final(self).name == old(self).name,
            final(self).description == old(self).description,
    {
        let n: usize = self.posts.len();
        assert(id - 1 < n);
        self.posts.set((id - 1) as usize, Some(p));
    }

    /// Sets the flags of thread `id`. Refuses with `ThreadNotFound` a thread
    /// without a record.
    fn set_thread_flags(&mut self, id: u64, locked: bool, deleted: bool) -> (r: Result<
        (),
        BoardError,
    >)
        requires
            old(self).wf(),
        ensures
            final(self).wf(),
            old(self).thread_of(id) is None ==> r == Err::<(), BoardError>(
                BoardError::ThreadNotFound,
            ) && *final(self) == *old(self),
            old(self).thread_of(id) matches Some(t) ==> r is Ok && (final(self).thread_of(
                id,
            ) matches Some(n) && Board::flags_set(n, t, locked, deleted)),
            final(self).same_layout(old(self)),
            final(self).threads_but(old(self), id),
    {
        if self.get_thread(id).is_none() {
            return Err(BoardError::ThreadNotFound);
        }
        let mut t = self.take_thread(id);
        if locked {
            t.lock();
        } else {
            t.unlock();
        }
        if deleted {
            t.delete();
        } else {
            t.undelete();
        }
        self.put_thread(id, t);
        proof {
            assert forall|k: u64| k != id implies #[trigger] slot(self.threads@, k) == slot(
                old(self).threads@,
                k,
            ) by {
                if 1 <= k <= self.threads@.len() {
                    assert(self.threads@[k - 1] == old(self).threads@[k - 1]);
                }
            }
        }
        Ok(())
    }

    /// Locks a thread against replies. Refuses with `ThreadNotFound` a
    /// thread without a record.
    pub fn lock(&mut self, id: u64) -> (r: Result<(), BoardError>)
        requires
            old(self).wf(),
        ensures
            final(self).wf(),
            old(self).thread_of(id) is None ==> r == Err::<(), BoardError>(
                BoardError::ThreadNotFound,
            ) && *final(self) == *old(self),
            old(self).thread_of(id) matches Some(t) ==> r is Ok && (final(self).thread_of(
                id,
            ) matches Some(n) && Board::flags_set(n, t, true, t.is_deleted())),
            final(self).same_layout(old(self)),
            final(self).threads_but(old(self), id),
    {
        match self.get_thread(id) {
            None => Err(BoardError::ThreadNotFound),
            Some(t) => {
                let deleted = t.get_deleted();
                self.set_thread_flags(id, true, deleted)
            },
        }
    }

    /// Lifts the lock of a thread. Refuses with `ThreadNotFound` a thread
    /// without a record.
    pub fn unlock(&mut self, id: u64) -> (r: Result<(), BoardError>)
        requires
            old(self).wf(),
        ensures
            final(self).wf(),
            old(self).thread_of(id) is None ==> r == Err::<(), BoardError>(
                BoardError::ThreadNotFound,
            ) && *final(self) == *old(self),
            old(self).thread_of(id) matches Some(t) ==> r is Ok && (final(self).thread_of(
                id,
            ) matches Some(n) && Board::flags_set(n, t, false, t.is_deleted())),
            final(self).same_layout(old(self)),
            final(self).threads_but(old(self), id),
    {
        match self.get_thread(id) {
            None => Err(BoardError::ThreadNotFound),
            Some(t) => {
                let deleted = t.get_deleted();
                self.set_thread_flags(id, false, deleted)
            },
        }
    }

    /// Sets the soft-delete tombstone of a thread; it stays queued. Refuses
    /// with `ThreadNotFound` a thread without a record.
    pub fn soft_delete_thread(&mut self, id: u64) -> (r: Result<(), BoardError>)
        requires
            old(self).wf(),
        ensures
            final(self).wf(),
            old(self).thread_of(id) is None ==> r == Err::<(), BoardError>(
                BoardError::ThreadNotFound,
            ) && *final(self) == *old(self),
            old(self).thread_of(id) matches Some(t) ==> r is Ok && (final(self).thread_of(
                id,
            ) matches Some(n) && Board::flags_set(n, t, t.is_locked(), true)),
            final(self).same_layout(old(self)),
            final(self).threads_but(old(self), id),
    {
        match self.get_thread(id) {
            None => Err(BoardError::ThreadNotFound),
            Some(t) => {
                let locked = t.get_locked();
                self.set_thread_flags(id, locked, true)
            },
        }
    }

    /// Clears the soft-delete tombstone of a thread. Refuses with
    /// `ThreadNotFound` a thread without a record.
    pub fn undelete_thread(&mut self, id: u64) -> (r: Result<(), BoardError>)
        requires
            old(self).wf(),
        ensures
            final(self).wf(),
            old(self).thread_of(id) is None ==> r == Err::<(), BoardError>(
                BoardError::ThreadNotFound,
            ) && *final(self) == *old(self),
            old(self).thread_of(id) matches Some(t) ==> r is Ok && (final(self).thread_of(
                id,
            ) matches Some(n) && Board::flags_set(n, t, t.is_locked(), false)),
            final(self).same_layout(old(self)),
            final(self).threads_but(old(self), id),
    {
        match self.get_thread(id) {
            None => Err(BoardError::ThreadNotFound),
            Some(t) => {
                let locked = t.get_locked();
                self.set_thread_flags(id, locked, false)
            },
        }
    }

    /// Sets or clears the soft-delete tombstone of a post, which also
    /// records a modification. Refuses with `PostNotFound` an id that is not
    /// a live post.
    fn set_post_deleted(&mut self, id: u64, deleted: bool) -> (r: Result<(), BoardError>)
        requires
            old(self).wf(),
        ensures
            final(self).wf(),
            old(self).post_of(id) is None ==> r == Err::<(), BoardError>(
                BoardError::PostNotFound,
            ) && *final(self) == *old(self),
            old(self).post_of(id) matches Some(p) ==> r is Ok && (final(self).post_of(
                id,
            ) matches Some(n) && n.is_deleted() == deleted && n.owner_view() == p.owner_view()
                && n.text_view() == p.text_view() && n.attachment_spec() == p.attachment_spec()
                && n.created_at() == p.created_at() && n.modified_at() >= p.modified_at()
                && n.parent_id() == p.parent_id()),
            final(self).same_layout(old(self)),
            final(self).posts_but(old(self), id),
    {
        if self.get_post(id).is_none() {
            return Err(BoardError::PostNotFound);
        }
        let mut p = self.take_post(id);
        if deleted {
            p.delete();
        } else {
            p.undelete();
        }
        self.put_post(id, p);
        proof {
            assert forall|k: u64| k != id implies #[trigger] slot(self.posts@, k) == slot(
                old(self).posts@,
                k,
            ) by {
                if 1 <= k <= self.posts@.len() {
                    assert(self.posts@[k - 1] == old(self).posts@[k - 1]);
                }
            }
        }
        Ok(())
    }

    /// Sets the soft-delete tombstone of a post; the post stays live.
    /// Refuses with `PostNotFound` an id that is not a live post.
    pub fn soft_delete_post(&mut self, id: u64) -> (r: Result<(), BoardError>)
        requires
            old(self).wf(),
        ensures
            final(self).wf(),
            old(self).post_of(id) is None ==> r == Err::<(), BoardError>(
                BoardError::PostNotFound,
            ) && *final(self) == *old(self),
            old(self).post_of(id) matches Some(p) ==> r is Ok && (final(self).post_of(
                id,
            ) matches Some(n) && n.is_deleted() && n.owner_view() == p.owner_view()
                && n.text_view() == p.text_view() && n.attachment_spec() == p.attachment_spec()
                && n.created_at() == p.created_at() && n.modified_at() >= p.modified_at()
                && n.parent_id() == p.parent_id()),
            final(self).same_layout(old(self)),
            final(self).posts_but(old(self), id),
    {
        self.set_post_deleted(id, true)
    }

    /// Clears the soft-delete tombstone of a post. Refuses with
    /// `PostNotFound` an id that is not a live post.
    pub fn undelete_post(&mut self, id: u64) -> (r: Result<(), BoardError>)
        requires
            old(self).wf(),
        ensures
            final(self).wf(),
            old(self).post_of(id) is None ==> r == Err::<(), BoardError>(
                BoardError::PostNotFound,
            ) && *final(self) == *old(self),
            old(self).post_of(id) matches Some(p) ==> r is Ok && (final(self).post_of(
                id,
            ) matches Some(n) && !n.is_deleted() && n.owner_view() == p.owner_view()
                && n.text_view() == p.text_view() && n.attachment_spec() == p.attachment_spec()
                && n.created_at() == p.created_at() && n.modified_at() >= p.modified_at()
                && n.parent_id() == p.parent_id()),
            final(self).same_layout(old(self)),
            final(self).posts_but(old(self), id),
    {
        self.set_post_deleted(id, false)
    }

    /// Starts a thread: issues the next post id, which becomes both the
    /// root post's id and the thread's, and makes the thread the most recent
    /// active one, running the eviction protocol first if the active queue
    /// is full. Refuses with `IdSpaceExhausted` when no id is left, with
    /// `DuplicateThread` when the next id is already queued, and with
    /// `BoardFull` when eviction finds only pinned threads.
    pub fn create_thread(
        &mut self,
        name: String,
        owner: String,
        text: String,
        attachment: Bytes,
    ) -> (r: Result<u64, BoardError>)
        requires
            old(self).wf(),
        ensures
            final(self).wf(),
            old(self).count() == u64::MAX ==> r == Err::<u64, BoardError>(
                BoardError::IdSpaceExhausted,
            ),
            old(self).count() < u64::MAX && old(self).queued((old(self).count() + 1) as u64)
                ==> r == Err::<u64, BoardError>(BoardError::DuplicateThread),
            old(self).count() < u64::MAX && !old(self).queued((old(self).count() + 1) as u64)
                && !old(self).has_room() ==> r == Err::<u64, BoardError>(BoardError::BoardFull),
            old(self).count() < u64::MAX && !old(self).queued((old(self).count() + 1) as u64)
                && old(self).has_room() ==> r == Ok::<u64, BoardError>(
                (old(self).count() + 1) as u64,
            ),
            r is Err ==> *final(self) == *old(self),
            r matches Ok(id) ==> {
                &&& final(self).count() == old(self).count() + 1
                &&& final(self).post_set() == old(self).post_set().insert(id)
                &&& final(self).active_seq() == old(self).active_after_room().push(id)
                &&& final(self).archive_seq() == old(self).archive_after_room()
                &&& final(self).sticky_set() == old(self).sticky_set()
                &&& final(self).thread_of(id) matches Some(t) && t.name_view() == name@
                    && t.children_view() == seq![id] && !t.is_locked() && !t.is_deleted()
                &&& final(self).post_of(id) matches Some(p) && p.owner_view() == owner@
                    && p.text_view() == text@ && p.attachment_spec() == attachment
                    && !p.is_deleted() && p.parent_id() == id && p.created_at()
                    == p.modified_at()
                &&& forall|k: u64|
                    k != id ==> #[trigger] final(self).thread_of(k) == if old(
                        self,
                    ).discarded_by_room() == Some(k) {
                        None
                    } else {
                        old(self).thread_of(k)
                    }
                &&& forall|k: u64| k != id ==> #[trigger] final(self).post_of(k) == old(self).post_of(k)
            },
            final(self).active_cap() == old(self).active_cap(),
            final(self).archive_cap() == old(self).archive_cap(),
            final(self).name_view() == old(self).name_view(),
            final(self).description_view() == old(self).description_view(),
    {
        if self.ids.count() == u64::MAX {
            return Err(BoardError::IdSpaceExhausted);
        }
        let next = self.ids.count() + 1;
        if self.active.contains(next) || self.archive.contains(next) {
            return Err(BoardError::DuplicateThread);
        }
        let ghost start = *self;
        if self.active.is_full() {
            let room = self.make_room();
            if room.is_err() {
                return Err(BoardError::BoardFull);
            }
        } else {
            assert(!start.must_evict());
        }
        let ghost roomy = *self;
        let id = match self.next_id() {
            Ok(id) => id,
            Err(e) => return Err(e),
        };
        let ghost opened = *self;
        let thread = Thread::new(name, id);
        let post = Post::new(owner, text, attachment, id);
        self.put_thread(id, thread);
        self.put_post(id, post);
        let _ = self.ids.mark_used(id);
        let ghost a = self.active@;
        let _ = self.active.enqueue(id);
        proof {
            lemma_push_contains(a, id);
            assert(!roomy.queued(id));
            assert forall|k: u64| k != id implies #[trigger] slot(self.threads@, k) == slot(
                opened.threads@,
                k,
            ) by {
                if 1 <= k <= self.threads@.len() {
                    assert(self.threads@[k - 1] == opened.threads@[k - 1]);
                }
            }
            assert forall|k: u64| k != id implies #[trigger] slot(self.posts@, k) == slot(
                opened.posts@,
                k,
            ) by {
                if 1 <= k <= self.posts@.len() {
                    assert(self.posts@[k - 1] == opened.posts@[k - 1]);
                }
            }
            assert(slot(self.threads@, id) == Some(thread));
            assert(slot(self.posts@, id) == Some(post));
            assert forall|k: u64|
                #![trigger self.ids.live().contains(k)]
                #![trigger slot(self.posts@, k)]
                self.ids.live().contains(k) <==> slot(self.posts@, k) is Some by {
                if k != id {
                    assert(opened.ids.live().contains(k) <==> slot(opened.posts@, k) is Some);
                }
            }
            assert forall|k: u64| #[trigger]
                self.thread_of(k) == if start.discarded_by_room() == Some(k) && k != id {
                    None
                } else if k == id {
                    Some(thread)
                } else {
                    start.thread_of(k)
                } by {
                if k != id {
                    assert(opened.thread_of(k) == roomy.thread_of(k));
                }
            }
            if !start.must_evict() {
                assert(roomy == start);
            }
            assert(roomy.active_seq() == start.active_after_room());
            assert(self.active_seq() == start.active_after_room().push(id));
            assert(self.archive_seq() == start.archive_after_room());
            assert(self.post_set() == start.post_set().insert(id));
            assert(self.count() == start.count() + 1);
            assert(self.sticky_set() == start.sticky_set());
            assert(self.thread_of(id) == Some(thread));
            assert(self.post_of(id) == Some(post));
            assert forall|k: u64| k != id implies #[trigger] self.thread_of(k) == if start.discarded_by_room() == Some(k) {
                None
            } else {
                start.thread_of(k)
            } by {
                assert(opened.thread_of(k) == roomy.thread_of(k));
            }
            assert forall|k: u64| k != id implies #[trigger] self.post_of(k) == start.post_of(k) by {
                assert(opened.post_of(k) == roomy.post_of(k));
                assert(roomy.post_of(k) == start.post_of(k));
            }
        }
        Ok(id)
    }

    /// Brings an archived thread back to the active queue as its most recent
    /// thread: the thread leaves the archive first, then the eviction
    /// protocol runs if the active queue is full. Refuses with `BoardFull`,
    /// changing nothing, when eviction finds only pinned threads.
    fn promote(&mut self, t: u64) -> (r: Result<(), BoardError>)
        requires
            old(self).wf(),
            old(self).archive@.contains(t),
        ensures
            final(self).wf(),
            !old(self).has_room() ==> r == Err::<(), BoardError>(BoardError::BoardFull)
                && *final(self) == *old(self),
            old(self).has_room() ==> r is Ok,
            r is Ok ==> final(self).active_seq() == old(self).active_after_reply(t),
            r is Ok ==> final(self).archive_seq() == old(self).archive_after_reply(t),
            final(self).sticky == old(self).sticky,
            final(self).ids == old(self).ids,
            final(self).threads == old(self).threads,
            final(self).posts == old(self).posts,
            final(self).active.cap() == old(self).active.cap(),
            final(self).archive.cap() == old(self).archive.cap(),
            final(self).name == old(self).name,
            final(self).description == old(self).description,
    {
        let full = self.active.is_full();
        let mut x: u64 = 0;
        if full {
            match self.find_evictable() {
                None => return Err(BoardError::BoardFull),
                Some(e) => {
                    x = e;
                },
            }
        }
        let ghost a0 = self.active@;
        let ghost q0 = self.archive@;
        proof {
            assert(!a0.contains(t));
            lemma_remove_value(q0, t);
            if full {
                lemma_oldest_unpinned(a0, self.sticky_set());
                lemma_remove_value(a0, x);
                assert(!self.sticky@.contains(x)) by {
                    if self.sticky@.contains(x) {
                        assert(self.sticky@.to_set().contains(x));
                    }
                }
            }
        }
        let _ = self.archive.remove(t);
        if full {
            let _ = self.active.remove(x);
            let ghost q1 = self.archive@;
            let _ = self.archive.enqueue(x);
            proof {
                lemma_push_contains(q1, x);
            }
        }
        let ghost a1 = self.active@;
        let _ = self.active.enqueue(t);
        proof {
            lemma_push_contains(a1, t);
            assert forall|y: u64| self.active@.contains(y) implies !self.archive@.contains(y) by {
                if y != t {
                    assert(a0.contains(y));
                }
            }
            assert forall|y: u64| self.sticky@.contains(y) implies self.active@.contains(y) by {
                assert(a0.contains(y));
            }
            assert forall|id: u64| #[trigger] slot(self.threads@, id) is Some implies (
            self.active@.contains(id) || self.archive@.contains(id)) by {
                if a0.contains(id) {
                } else {
                    assert(q0.contains(id));
                }
            }
        }
        Ok(())
    }

    /// As `reply`, but with `allow_deleted` set, an administrative override,
    /// a thread carrying the soft-delete tombstone takes replies too.
    pub fn reply_allowing_deleted(
        &mut self,
        thread_id: u64,
        owner: String,
        text: String,
        attachment: Bytes,
        allow_deleted: bool,
    ) -> (r: Result<u64, BoardError>)
        requires
            old(self).wf(),
        ensures
            final(self).wf(),
            old(self).thread_of(thread_id) is None ==> r == Err::<u64, BoardError>(
                BoardError::ThreadNotFound,
            ),
            old(self).thread_of(thread_id) matches Some(th) ==> {
                &&& th.is_locked() ==> r == Err::<u64, BoardError>(BoardError::ThreadLocked)
                &&& !th.is_locked() && th.is_deleted() && !allow_deleted ==> r == Err::<
                    u64,
                    BoardError,
                >(BoardError::ThreadDeleted)
                &&& !th.is_locked() && (!th.is_deleted() || allow_deleted) && old(self).count() == u64::MAX ==> r
                    == Err::<u64, BoardError>(BoardError::IdSpaceExhausted)
                &&& !th.is_locked() && (!th.is_deleted() || allow_deleted) && old(self).count() < u64::MAX && !old(
                    self,
                ).active_seq().contains(thread_id) && !old(self).has_room() ==> r == Err::<
                    u64,
                    BoardError,
                >(BoardError::BoardFull)
                &&& !th.is_locked() && (!th.is_deleted() || allow_deleted) && old(self).count() < u64::MAX && (old(
                    self,
                ).active_seq().contains(thread_id) || old(self).has_room()) ==> r == Ok::<
                    u64,
                    BoardError,
                >((old(self).count() + 1) as u64)
                &&& r matches Ok(id) ==> final(self).thread_of(thread_id) matches Some(n)
                    && n.children_view() == th.children_view().push(id) && n.name_view()
                    == th.name_view() && n.is_locked() == th.is_locked() && n.is_deleted()
                    == th.is_deleted()
            },
            r is Err ==> *final(self) == *old(self),
            r matches Ok(id) ==> {
                &&& final(self).count() == old(self).count() + 1
                &&& final(self).post_set() == old(self).post_set().insert(id)
                &&& final(self).active_seq() == old(self).active_after_reply(thread_id)
                &&& final(self).archive_seq() == old(self).archive_after_reply(thread_id)
                &&& final(self).sticky_set() == old(self).sticky_set()
                &&& final(self).post_of(id) matches Some(p) && p.owner_view() == owner@
                    && p.text_view() == text@ && p.attachment_spec() == attachment
                    && !p.is_deleted() && p.parent_id() == thread_id && p.created_at()
                    == p.modified_at()
                &&& forall|k: u64|
                    k != thread_id ==> #[trigger] final(self).thread_of(k) == old(self).thread_of(k)
                &&& forall|k: u64| k != id ==> #[trigger] final(self).post_of(k) == old(self).post_of(k)
            },
            final(self).active_cap() == old(self).active_cap(),
            final(self).archive_cap() == old(self).archive_cap(),
            final(self).name_view() == old(self).name_view(),
            final(self).description_view() == old(self).description_view(),
    {
        let (locked, deleted) = match self.get_thread(thread_id) {
            None => return Err(BoardError::ThreadNotFound),
            Some(t) => (t.get_locked(), t.get_deleted()),
        };
        if locked {
            return Err(BoardError::ThreadLocked);
        }
        if deleted && !allow_deleted {
            return Err(BoardError::ThreadDeleted);
        }
        if self.ids.count() == u64::MAX {
            return Err(BoardError::IdSpaceExhausted);
        }
        if self.active.contains(thread_id) {
            let ghost a0 = self.active@;
            proof {
                lemma_remove_value(a0, thread_id);
                lemma_push_contains(a0.remove_value(thread_id), thread_id);
            }
            let _ = self.active.bump(thread_id);
        } else {
            let promoted = self.promote(thread_id);
            if promoted.is_err() {
                return Err(BoardError::BoardFull);
            }
        }
        let ghost moved = *self;
        let id = match self.next_id() {
            Ok(id) => id,
            Err(e) => return Err(e),
        };
        let ghost opened = *self;
        let post = Post::new(owner, text, attachment, thread_id);
        self.put_post(id, post);
        let _ = self.ids.mark_used(id);
        assert(opened.thread_of(thread_id) == moved.thread_of(thread_id));
        assert(slot(self.threads@, thread_id) == slot(old(self).threads@, thread_id));
        let mut th = self.take_thread(thread_id);
        let ghost before = th;
        th.add_child(id);
        let ghost after = th;
        self.put_thread(thread_id, th);
        proof {
            assert(after.children_view()[0] == before.children_view()[0]);
            assert forall|k: u64| k != thread_id implies #[trigger] slot(self.threads@, k) == slot(
                opened.threads@,
                k,
            ) by {
                if 1 <= k <= self.threads@.len() {
                    assert(self.threads@[k - 1] == opened.threads@[k - 1]);
                }
            }
            assert forall|k: u64| k != id implies #[trigger] slot(self.posts@, k) == slot(
                opened.posts@,
                k,
            ) by {
                if 1 <= k <= self.posts@.len() {
                    assert(self.posts@[k - 1] == opened.posts@[k - 1]);
                }
            }
            assert(slot(self.threads@, thread_id) == Some(after));
            assert(slot(self.posts@, id) == Some(post));
            assert forall|k: u64| k != thread_id implies #[trigger] self.thread_of(k) == old(self).thread_of(k) by {
                assert(opened.thread_of(k) == moved.thread_of(k));
                assert(moved.threads == old(self).threads);
            }
            assert forall|k: u64| k != id implies #[trigger] self.post_of(k) == old(self).post_of(k) by {
                assert(opened.post_of(k) == moved.post_of(k));
                assert(moved.posts == old(self).posts);
            }
            assert(self.active_seq() == old(self).active_after_reply(thread_id));
            assert(self.archive_seq() == old(self).archive_after_reply(thread_id));
            assert(self.post_set() == old(self).post_set().insert(id));
            assert(self.sticky_set() == old(self).sticky_set());
            assert forall|k: u64|
                #![trigger self.ids.live().contains(k)]
                #![trigger slot(self.posts@, k)]
                self.ids.live().contains(k) <==> slot(self.posts@, k) is Some by {
                if k != id {
                    assert(opened.ids.live().contains(k) <==> slot(opened.posts@, k) is Some);
                }
            }
        }
        Ok(id)
    }

    /// Adds a post to thread `thread_id` and makes the thread the most
    /// recent active one: bumped if active, promoted if archived. Refuses,
    /// in this order, with `ThreadNotFound` for a thread without a record,
    /// `ThreadLocked`, `ThreadDeleted`, `IdSpaceExhausted`, and `BoardFull`
    /// when a promotion finds only pinned threads to evict. Returns the new
    /// post's id.
    pub fn reply(
        &mut self,
        thread_id: u64,
        owner: String,
        text: String,
        attachment: Bytes,
    ) -> (r: Result<u64, BoardError>)
        requires
            old(self).wf(),
        ensures
            final(self).wf(),
            old(self).thread_of(thread_id) is None ==> r == Err::<u64, BoardError>(
                BoardError::ThreadNotFound,
            ),
            old(self).thread_of(thread_id) matches Some(th) ==> {
                &&& th.is_locked() ==> r == Err::<u64, BoardError>(BoardError::ThreadLocked)
                &&& !th.is_locked() && th.is_deleted() ==> r == Err::<u64, BoardError>(
                    BoardError::ThreadDeleted,
                )
                &&& !th.is_locked() && !th.is_deleted() && old(self).count() == u64::MAX ==> r
                    == Err::<u64, BoardError>(BoardError::IdSpaceExhausted)
                &&& !th.is_locked() && !th.is_deleted() && old(self).count() < u64::MAX && !old(
                    self,
                ).active_seq().contains(thread_id) && !old(self).has_room() ==> r == Err::<
                    u64,
                    BoardError,
                >(BoardError::BoardFull)
                &&& !th.is_locked() && !th.is_deleted() && old(self).count() < u64::MAX && (old(
                    self,
                ).active_seq().contains(thread_id) || old(self).has_room()) ==> r == Ok::<
                    u64,
                    BoardError,
                >((old(self).count() + 1) as u64)
                &&& r matches Ok(id) ==> final(self).thread_of(thread_id) matches Some(n)
                    && n.children_view() == th.children_view().push(id) && n.name_view()
                    == th.name_view() && n.is_locked() == th.is_locked() && n.is_deleted()
                    == th.is_deleted()
            },
            r is Err ==> *final(self) == *old(self),
            r matches Ok(id) ==> {
                &&& final(self).count() == old(self).count() + 1
                &&& final(self).post_set() == old(self).post_set().insert(id)
                &&& final(self).active_seq() == old(self).active_after_reply(thread_id)
                &&& final(self).archive_seq() == old(self).archive_after_reply(thread_id)
                &&& final(self).sticky_set() == old(self).sticky_set()
                &&& final(self).post_of(id) matches Some(p) && p.owner_view() == owner@
                    && p.text_view() == text@ && p.attachment_spec() == attachment
                    && !p.is_deleted() && p.parent_id() == thread_id && p.created_at()
                    == p.modified_at()
                &&& forall|k: u64|
                    k != thread_id ==> #[trigger] final(self).thread_of(k) == old(self).thread_of(k)
                &&& forall|k: u64| k != id ==> #[trigger] final(self).post_of(k) == old(self).post_of(k)
            },
            final(self).active_cap() == old(self).active_cap(),
            final(self).archive_cap() == old(self).archive_cap(),
            final(self).name_view() == old(self).name_view(),
            final(self).description_view() == old(self).description_view(),
    {
        self.reply_allowing_deleted(thread_id, owner, text, attachment, false)
    }

    /// Hands over everything the board holds, for storage.
    pub fn into_snapshot(self) -> (s: BoardSnapshot)
        requires
            self.wf(),
        ensures
            s.describes(&self),
            s.valid(),
    {
        let ghost b = self;
        let count = self.ids.count();
        let s = BoardSnapshot {
            name: self.name,
            description: self.description,
            active_capacity: self.active.capacity(),
            archive_capacity: self.archive.capacity(),
            active: self.active.into_items(),
            archive: self.archive.into_items(),
            sticky: self.sticky,
            count,
            threads: self.threads,
            posts: self.posts,
        };
        proof {
            assert forall|id: u64| #[trigger] b.post_set().contains(id) <==> slot(s.posts@, id) is Some by {
                assert(b.ids.live().contains(id) <==> slot(b.posts@, id) is Some);
            }
        }
        s
    }

    /// Rebuilds a board from a snapshot. Succeeds exactly when the snapshot
    /// holds a board that keeps the board invariant, and then the board holds
    /// exactly what the snapshot does. Otherwise it refuses with the error
    /// that `refusal` names: `QueueFull` or `DuplicateThread` for a queue
    /// over its capacity or holding a thread twice, `DuplicateThread` for a
    /// thread both active and archived, `ThreadNotFound` for a pinned thread
    /// that is not active, `AlreadySticky` for a thread pinned twice,
    /// `PostNotFound` for record tables that do not match the counter,
    /// `ThreadNotFound` for a thread record that is not queued or not rooted
    /// at its own id, and `PostNotFound` for a post modified before it was
    /// created.
    #[verifier::loop_isolation(false)]
    pub fn from_snapshot(s: BoardSnapshot) -> (r: Result<Board, BoardError>)
        ensures
            r is Ok <==> s.valid(),
            s.valid() <==> s.refusal() is None,
            r matches Err(e) ==> s.refusal() == Some(e),
            r matches Ok(b) ==> b.wf() && s.describes(&b),
    {
        let ghost g = s;
        let BoardSnapshot {
            name,
            description,
            active_capacity,
            archive_capacity,
            active,
            archive,
            sticky,
            count,
            threads,
            posts,
        } = s;
        let active = match ThreadQueue::from_items(active, active_capacity) {
            Ok(q) => q,
            Err(e) => return Err(e),
        };
        let archive = match ThreadQueue::from_items(archive, archive_capacity) {
            Ok(q) => q,
            Err(e) => return Err(e),
        };
        let mut i: usize = 0;
        while i < active.len()
            invariant
                active.wf(),
                archive.wf(),
                i <= active@.len(),
                forall|k: int| 0 <= k < i ==> !archive@.contains(#[trigger] active@[k]),
            decreases active@.len() - i,
        {
            if archive.contains(active.items()[i]) {
                assert(active@.contains(active@[i as int]));
                return Err(BoardError::DuplicateThread);
            }
            i = i + 1;
        }
        assert forall|x: u64| active@.contains(x) implies !archive@.contains(x) by {
            let k = choose|k: int| 0 <= k < active@.len() && active@[k] == x;
            assert(!archive@.contains(active@[k]));
        }
        let mut i: usize = 0;
        while i < sticky.len()
            invariant
                active.wf(),
                i <= sticky@.len(),
                forall|k: int| 0 <= k < i ==> active@.contains(#[trigger] sticky@[k]),
            decreases sticky@.len() - i,
        {
            if !active.contains(sticky[i]) {
                assert(sticky@.contains(sticky@[i as int]));
                return Err(BoardError::ThreadNotFound);
            }
            i = i + 1;
        }
        assert forall|x: u64| sticky@.contains(x) implies active@.contains(x) by {
            let k = choose|k: int| 0 <= k < sticky@.len() && sticky@[k] == x;
            assert(active@.contains(sticky@[k]));
        }
        let mut i: usize = 0;
        while i < sticky.len()
            invariant
                i <= sticky@.len(),
                forall|a: int, b: int| 0 <= a < b < i ==> sticky@[a] != sticky@[b],
            decreases sticky@.len() - i,
        {
            let mut j: usize = 0;
            while j < i
                invariant
                    i < sticky@.len(),
                    j <= i,
                    forall|a: int| 0 <= a < j ==> sticky@[a] != sticky@[i as int],
                decreases i - j,
            {
                if sticky[j] == sticky[i] {
                    assert(!sticky@.no_duplicates()) by {
                        assert(sticky@[j as int] == sticky@[i as int]);
                    }
                    return Err(BoardError::AlreadySticky);
                }
                j = j + 1;
            }
            i = i + 1;
        }
        assert(sticky@.no_duplicates()) by {
            assert forall|a: int, b: int|
                0 <= a < sticky@.len() && 0 <= b < sticky@.len() && a != b implies sticky@[a]
                != sticky@[b] by {
                if a < b {
                } else {
                }
            }
        }
        if threads.len() as u128 != count as u128 || posts.len() as u128 != count as u128 {
            return Err(BoardError::PostNotFound);
        }
        let mut i: usize = 0;
        while i < threads.len()
            invariant
                i <= threads@.len(),
                threads@.len() == count,
                forall|k: int|
                    0 <= k < i ==> (#[trigger] threads@[k] matches Some(t) ==> t.wf()
                        && t.parent() == k + 1 && (active@.contains((k + 1) as u64)
                        || archive@.contains((k + 1) as u64))),
            decreases threads@.len() - i,
        {
            if let Some(t) = &threads[i] {
                let id = (i + 1) as u64;
                assert(slot(g.threads@, id) == Some(*t));
                if t.get_children().len() == 0 {
                    return Err(BoardError::ThreadNotFound);
                }
                if t.get_parent() != id {
                    return Err(BoardError::ThreadNotFound);
                }
                if !active.contains(id) && !archive.contains(id) {
                    return Err(BoardError::ThreadNotFound);
                }
            }
            i = i + 1;
        }
        let mut i: usize = 0;
        while i < posts.len()
            invariant
                i <= posts@.len(),
                forall|k: int| 0 <= k < i ==> (#[trigger] posts@[k] matches Some(p) ==> p.wf()),
            decreases posts@.len() - i,
        {
            if let Some(p) = &posts[i] {
                assert(slot(g.posts@, (i + 1) as u64) == Some(*p));
                if *p.get_created() > *p.get_modified() {
                    return Err(BoardError::PostNotFound);
                }
            }
            i = i + 1;
        }
        let mut ids = PostIdAllocator::new();
        let mut i: usize = 0;
        while i < posts.len()
            invariant
                i <= posts@.len(),
                posts@.len() == count,
                ids.wf(),
                ids.issued() == i,
                forall|id: u64| #[trigger]
                    ids.live().contains(id) <==> (1 <= id <= i && posts@[id - 1] is Some),
            decreases posts@.len() - i,
        {
            let id = match ids.allocate() {
                Ok(id) => id,
                Err(e) => return Err(e),
            };
            if posts[i].is_some() {
                let _ = ids.mark_used(id);
            }
            i = i + 1;
        }
        let b = Board { name, description, active, archive, sticky, ids, threads, posts };
        proof {
            assert forall|id: u64| #[trigger] slot(b.threads@, id) is Some implies slot(
                b.threads@,
                id,
            ).unwrap().wf() && slot(b.threads@, id).unwrap().parent() == id && (b.active@.contains(
                id,
            ) || b.archive@.contains(id)) by {
                let k = id - 1;
                assert(b.threads@[k] is Some);
            }
            assert forall|id: u64| #[trigger] slot(b.posts@, id) is Some implies slot(
                b.posts@,
                id,
            ).unwrap().wf() by {
                let k = id - 1;
                assert(b.posts@[k] is Some);
            }
            assert(sticky@.to_set() == b.sticky_set());
        }
        Ok(b)
    }

    pub fn modify_name(&mut self, new_name: String)
        requires
            old(self).wf(),
        ensures
            final(self).wf(),
            final(self).name_view() == new_name@,
            final(self).description_view() == old(self).description_view(),
            final(self).same_state(old(self)),
    {
        self.name = new_name;
    }

    pub fn modify_description(&mut self, new_description: String)
        requires
            old(self).wf(),
        ensures
            final(self).wf(),
            final(self).description_view() == new_description@,
            final(self).name_view() == old(self).name_view(),
            final(self).same_state(old(self)),
    {
        self.description = new_description;
    }
}

} // verus!
