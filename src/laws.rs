use vstd::prelude::*;

use crate::board::{slot, Board, BoardSnapshot};
use crate::queue::{lemma_remove_at_first, lemma_remove_value, ThreadQueue};

verus! {

/// Neither queue ever holds more threads than its capacity. Every operation
/// of a board keeps its invariant, so this holds after any sequence of them.
pub proof fn law_queues_within_capacity(b: &Board)
    requires
        b.wf(),
    ensures
        b.active_seq().len() <= b.active_cap(),
        b.archive_seq().len() <= b.archive_cap(),
{
    b.lemma_wf();
}

/// Every pinned thread is active: a thread is never pinned while archived.
pub proof fn law_pinned_threads_are_active(b: &Board, id: u64)
    requires
        b.wf(),
        b.sticky_set().contains(id),
    ensures
        b.active_seq().contains(id),
        !b.archive_seq().contains(id),
{
    b.lemma_wf();
}

/// The call that took `before` to `after` issued post id `id`: what
/// `create_thread`, `reply` and `increment_count` promise when they succeed.
pub open spec fn issued_by(before: &Board, after: &Board, id: u64) -> bool {
    &&& id == before.count() + 1
    &&& after.count() == id
}

/// Post ids are strictly increasing and never repeat: an id issued before
/// some other operations, deletes and purges among them (none of which lowers
/// the counter), is smaller than any id issued after them, and a new id is
/// never among the live posts.
pub proof fn law_post_ids_increase(
    b0: &Board,
    b1: &Board,
    b2: &Board,
    b3: &Board,
    first: u64,
    second: u64,
)
    requires
        b0.wf(),
        b2.wf(),
        issued_by(b0, b1, first),
        b1.count() <= b2.count(),
        issued_by(b2, b3, second),
    ensures
        first < second,
        !b0.post_set().contains(first),
        !b2.post_set().contains(second),
{
    b0.lemma_wf();
    b2.lemma_wf();
}

/// Bumping the most recent thread of a queue leaves the order as it is.
pub proof fn law_bump_newest_keeps_order(q: &ThreadQueue)
    requires
        q.wf(),
        q@.len() > 0,
    ensures
        q@.remove_value(q@.last()).push(q@.last()) == q@,
{
    let s = q@;
    lemma_remove_at_first(s, s.last(), s.len() - 1);
    assert(s.remove(s.len() - 1).push(s.last()) =~= s);
}

/// A snapshot of a board is one that loading accepts, and the board loaded
/// from it has the same name, description, queues in the same order,
/// capacities, pinned threads, counter, live posts and records.
pub proof fn law_snapshot_round_trip(b: &Board, s: &BoardSnapshot, r: &Board)
    requires
        b.wf(),
        s.describes(b),
        s.describes(r),
    ensures
        s.valid(),
        r.name_view() == b.name_view(),
        r.description_view() == b.description_view(),
        r.same_state(b),
{
    b.lemma_wf();
    assert forall|id: u64| #[trigger] slot(s.threads@, id) is Some implies slot(
        s.threads@,
        id,
    ).unwrap().wf() && slot(s.threads@, id).unwrap().parent() == id && (s.active@.contains(id)
        || s.archive@.contains(id)) by {
        assert(slot(s.threads@, id) == b.thread_of(id));
    }
    assert forall|id: u64| #[trigger] slot(s.posts@, id) is Some implies slot(
        s.posts@,
        id,
    ).unwrap().wf() by {
        assert(slot(s.posts@, id) == b.post_of(id));
    }
    assert forall|x: u64| s.sticky@.contains(x) implies s.active@.contains(x) by {
        assert(s.sticky@.to_set().contains(x));
    }
    assert forall|id: u64| #[trigger] r.thread_of(id) == b.thread_of(id) by {
        assert(slot(s.threads@, id) == b.thread_of(id));
    }
    assert forall|id: u64| #[trigger] r.post_of(id) == b.post_of(id) by {
        assert(slot(s.posts@, id) == b.post_of(id));
    }
    assert(r.post_set() =~= b.post_set()) by {
        assert forall|id: u64| r.post_set().contains(id) <==> b.post_set().contains(id) by {
            assert(slot(s.posts@, id) is Some <==> b.post_set().contains(id));
            assert(slot(s.posts@, id) is Some <==> r.post_set().contains(id));
        }
    }
}

/// Purging an archived thread takes it out of the archive and leaves the
/// active queue as it was; the thread's record is gone, so a later `reply`
/// to it is refused with `ThreadNotFound`.
pub proof fn law_purge_archived(b0: &Board, b1: &Board, id: u64)
    requires
        b0.wf(),
        b0.archive_seq().contains(id),
        b1.archive_seq() == b0.archive_seq().remove_value(id),
        b1.active_seq() == b0.active_seq(),
        b1.records_without(b0, id),
    ensures
        !b1.archive_seq().contains(id),
        !b1.active_seq().contains(id),
        b1.active_seq() == b0.active_seq(),
        b1.thread_of(id) is None,
{
    b0.lemma_wf();
    lemma_remove_value(b0.archive_seq(), id);
}

} // verus!
