use bytes::Bytes;
use forum_core::board::{Board, BoardSnapshot};
use forum_core::config::parse_count;
use forum_core::error::BoardError;
use forum_core::ids::PostIdAllocator;
use forum_core::queue::ThreadQueue;
use forum_core::thread::Thread;

fn board(active: usize, archive: usize) -> Board {
    Board::with_capacity("b".to_string(), "d".to_string(), active, archive)
}

fn start(b: &mut Board, name: &str) -> u64 {
    b.create_thread(
        name.to_string(),
        "owner".to_string(),
        "text".to_string(),
        Bytes::new(),
    )
    .unwrap()
}

fn answer(b: &mut Board, thread: u64) -> Result<u64, BoardError> {
    b.reply(thread, "owner".to_string(), "reply".to_string(), Bytes::new())
}

#[test]
fn eviction_then_promotion_on_reply() {
    let mut b = board(2, 2);
    let a = start(&mut b, "A");
    let bb = start(&mut b, "B");
    assert_eq!(b.get_active(), &vec![a, bb]);
    let c = start(&mut b, "C");
    assert_eq!(b.get_archive(), &vec![a]);
    assert_eq!(b.get_active(), &vec![bb, c]);
    answer(&mut b, a).unwrap();
    assert_eq!(b.get_archive(), &vec![bb]);
    assert_eq!(b.get_active(), &vec![c, a]);
}

#[test]
fn pinned_thread_is_never_evicted() {
    let mut b = board(2, 4);
    let a = start(&mut b, "A");
    let bb = start(&mut b, "B");
    b.pin(a).unwrap();
    let c = start(&mut b, "C");
    assert_eq!(b.get_active(), &vec![a, c]);
    assert_eq!(b.get_archive(), &vec![bb]);
    let d = start(&mut b, "D");
    assert_eq!(b.get_active(), &vec![a, d]);
    assert_eq!(b.get_archive(), &vec![bb, c]);
    assert!(b.get_sticky().contains(&a));
}

#[test]
fn all_pinned_board_refuses_without_change() {
    let mut b = board(1, 1);
    let a = start(&mut b, "A");
    b.pin(a).unwrap();
    let count = b.get_count();
    let r = b.create_thread(
        "B".to_string(),
        "owner".to_string(),
        "text".to_string(),
        Bytes::new(),
    );
    assert_eq!(r, Err(BoardError::BoardFull));
    assert_eq!(b.get_active(), &vec![a]);
    assert_eq!(b.get_archive().len(), 0);
    assert_eq!(b.get_sticky(), &vec![a]);
    assert_eq!(b.get_count(), count);
    assert_eq!(b.post_ids(), vec![a]);
}

#[test]
fn snapshot_round_trip_keeps_everything() {
    let mut b = board(2, 3);
    let a = start(&mut b, "A");
    let t2 = start(&mut b, "B");
    let t3 = start(&mut b, "C");
    answer(&mut b, t3).unwrap();
    b.pin(t3).unwrap();
    b.soft_delete_post(t2).unwrap();
    b.lock(a).unwrap();
    let active = b.get_active().clone();
    let archive = b.get_archive().clone();
    let sticky = b.get_sticky().clone();
    let posts = b.post_ids();
    let count = b.get_count();
    let snapshot = b.into_snapshot();
    let r = Board::from_snapshot(snapshot).unwrap();
    assert_eq!(r.get_active(), &active);
    assert_eq!(r.get_archive(), &archive);
    assert_eq!(r.get_sticky(), &sticky);
    assert_eq!(r.post_ids(), posts);
    assert_eq!(r.get_count(), count);
    assert_eq!(r.get_name(), "b");
    assert_eq!(r.get_description(), "d");
    assert!(r.get_thread(a).unwrap().get_locked());
    assert!(r.get_post(t2).unwrap().get_deleted());
    assert_eq!(r.get_thread(t3).unwrap().get_children(), &vec![t3, 4]);
}

#[test]
fn snapshot_with_unpinnable_thread_is_refused() {
    let b = board(2, 2);
    let mut s: BoardSnapshot = b.into_snapshot();
    s.sticky.push(9);
    assert!(matches!(Board::from_snapshot(s), Err(BoardError::ThreadNotFound)));
}

#[test]
fn snapshot_with_thread_in_both_queues_is_refused() {
    let b = board(2, 2);
    let mut s: BoardSnapshot = b.into_snapshot();
    s.active.push(3);
    s.archive.push(3);
    assert!(matches!(Board::from_snapshot(s), Err(BoardError::DuplicateThread)));
}

#[test]
fn snapshot_over_capacity_is_refused() {
    let b = board(1, 2);
    let mut s: BoardSnapshot = b.into_snapshot();
    s.active.push(3);
    s.active.push(4);
    assert!(matches!(Board::from_snapshot(s), Err(BoardError::QueueFull)));
}

#[test]
fn snapshot_with_misplaced_record_is_refused() {
    let b = board(2, 2);
    let mut s: BoardSnapshot = b.into_snapshot();
    s.count = 1;
    s.threads.push(Some(Thread::new("x".to_string(), 7)));
    s.posts.push(None);
    s.active.push(1);
    assert!(matches!(Board::from_snapshot(s), Err(BoardError::ThreadNotFound)));
}

#[test]
fn snapshot_with_short_tables_is_refused() {
    let b = board(2, 2);
    let mut s: BoardSnapshot = b.into_snapshot();
    s.count = 3;
    assert!(matches!(Board::from_snapshot(s), Err(BoardError::PostNotFound)));
}

#[test]
fn purge_of_archived_thread_then_reply_fails() {
    let mut b = board(1, 2);
    let a = start(&mut b, "A");
    let bb = start(&mut b, "B");
    assert_eq!(b.get_archive(), &vec![a]);
    b.purge_thread(a).unwrap();
    assert_eq!(b.get_archive().len(), 0);
    assert_eq!(b.get_active(), &vec![bb]);
    assert_eq!(answer(&mut b, a), Err(BoardError::ThreadNotFound));
    assert!(b.contains_post(a));
    assert_eq!(b.purge_thread(a), Err(BoardError::ThreadNotFound));
}

#[test]
fn purge_of_pinned_active_thread_unpins_it() {
    let mut b = board(2, 2);
    let a = start(&mut b, "A");
    b.pin(a).unwrap();
    b.purge_thread(a).unwrap();
    assert_eq!(b.get_active().len(), 0);
    assert_eq!(b.get_sticky().len(), 0);
    assert!(b.get_thread(a).is_none());
}

#[test]
fn post_ids_strictly_increase_across_deletes_and_purges() {
    let mut b = board(2, 1);
    let mut last: u64 = 0;
    for round in 0..10 {
        let t = start(&mut b, "t");
        assert!(t > last);
        last = t;
        let r = answer(&mut b, t).unwrap();
        assert!(r > last);
        last = r;
        b.soft_delete_post(r).unwrap();
        if round % 3 == 0 {
            b.purge_thread(t).unwrap();
        }
    }
    assert_eq!(b.get_count(), last);
    assert_eq!(b.post_ids().len(), 20);
}

#[test]
fn bump_of_newest_thread_keeps_order() {
    let mut b = board(3, 1);
    let a = start(&mut b, "A");
    let c = start(&mut b, "C");
    answer(&mut b, c).unwrap();
    assert_eq!(b.get_active(), &vec![a, c]);
    answer(&mut b, a).unwrap();
    assert_eq!(b.get_active(), &vec![c, a]);

    let mut q = ThreadQueue::new(3);
    q.enqueue(1).unwrap();
    q.enqueue(2).unwrap();
    assert_eq!(q.bump(2), Ok(()));
    assert_eq!(q.items(), &vec![1, 2]);
}

#[test]
fn capacities_hold_after_many_operations() {
    let mut b = board(3, 2);
    let mut threads: Vec<u64> = Vec::new();
    for i in 0..12 {
        let r = b.create_thread("t".to_string(), "o".to_string(), "x".to_string(), Bytes::new());
        match r {
            Ok(t) => {
                threads.push(t);
                if i % 4 == 0 {
                    let _ = b.pin(t);
                }
            }
            Err(e) => assert_eq!(e, BoardError::BoardFull),
        }
        if i % 3 == 0 && !threads.is_empty() {
            let _ = answer(&mut b, threads[threads.len() / 2]);
        }
        assert!(b.get_active().len() <= 3);
        assert!(b.get_archive().len() <= 2);
        for s in b.get_sticky() {
            assert!(b.get_active().contains(s));
            assert!(!b.get_archive().contains(s));
        }
    }
}

#[test]
fn archive_overflow_drops_oldest_archived_thread() {
    let mut b = board(1, 1);
    let a = start(&mut b, "A");
    let bb = start(&mut b, "B");
    let c = start(&mut b, "C");
    assert_eq!(b.get_active(), &vec![c]);
    assert_eq!(b.get_archive(), &vec![bb]);
    assert!(b.get_thread(a).is_none());
    assert_eq!(answer(&mut b, a), Err(BoardError::ThreadNotFound));
}

#[test]
fn archive_of_capacity_zero_keeps_nothing() {
    let mut b = board(1, 0);
    let a = start(&mut b, "A");
    let bb = start(&mut b, "B");
    assert_eq!(b.get_active(), &vec![bb]);
    assert_eq!(b.get_archive().len(), 0);
    assert!(b.get_thread(a).is_none());
}

#[test]
fn reply_refusals() {
    let mut b = board(2, 2);
    let a = start(&mut b, "A");
    assert_eq!(answer(&mut b, 99), Err(BoardError::ThreadNotFound));
    b.lock(a).unwrap();
    assert_eq!(answer(&mut b, a), Err(BoardError::ThreadLocked));
    b.unlock(a).unwrap();
    b.soft_delete_thread(a).unwrap();
    assert_eq!(answer(&mut b, a), Err(BoardError::ThreadDeleted));
    b.undelete_thread(a).unwrap();
    let r = answer(&mut b, a).unwrap();
    assert_eq!(r, 2);
    assert_eq!(b.get_thread(a).unwrap().get_children(), &vec![1, 2]);
    assert_eq!(b.get_post(r).unwrap().get_parent(), a);
    assert_eq!(b.lock(42), Err(BoardError::ThreadNotFound));
}

#[test]
fn promotion_refused_when_active_all_pinned() {
    let mut b = board(1, 2);
    let a = start(&mut b, "A");
    let bb = start(&mut b, "B");
    b.pin(bb).unwrap();
    let count = b.get_count();
    assert_eq!(answer(&mut b, a), Err(BoardError::BoardFull));
    assert_eq!(b.get_active(), &vec![bb]);
    assert_eq!(b.get_archive(), &vec![a]);
    assert_eq!(b.get_count(), count);
}

#[test]
fn pin_and_unpin_refusals() {
    let mut b = board(1, 2);
    let a = start(&mut b, "A");
    let bb = start(&mut b, "B");
    assert_eq!(b.pin(a), Err(BoardError::ThreadNotFound));
    b.pin(bb).unwrap();
    assert_eq!(b.pin(bb), Err(BoardError::AlreadySticky));
    assert!(b.is_sticky(bb));
    b.unpin(bb).unwrap();
    assert_eq!(b.unpin(bb), Err(BoardError::ThreadNotFound));
}

#[test]
fn post_delete_and_undelete() {
    let mut b = board(2, 2);
    let a = start(&mut b, "A");
    assert_eq!(b.soft_delete_post(7), Err(BoardError::PostNotFound));
    assert_eq!(b.undelete_post(0), Err(BoardError::PostNotFound));
    b.soft_delete_post(a).unwrap();
    assert!(b.get_post(a).unwrap().get_deleted());
    assert!(b.contains_post(a));
    b.undelete_post(a).unwrap();
    assert!(!b.get_post(a).unwrap().get_deleted());
}

#[test]
fn create_thread_refuses_id_already_queued() {
    let mut b = board(4, 2);
    b.add_active(1).unwrap();
    let r = b.create_thread("A".to_string(), "o".to_string(), "t".to_string(), Bytes::new());
    assert_eq!(r, Err(BoardError::DuplicateThread));
    assert_eq!(b.get_count(), 0);
}

#[test]
fn created_thread_records() {
    let mut b = board(2, 2);
    let a = b
        .create_thread(
            "Subject".to_string(),
            "alice".to_string(),
            "hello".to_string(),
            Bytes::from_static(b"img"),
        )
        .unwrap();
    assert_eq!(a, 1);
    let t = b.get_thread(a).unwrap();
    assert_eq!(t.get_name(), "Subject");
    assert_eq!(t.get_parent(), a);
    let p = b.get_post(a).unwrap();
    assert_eq!(p.get_owner(), "alice");
    assert_eq!(p.get_text(), "hello");
    assert_eq!(*p.get_attachment(), Bytes::from_static(b"img"));
    assert_eq!(p.get_parent(), a);
}

#[test]
fn queue_operations() {
    let mut q = ThreadQueue::new(3);
    assert_eq!(q.dequeue_oldest(), Err(BoardError::QueueEmpty));
    q.enqueue(10).unwrap();
    q.enqueue(20).unwrap();
    assert_eq!(q.enqueue(10), Err(BoardError::DuplicateThread));
    q.enqueue(30).unwrap();
    assert!(q.is_full());
    assert_eq!(q.enqueue(40), Err(BoardError::QueueFull));
    q.bump(10).unwrap();
    assert_eq!(q.items(), &vec![20, 30, 10]);
    assert_eq!(q.bump(99), Err(BoardError::ThreadNotFound));
    q.remove(30).unwrap();
    assert_eq!(q.remove(30), Err(BoardError::ThreadNotFound));
    assert_eq!(q.dequeue_oldest(), Ok(20));
    assert_eq!(q.len(), 1);
    assert!(q.contains(10));
    assert_eq!(q.pop_newest(), Some(10));
    assert!(q.is_empty());
    assert!(matches!(ThreadQueue::from_items(vec![1, 2, 1], 5), Err(BoardError::DuplicateThread)));
    assert!(matches!(ThreadQueue::from_items(vec![1, 2, 3], 2), Err(BoardError::QueueFull)));
}

#[test]
fn allocator_operations() {
    let mut a = PostIdAllocator::new();
    assert_eq!(a.allocate(), Ok(1));
    assert_eq!(a.allocate(), Ok(2));
    assert_eq!(a.allocate(), Ok(3));
    assert_eq!(a.count(), 3);
    assert_eq!(a.mark_used(0), Err(BoardError::PostNotFound));
    assert_eq!(a.mark_used(4), Err(BoardError::PostNotFound));
    a.mark_used(3).unwrap();
    a.mark_used(1).unwrap();
    assert!(a.contains(1));
    assert!(!a.contains(2));
    assert_eq!(a.live_ids(), vec![1, 3]);
    a.release(1).unwrap();
    assert_eq!(a.release(1), Err(BoardError::PostNotFound));
    assert_eq!(a.live_ids(), vec![3]);
    assert_eq!(a.allocate(), Ok(4));
}

#[test]
fn remove_attachment_empties_a_post_attachment() {
    let mut b = board(2, 2);
    let a = b
        .create_thread("S".to_string(), "o".to_string(), "t".to_string(), Bytes::from_static(b"data"))
        .unwrap();
    let snapshot = b.into_snapshot();
    let mut posts = snapshot.posts;
    let mut p = posts[(a - 1) as usize].take().unwrap();
    assert_eq!(p.get_attachment().len(), 4);
    p.remove_attachment();
    assert!(p.get_attachment().is_empty());
}

#[test]
fn config_entry_splits_at_first_separator() {
    let (k, v) = forum_core::config::split_entry(b"description: a: b").unwrap();
    assert_eq!(k, b"description".to_vec());
    assert_eq!(v, b"a: b".to_vec());
    assert!(forum_core::config::split_entry(b"no separator").is_none());
    let (k, v) = forum_core::config::split_entry(b": ").unwrap();
    assert!(k.is_empty() && v.is_empty());
}

#[test]
fn config_counts() {
    assert_eq!(parse_count(b"16"), Some(16));
    assert_eq!(parse_count(b"8"), Some(8));
    assert_eq!(parse_count(b"0"), None);
    assert_eq!(parse_count(b""), None);
    assert_eq!(parse_count(b"1a"), None);
    assert_eq!(parse_count(b"-3"), None);
    assert_eq!(parse_count(b"99999999999999999999999"), None);
}

#[test]
fn config_board_names() {
    let names = forum_core::config::board_names("\u{3b1}, test".as_bytes());
    assert_eq!(names, vec!["\u{3b1}".as_bytes().to_vec(), b"test".to_vec()]);
    let names = forum_core::config::board_names(b"a,,b,");
    assert_eq!(names, vec![b"a".to_vec(), Vec::new(), b"b".to_vec(), Vec::new()]);
}

#[test]
fn override_admits_reply_to_deleted_thread() {
    let mut b = board(2, 2);
    let a = start(&mut b, "A");
    b.soft_delete_thread(a).unwrap();
    let r = b.reply_allowing_deleted(a, "mod".to_string(), "note".to_string(), Bytes::new(), false);
    assert_eq!(r, Err(BoardError::ThreadDeleted));
    let r = b.reply_allowing_deleted(a, "mod".to_string(), "note".to_string(), Bytes::new(), true);
    assert_eq!(r, Ok(2));
    assert!(b.get_thread(a).unwrap().get_deleted());
    b.lock(a).unwrap();
    let r = b.reply_allowing_deleted(a, "mod".to_string(), "note".to_string(), Bytes::new(), true);
    assert_eq!(r, Err(BoardError::ThreadLocked));
}
