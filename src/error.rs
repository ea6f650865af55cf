use vstd::prelude::*;

verus! {

/// Every way a board operation can refuse. A refused operation leaves the
/// board exactly as it was.
#[derive(Debug, Clone, Copy, PartialEq, Eq, Structural)]
pub enum BoardError {
    /// The queue already holds as many threads as its capacity allows.
    QueueFull,
    /// The queue holds no thread.
    QueueEmpty,
    /// The thread is already queued.
    DuplicateThread,
    /// No such thread is known where the operation looks for it.
    ThreadNotFound,
    /// No such post is known.
    PostNotFound,
    /// The active queue is full and every thread in it is pinned.
    BoardFull,
    /// The thread is already pinned.
    AlreadySticky,
    /// The thread is locked against replies.
    ThreadLocked,
    /// The thread carries a soft-delete tombstone.
    ThreadDeleted,
    /// The post counter cannot grow any further.
    IdSpaceExhausted,
}

} // verus!
