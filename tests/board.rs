use forum_core::board::Board;
use forum_core::error::BoardError;

const NAME: &str = "Test Board";
const DESC: &str = "This is a test board.";

fn struct_init() -> Board {
    let a_board = Board::new(NAME.to_string(), DESC.to_string());
    return a_board;
}

#[test]
fn board_test_init() {
    struct_init();
}

#[test]
fn board_test_attributes_direct() {
    let a = struct_init();

    assert_eq!(a.get_name(), NAME);
    assert_eq!(a.get_description(), DESC);
    assert_eq!(a.get_active().len(), 0);
    assert_eq!(a.get_archive().len(), 0);
    assert_eq!(a.get_sticky().len(), 0);
    assert_eq!(a.get_count(), 0);
}

#[test]
fn board_test_get_name() {
    let a = struct_init();
    assert_eq!(a.get_name(), NAME);
}

#[test]
fn test_get_description() {
    let a = struct_init();
    assert_eq!(a.get_description(), DESC);
}

#[test]
fn test_get_active() {
    let a = struct_init();
    assert_eq!(a.get_active().len(), 0);
    assert_eq!(a.get_active().is_empty(), true);
}

#[test]
fn test_get_archive() {
    let a = struct_init();
    assert_eq!(a.get_archive().len(), 0);
    assert_eq!(a.get_archive().is_empty(), true);
}

#[test]
fn test_get_sticky() {
    let a = struct_init();
    assert_eq!(a.get_sticky().len(), 0);
    assert_eq!(a.get_sticky().is_empty(), true);
}

#[test]
fn test_get_count() {
    let a = struct_init();
    assert_eq!(a.get_count(), 0);
}

#[test]
fn board_test_modify_name() {
    let mut a = struct_init();
    let new_name = &"Not a test board anymore";

    a.modify_name(new_name.to_string());
    assert_eq!(a.get_name(), new_name)
}

#[test]
fn test_modify_description() {
    let mut a = struct_init();
    let new_desc = &"Cooked brainrot central on god fr fr skibidi gyatt ohio rizz";

    a.modify_description(new_desc.to_string());
    assert_eq!(a.get_description(), new_desc);
}

#[test]
fn test_add_active() {
    let mut a = struct_init();
    let size: usize = 127;

    for i in 0..size {
        a.add_active(i as u64).unwrap();
    }

    assert_eq!(a.get_active().len(), size);
    for i in 0..size {
        assert_eq!(*a.get_active().get(i).unwrap(), i as u64);
    }
}

#[test]
fn test_add_archive() {
    let mut a = struct_init();
    let size: usize = 127;

    for i in 0..size {
        a.add_archive(i as u64).unwrap();
    }

    assert_eq!(a.get_archive().len(), size);
    for i in 0..size {
        assert_eq!(*a.get_archive().get(i).unwrap(), i as u64);
    }
}

// A thread can only be pinned while it is active, so the threads are made
// active first.
#[test]
fn test_add_sticky() {
    let mut a = struct_init();
    let size: usize = 127;

    for i in 0..size {
        a.add_active(i as u64).unwrap();
    }
    for i in 0..size {
        a.add_sticky(i as u64);
    }

    assert_eq!(a.get_sticky().len(), size);
    for i in 0..size {
        assert!(a.get_sticky().contains(&(i as u64)));
    }
}

#[test]
fn test_remove_active() {
    let mut a = struct_init();
    let size: usize = 127;

    for i in 0..size {
        a.add_active(i as u64).unwrap();
    }
    assert!(a.remove_active((size - 1) as u64));
    a.add_active((size - 1) as u64).unwrap();

    assert!(!a.remove_active(size as u64));
    for i in 0..size {
        assert!(a.remove_active(i as u64));
        assert_eq!(a.get_active().len(), size - i - 1);
    }
    assert!(!a.remove_active(0));
}

#[test]
fn test_remove_archive() {
    let mut a = struct_init();
    let size: usize = 127;

    for i in 0..size {
        a.add_archive(i as u64).unwrap();
    }
    assert!(a.remove_archive((size - 1) as u64));
    a.add_archive((size - 1) as u64).unwrap();

    assert!(!a.remove_archive(size as u64));
    for i in 0..size {
        assert!(a.remove_archive(i as u64));
        assert_eq!(a.get_archive().len(), size - i - 1);
    }
    assert!(!a.remove_archive(0));
}

// A thread can only be pinned while it is active, so the threads are made
// active first.
#[test]
fn test_remove_sticky() {
    let mut a = struct_init();
    let size: usize = 127;

    for i in 0..size {
        a.add_active(i as u64).unwrap();
    }
    for i in 0..size {
        a.add_sticky(i as u64);
    }
    assert!(a.remove_sticky((size - 1) as u64));
    a.add_sticky((size - 1) as u64);

    assert!(!a.remove_sticky(size as u64));
    for i in 0..size {
        assert!(a.remove_sticky(i as u64));
        assert_eq!(a.get_sticky().len(), size - i - 1);
    }
    assert!(!a.remove_sticky(0));
}

#[test]
fn test_pop_active() {
    let mut a = struct_init();
    let size: usize = 127;

    for i in 0..size {
        a.add_active(i as u64).unwrap();
    }

    for i in 0..size {
        let thread = a.pop_active();
        assert!(thread.is_some());
        assert_eq!(thread.unwrap(), (size - i - 1) as u64);
        assert_eq!(a.get_active().len(), size - i - 1);
        assert!(!a.remove_active((size - i - 1) as u64));
    }
}

#[test]
fn test_pop_archive() {
    let mut a = struct_init();
    let size: usize = 127;

    for i in 0..size {
        a.add_archive(i as u64).unwrap();
    }

    for i in 0..size {
        let thread = a.pop_archive();
        assert!(thread.is_some());
        assert_eq!(thread.unwrap(), (size - i - 1) as u64);
        assert_eq!(a.get_archive().len(), size - i - 1);
        assert!(!a.remove_archive((size - i - 1) as u64));
    }
}

#[test]
fn increment_count() {
    let mut a = struct_init();
    let size: usize = 127;

    for i in 1..size {
        assert_eq!(a.increment_count(), Ok(i as u64));
        assert_eq!(a.get_count(), i as u64);
    }
}

#[test]
fn add_active_refuses_archived_thread() {
    let mut a = struct_init();
    a.add_archive(5).unwrap();
    assert_eq!(a.add_active(5), Err(BoardError::DuplicateThread));
    assert_eq!(a.add_archive(5), Err(BoardError::DuplicateThread));
    a.add_active(6).unwrap();
    assert_eq!(a.add_active(6), Err(BoardError::DuplicateThread));
    assert_eq!(a.add_archive(6), Err(BoardError::DuplicateThread));
    assert_eq!(a.get_active(), &vec![6]);
    assert_eq!(a.get_archive(), &vec![5]);
}

#[test]
fn add_active_refuses_when_full() {
    let mut a = Board::with_capacity("b".to_string(), "d".to_string(), 2, 1);
    a.add_active(1).unwrap();
    a.add_active(2).unwrap();
    assert_eq!(a.add_active(3), Err(BoardError::QueueFull));
    a.add_archive(4).unwrap();
    assert_eq!(a.add_archive(5), Err(BoardError::QueueFull));
    assert_eq!(a.active_capacity(), 2);
    assert_eq!(a.archive_capacity(), 1);
}

#[test]
fn full_queue_refuses_with_queue_full_before_duplicate() {
    let mut a = Board::with_capacity("b".to_string(), "d".to_string(), 1, 1);
    a.add_active(1).unwrap();
    a.add_archive(2).unwrap();
    assert_eq!(a.add_active(2), Err(BoardError::QueueFull));
    assert_eq!(a.add_archive(1), Err(BoardError::QueueFull));
    assert_eq!(a.add_active(1), Err(BoardError::QueueFull));
    assert_eq!(a.get_active(), &vec![1]);
    assert_eq!(a.get_archive(), &vec![2]);
}
