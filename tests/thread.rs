use forum_core::thread::Thread;

const NAME: &str = "test post please ignore";
const PARENT: u64 = 42069;

fn struct_init() -> Thread {
    let a_thread = Thread::new(NAME.to_string(), PARENT);
    return a_thread;
}

#[test]
fn thread_test_init() {
    struct_init();
}

#[test]
fn thread_test_attributes_direct() {
    let a = struct_init();

    assert_eq!(a.get_name(), NAME);
    assert_eq!(a.get_children().len(), 1);
    assert_eq!(*a.get_children().get(0).unwrap(), PARENT);
    assert!(!a.get_locked());
    assert!(!a.get_deleted());
}

#[test]
fn thread_test_get_name() {
    let a = struct_init();
    assert_eq!(a.get_name(), NAME)
}

#[test]
fn thread_test_get_parent() {
    let a = struct_init();
    assert_eq!(a.get_parent(), PARENT)
}

#[test]
fn test_get_children() {
    let a = struct_init();
    assert_eq!(a.get_children().len(), 1);
    assert_eq!(*a.get_children().get(0).unwrap(), PARENT);
}

#[test]
fn test_get_locked() {
    let a = struct_init();
    assert!(!a.get_locked());
}

#[test]
fn thread_test_get_deleted() {
    let a = struct_init();
    assert!(!a.get_deleted());
}

#[test]
fn thread_test_modify_name() {
    let mut a = struct_init();
    let new_name = &"Not ignored real post";

    a.modify_name(new_name.to_string());
    assert_eq!(a.get_name(), new_name);
}

#[test]
fn test_add_child() {
    let mut a = struct_init();
    let size: usize = 42;
    assert_eq!(a.get_children().len(), 1);
    assert_eq!(*a.get_children().get(0).unwrap(), PARENT);

    for i in 1..size {
        a.add_child(PARENT + i as u64);
        assert_eq!(a.get_children().len(), i + 1)
    }

    for i in 0..size {
        assert_eq!(*a.get_children().get(i).unwrap(), PARENT + i as u64);
    }
}

#[test]
fn test_lock() {
    let mut a = struct_init();
    a.lock();
    assert!(a.get_locked());
}

#[test]
fn test_unlock() {
    let mut a = struct_init();
    a.lock();
    a.unlock();
    assert!(!a.get_locked());
}

#[test]
fn thread_test_delete() {
    let mut a = struct_init();
    a.delete();
    assert!(a.get_deleted());
}

#[test]
fn thread_test_undelete() {
    let mut a = struct_init();
    a.delete();
    a.undelete();
    assert!(!a.get_deleted());
}
