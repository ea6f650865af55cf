use bytes::Bytes;
use forum_core::post::Post;
use std::time::{SystemTime, UNIX_EPOCH};

const OWNER: &str = "me";
const TEXT: &str = "Yeeting on em";
const FILE: Bytes = Bytes::from_static(b"file.png");

fn struct_init() -> Post {
    let a_post = Post::new(OWNER.to_string(), TEXT.to_string(), FILE, 0);
    return a_post;
}

fn now_nanos() -> u64 {
    SystemTime::now().duration_since(UNIX_EPOCH).unwrap().as_nanos() as u64
}

#[test]
fn post_test_init() {
    struct_init();
}

#[test]
fn post_test_attributes_direct() {
    let a = struct_init();
    let start = now_nanos();

    assert_eq!(a.get_owner(), OWNER);
    assert_eq!(a.get_text(), TEXT);
    assert_eq!(*a.get_attachment(), FILE);
    let delta = start.abs_diff(*a.get_created());
    assert!(delta / 1000 < 1000);
    assert_eq!(a.get_created(), a.get_modified());
    assert!(!a.get_deleted());
    assert_eq!(a.get_parent(), 0);
}

#[test]
fn test_modification() {
    let a = &mut struct_init();
    a.modification();
    assert!(a.get_created().lt(a.get_modified()))
}

#[test]
fn test_get_owner() {
    let a = &struct_init();
    assert_eq!(OWNER, *a.get_owner());
}

#[test]
fn test_get_text() {
    let a = &struct_init();
    assert_eq!(TEXT, *a.get_text());
}

#[test]
fn test_get_attachment() {
    let a = &struct_init();
    assert_eq!(FILE, *a.get_attachment());
}

#[test]
fn test_get_created() {
    let a = &struct_init();
    assert_eq!(*a.get_modified(), *a.get_created());
}

#[test]
fn test_get_modified() {
    let a = &struct_init();
    assert_eq!(*a.get_created(), *a.get_modified());
}

#[test]
fn post_test_get_deleted() {
    let a = &struct_init();
    assert_eq!(false, a.get_deleted());
}

#[test]
fn post_test_get_parent() {
    let a = &struct_init();
    assert_eq!(0, a.get_parent());
}

#[test]
fn test_modify_owner() {
    let a = &mut struct_init();
    let new_owner = &"you";

    a.modify_owner(new_owner.to_string());
    assert_eq!(a.get_owner(), new_owner);
    assert!(a.get_created().lt(a.get_modified()))
}

#[test]
fn test_modify_text() {
    let a = &mut struct_init();
    let new_text = &"yooted below us";

    a.modify_text(new_text.to_string());
    assert_eq!(a.get_text(), new_text);
    assert!(a.get_created().lt(a.get_modified()))
}

#[test]
fn test_remove_attachment() {
    let a = &mut struct_init();

    a.remove_attachment();
    assert_eq!(*a.get_attachment(), Bytes::new());
    assert!(a.get_created().lt(a.get_modified()));
}

#[test]
fn post_test_delete() {
    let a = &mut struct_init();

    a.delete();
    assert!(a.get_deleted());
    assert!(a.get_created().lt(a.get_modified()));
}

#[test]
fn post_test_undelete() {
    let a = &mut struct_init();
    a.delete();

    a.undelete();
    assert!(!a.get_deleted());
    assert!(a.get_created().lt(a.get_modified()));
}

#[test]
fn touch_never_moves_modification_back() {
    let a = &mut struct_init();
    let created = *a.get_created();
    a.touch(created + 50);
    assert_eq!(*a.get_modified(), created + 50);
    a.touch(created + 10);
    assert_eq!(*a.get_modified(), created + 50);
    a.touch(0);
    assert_eq!(*a.get_modified(), created + 50);
    assert_eq!(*a.get_created(), created);
}

#[test]
fn new_at_stamps_the_given_time() {
    let a = Post::new_at(OWNER.to_string(), TEXT.to_string(), FILE, 7, 1234);
    assert_eq!(*a.get_created(), 1234);
    assert_eq!(*a.get_modified(), 1234);
    assert_eq!(a.get_parent(), 7);
    assert!(!a.get_deleted());
    assert_eq!(a.get_owner(), OWNER);
    assert_eq!(a.get_text(), TEXT);
}
