use file_vec::path::temp_path_name;
use file_vec::vec::{FileVec, OnClose};

fn vec_of(items: &[u32]) -> FileVec<u32> {
    let mut v = FileVec::new();
    v.extend_from_slice(items);
    v
}

#[test]
fn pop_after_push_gives_the_item_back() {
    let mut v = vec_of(&[1, 2, 3]);
    v.push(9);
    assert_eq!(v.pop(), Some(9));
    assert_eq!(v.as_slice(), [1, 2, 3]);
}

#[test]
fn remove_after_insert_gives_the_item_back() {
    let mut v = vec_of(&[1, 2, 3]);
    v.insert(1, 7);
    assert_eq!(v.remove(1), 7);
    assert_eq!(v.as_slice(), [1, 2, 3]);
}

#[test]
fn keep_rest_right_after_drain_restores() {
    let mut v = vec_of(&[1, 2, 3, 4, 5]);
    let cap = v.capacity();
    let mut d = v.drain(1..4);
    assert_eq!(d.size_hint(), (3, Some(3)));
    d.keep_rest();
    drop(d);
    assert_eq!(v.as_slice(), [1, 2, 3, 4, 5]);
    assert_eq!(v.capacity(), cap);
}

#[test]
fn reopening_restores_a_closed_vector() {
    let mut v = vec_of(&[4, 5, 6]);
    let path = v.path().unwrap().clone();
    let closing = v.close().unwrap();
    let reopened = FileVec::opened(closing.path, closing.items);
    assert_eq!(reopened.as_slice(), [4, 5, 6]);
    assert_eq!(reopened.path().unwrap(), &path);
    assert_eq!(reopened.capacity(), 3);
    assert!(matches!(reopened.close_behavior(), OnClose::Persist));
    assert!(v.close().is_none());
}

#[test]
fn delete_then_persist_persists() {
    let mut v = vec_of(&[1]);
    v.set_close_behavior(OnClose::serialize("elsewhere"));
    v.set_persistent(false);
    v.set_persistent(true);
    assert!(matches!(v.close_behavior(), OnClose::Persist));
}

#[test]
fn distinct_numbers_give_distinct_names() {
    assert_ne!(temp_path_name(1), temp_path_name(16));
    assert_ne!(temp_path_name(0), temp_path_name(256));
}

#[test]
fn extract_if_hint() {
    let mut v = vec_of(&[1, 2, 3, 4]);
    let ex = v.extract_if(1.., |x: &mut u32| *x > 2);
    assert_eq!(ex.size_hint(), (0, Some(3)));
}

#[test]
fn dedup_leaves_no_equal_neighbours() {
    let mut v = vec_of(&[3, 3, 1, 1, 1, 3, 2, 2, 3, 3]);
    v.dedup();
    let items = v.as_slice();
    assert_eq!(items, [3, 1, 3, 2, 3]);
    for i in 1..items.len() {
        assert_ne!(items[i], items[i - 1]);
    }
}
