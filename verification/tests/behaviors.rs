use std::ops::Bound;

use file_vec::capacity::{
    extend_fits, hint_reservation, next_power_of_two, reserve_capacity, reserve_exact_capacity,
};
use file_vec::path::{generate_path, temp_path_name};
use file_vec::range::resolve;
use file_vec::vec::{CloseError, FileVec, OnClose, SerialJson, SerialRMP};

fn vec_of(items: &[i32]) -> FileVec<i32> {
    let mut v = FileVec::new();
    v.extend_from_slice(items);
    v
}

#[test]
fn path_names_are_hex() {
    assert_eq!(temp_path_name(0), ".file-vec_0");
    assert_eq!(temp_path_name(255), ".file-vec_ff");
    assert_eq!(temp_path_name(0x1a2b), ".file-vec_1a2b");
    assert_eq!(temp_path_name(u64::MAX), ".file-vec_ffffffffffffffff");
    let p = generate_path();
    assert!(p.starts_with(".file-vec_"));
    assert!(p.len() > 10 && p.len() <= 26);
}

#[test]
fn powers_of_two() {
    assert_eq!(next_power_of_two(0), 1);
    assert_eq!(next_power_of_two(1), 1);
    assert_eq!(next_power_of_two(5), 8);
    assert_eq!(next_power_of_two(8), 8);
    assert_eq!(next_power_of_two(1025), 2048);
    assert_eq!(reserve_capacity(4, 3, 1), 4);
    assert_eq!(reserve_capacity(4, 4, 1), 8);
    assert_eq!(reserve_exact_capacity(4, 4, 3), 7);
    assert_eq!(reserve_exact_capacity(10, 4, 3), 10);
}

#[test]
fn ranges_resolve() {
    assert_eq!(resolve(&(1..9), 10), (1, 9));
    assert_eq!(resolve(&(..3), 10), (0, 3));
    assert_eq!(resolve(&(2..), 10), (2, 10));
    assert_eq!(resolve(&(..), 10), (0, 10));
    assert_eq!(resolve(&(..=4), 10), (0, 5));
    assert_eq!(resolve(&(Bound::Excluded(1), Bound::Included(3)), 10), (2, 4));
    assert_eq!(resolve(&(Bound::Excluded(usize::MAX), Bound::Unbounded), 10), (usize::MAX, 10));
}

#[test]
fn growth_follows_powers_of_two() {
    let mut v = FileVec::new();
    assert_eq!(v.capacity(), 0);
    assert!(v.path().is_none());
    v.push(1);
    assert_eq!(v.capacity(), 1);
    assert!(v.path().unwrap().starts_with(".file-vec_"));
    let p = v.path().unwrap().clone();
    v.push(2);
    assert_eq!(v.capacity(), 2);
    v.push(3);
    assert_eq!(v.capacity(), 4);
    assert_eq!(v.path().unwrap(), &p);
    v.reserve(10);
    assert_eq!(v.capacity(), 16);
    v.reserve_exact(20);
    assert_eq!(v.capacity(), 23);
    v.shrink_to(5);
    assert_eq!(v.capacity(), 5);
    v.shrink_to(1);
    assert_eq!(v.capacity(), 3);
    v.shrink_to_fit();
    assert_eq!(v.capacity(), 3);
    assert_eq!(v.as_slice(), [1, 2, 3]);

    let w: FileVec<u8> = FileVec::with_capacity(0);
    assert!(w.path().is_none());
    let w: FileVec<u8> = FileVec::with_capacity(3);
    assert_eq!(w.capacity(), 4);
    assert!(w.path().is_some());
}

#[test]
fn extend_reserves_exactly() {
    let mut v = FileVec::new();
    v.extend(vec![1, 2, 3]);
    assert_eq!(v.capacity(), 3);
    v.extend(Vec::new());
    assert_eq!(v.capacity(), 3);
    v.extend(vec![4]);
    assert_eq!(v.capacity(), 4);
    v.extend_from_slice(&[5]);
    assert_eq!(v.capacity(), 8);
    assert_eq!(v.as_slice(), [1, 2, 3, 4, 5]);
}

#[test]
fn push_within_capacity_and_pop() {
    let mut v = FileVec::with_capacity(2);
    assert_eq!(v.push_within_capacity(7).map(|x| *x), Ok(7));
    *v.push_within_capacity(8).unwrap() += 1;
    assert_eq!(v.push_within_capacity(10), Err(10));
    assert_eq!(v.as_slice(), [7, 9]);
    *v.push_mut(3) *= 2;
    *v.insert_mut(0, 1) += 1;
    assert_eq!(v.as_slice(), [2, 7, 9, 6]);
    assert_eq!(v.pop_if(|x| *x > 10), None);
    assert_eq!(v.pop_if(|x| {
        *x += 1;
        false
    }), None);
    assert_eq!(v.as_slice(), [2, 7, 9, 7]);
    assert_eq!(v.pop_if(|x| *x == 7), Some(7));
    assert_eq!(v.pop(), Some(9));
    assert_eq!(v.swap_remove(0), 2);
    assert_eq!(v.as_slice(), [7]);
    assert_eq!(v.swap_remove(0), 7);
    assert_eq!(v.pop(), None);
    assert_eq!(v.pop_if(|_| true), None);
    assert!(v.is_empty());
}

#[test]
fn swap_remove_moves_last() {
    let mut v = vec_of(&[1, 2, 3, 4]);
    assert_eq!(v.swap_remove(1), 2);
    assert_eq!(v.as_slice(), [1, 4, 3]);
    assert_eq!(v.swap_remove(2), 3);
    assert_eq!(v.as_slice(), [1, 4]);
}

#[test]
fn truncate_clear_and_resize() {
    let mut v = vec_of(&[1, 2, 3, 4]);
    v.truncate(10);
    assert_eq!(v.len(), 4);
    v.truncate(2);
    assert_eq!(v.as_slice(), [1, 2]);
    assert_eq!(v.capacity(), 4);
    v.resize(5, 9);
    assert_eq!(v.as_slice(), [1, 2, 9, 9, 9]);
    assert_eq!(v.capacity(), 8);
    v.resize(1, 0);
    assert_eq!(v.as_slice(), [1]);
    v.resize(1, 0);
    assert_eq!(v.as_slice(), [1]);
    let mut n = 0;
    v.resize_with(4, || {
        n += 1;
        n * 10
    });
    assert_eq!(v.as_slice(), [1, 10, 20, 30]);
    v.clear();
    assert!(v.is_empty());
    assert_eq!(v.capacity(), 8);

    let mut w: FileVec<i32> = FileVec::new();
    w.resize(3, 5);
    assert_eq!(w.as_slice(), [5, 5, 5]);
    assert_eq!(w.capacity(), 4);
}

#[test]
fn dedup_variants() {
    let mut v = vec_of(&[1, 1, 2, 2, 2, 3, 1, 1]);
    v.dedup();
    assert_eq!(v.as_slice(), [1, 2, 3, 1]);

    let mut v = vec_of(&[10, 11, 20, 21, 30]);
    v.dedup_by_key(|x| *x / 10);
    assert_eq!(v.as_slice(), [10, 20, 30]);

    let mut v = vec_of(&[1, 2, 3, 5, 6]);
    v.dedup_by(|cur, prev| *cur == *prev + 1);
    assert_eq!(v.as_slice(), [1, 5]);

    let mut v = vec_of(&[4]);
    v.dedup_by(|_, _| true);
    assert_eq!(v.as_slice(), [4]);
}

#[test]
fn retain_mut_changes_kept_items() {
    let mut v = vec_of(&[1, 2, 3, 4, 5]);
    v.retain_mut(|x| {
        *x *= 10;
        *x != 30
    });
    assert_eq!(v.as_slice(), [10, 20, 40, 50]);
}

#[test]
fn drain_from_both_ends() {
    let mut v = vec_of(&[0, 1, 2, 3, 4, 5, 6, 7]);
    let mut d = v.drain(1..7);
    assert_eq!(d.len(), 6);
    assert_eq!(d.nth(1), Some(2));
    assert_eq!(d.nth_back(1), Some(5));
    assert_eq!(d.as_slice(), [3, 4]);
    for x in d.as_mut_slice() {
        *x += 100;
    }
    d.keep_rest();
    drop(d);
    assert_eq!(v.as_slice(), [0, 103, 104, 7]);

    let mut d = v.drain(..);
    assert_eq!(d.nth(9), None);
    assert_eq!(d.next(), None);
    drop(d);
    assert!(v.is_empty());
}

#[test]
fn extract_if_visits_each_item_once() {
    let mut v = vec_of(&[1, 2, 3, 4, 5, 6]);
    let mut calls = 0;
    let mut ex = v.extract_if(1..5, |x: &mut i32| {
        calls += 1;
        *x += 1;
        *x % 2 == 0
    });
    assert_eq!(ex.remaining(), 4);
    assert_eq!(ex.next(), Some(4));
    assert_eq!(ex.next_back(), Some(6));
    assert_eq!(ex.next(), None);
    drop(ex);
    assert_eq!(calls, 4);
    assert_eq!(v.as_slice(), [1, 3, 5, 6]);
}

#[test]
fn split_off_and_append() {
    let mut v = vec_of(&[1, 2, 3, 4, 5]);
    let cap = v.capacity();
    let mut tail = v.split_off(2);
    assert_eq!(v.as_slice(), [1, 2]);
    assert_eq!(v.capacity(), cap);
    assert_eq!(tail.as_slice(), [3, 4, 5]);
    assert_eq!(tail.capacity(), 3);
    assert!(tail.path().is_some());
    let tail_cap = tail.capacity();
    v.append(&mut tail);
    assert_eq!(v.as_slice(), [1, 2, 3, 4, 5]);
    assert!(tail.is_empty());
    assert_eq!(tail.capacity(), tail_cap);

    let empty = v.split_off(5);
    assert!(empty.is_empty());
    assert!(empty.path().is_none());
}

#[test]
fn extend_from_within_clones() {
    let mut v = vec_of(&[1, 2, 3]);
    v.extend_from_within(..);
    assert_eq!(v.as_slice(), [1, 2, 3, 1, 2, 3]);
    v.extend_from_within(2..=3);
    assert_eq!(v.as_slice(), [1, 2, 3, 1, 2, 3, 3, 1]);
}

#[test]
fn constructors() {
    let v = FileVec::from_fn(4, |i| i * i);
    assert_eq!(v.as_slice(), [0, 1, 4, 9]);
    assert_eq!(v.capacity(), 4);
    let w = FileVec::from_slice(&["a".to_string(), "b".to_string()]);
    assert_eq!(w.as_slice(), ["a", "b"]);
    assert_eq!(w.capacity(), 2);
    let e: FileVec<i32> = FileVec::from_array([]);
    assert!(e.path().is_none());
    let c = w.clone();
    assert_eq!(c.as_slice(), w.as_slice());
    assert_ne!(c.path(), w.path());
    let mut d = FileVec::from_slice(&vec!["x".to_string(); 3]);
    d.set_persistent(true);
    d.clone_from(&w.clone());
    assert_eq!(d.len(), 2);
    assert!(matches!(d.close_behavior(), OnClose::Delete));
}

#[test]
fn close_behaviors() {
    let mut v = vec_of(&[1, 2]);
    assert!(matches!(v.close_behavior(), OnClose::Delete));
    v.set_persistent(true);
    assert!(matches!(v.get_close_behavior(), OnClose::Persist));
    v.set_close_behavior(OnClose::serialize("store"));
    v.set_persistent(true);
    assert!(matches!(v.close_behavior(), OnClose::Serialize(Some(p)) if p == "store"));
    v.set_persistent(false);
    assert!(matches!(v.close_behavior(), OnClose::Delete));
    assert!(matches!(OnClose::default(), OnClose::Delete));

    let path = v.path().unwrap().clone();
    let closing = v.close().unwrap();
    assert_eq!(closing.path, path);
    assert_eq!(closing.items, [1, 2]);
    assert!(matches!(closing.behavior, OnClose::Delete));
    assert!(v.is_empty());
    assert_eq!(v.capacity(), 0);
    assert!(v.path().is_none());
    assert!(v.close().is_none());
}

#[test]
fn set_path_and_leak() {
    let mut v: FileVec<i32> = FileVec::new();
    assert_eq!(v.set_path("first".to_string()), None);
    assert_eq!(v.capacity(), 1);
    assert_eq!(v.path().unwrap(), "first");
    v.push(3);
    assert_eq!(v.set_path("second".to_string()), Some("first".to_string()));
    assert_eq!(v.path().unwrap(), "second");
    assert_eq!(v.as_slice(), [3]);
    v.leak();
    assert!(v.is_empty());
    assert!(v.path().is_none());
    assert_eq!(v.capacity(), 0);
}

#[test]
fn chunks_and_flattening() {
    let v = vec_of(&[1, 2, 3, 4, 5, 6, 7]);
    let cap = v.capacity();
    let path = v.path().unwrap().clone();
    let chunks: FileVec<[i32; 3]> = v.into_chunks();
    assert_eq!(chunks.as_slice(), [[1, 2, 3], [4, 5, 6]]);
    assert_eq!(chunks.capacity(), cap / 3);
    assert_eq!(chunks.path().unwrap(), &path);
    let flat = chunks.into_flattened();
    assert_eq!(flat.as_slice(), [1, 2, 3, 4, 5, 6]);
    assert_eq!(flat.capacity(), (cap / 3) * 3);

    let empty: FileVec<u16> = FileVec::new();
    let chunks: FileVec<[u16; 2]> = empty.into_chunks();
    assert!(chunks.is_empty());
    assert!(chunks.path().is_none());
}

#[test]
fn serial_settings() {
    assert!(SerialJson::new(true).pretty());
    assert!(!SerialJson::new(false).pretty());
    let _ = SerialRMP::new();
}

#[test]
fn serialization_must_be_set_up() {
    let mut v = vec_of(&[1, 2]);
    assert!(!v.has_serialization());
    v.enable_serialization();
    assert!(v.has_serialization());
    assert!(matches!(v.close_behavior(), OnClose::Delete));
    let c = v.clone();
    assert!(c.has_serialization());

    let mut w = vec_of(&[5]);
    w.serialize_on_close();
    assert!(w.has_serialization());
    assert!(matches!(w.close_behavior(), OnClose::Serialize(None)));
    let closing = w.close().unwrap();
    assert!(matches!(closing.behavior, OnClose::Serialize(None)));
    assert_eq!(closing.items, [5]);
    assert!(w.has_serialization());

    let mut d = FileVec::from_slice(&[7, 8]);
    assert!(!d.has_serialization());
    d.clone_from(&v);
    assert!(d.has_serialization());
    let rest = d.split_off(1);
    assert!(!rest.has_serialization());
    let chunks: FileVec<[i32; 1]> = d.into_chunks();
    assert!(!chunks.has_serialization());
}

#[test]
fn checked_constructions() {
    let v: Option<FileVec<i32>> = FileVec::try_new();
    assert!(v.unwrap().is_empty());
    let z: Option<FileVec<()>> = FileVec::try_new();
    assert!(z.is_none());

    let v = vec_of(&[1, 2, 3, 4, 5]);
    let back = match v.try_into_chunks::<0>() {
        Ok(_) => panic!("groups of zero items"),
        Err(back) => back,
    };
    assert_eq!(back.as_slice(), [1, 2, 3, 4, 5]);
    let chunks = match back.try_into_chunks::<2>() {
        Ok(c) => c,
        Err(_) => panic!("groups of two items"),
    };
    assert_eq!(chunks.as_slice(), [[1, 2], [3, 4]]);
    let flat = match chunks.try_into_flattened() {
        Ok(f) => f,
        Err(_) => panic!("arrays of two items"),
    };
    assert_eq!(flat.as_slice(), [1, 2, 3, 4]);
}

#[test]
fn extend_follows_size_hints() {
    let mut v: FileVec<i32> = FileVec::new();
    v.extend_with_hint(vec![1, 2, 3], 0, None);
    assert_eq!(v.as_slice(), [1, 2, 3]);
    assert_eq!(v.capacity(), 4294967296);
    assert!(v.path().is_some());

    let mut v: FileVec<i32> = FileVec::new();
    v.extend_with_hint(vec![1, 2, 3, 4, 5], 2, Some(2));
    assert_eq!(v.as_slice(), [1, 2, 3, 4, 5]);
    assert_eq!(v.capacity(), 6);

    let mut v: FileVec<i32> = FileVec::new();
    v.extend_with_hint(vec![1, 2, 3], 1, Some(3));
    assert_eq!(v.capacity(), 4);

    let mut v: FileVec<i32> = FileVec::new();
    v.extend_with_hint(vec![9, 9], 0, Some(0));
    assert_eq!(v.as_slice(), [9, 9]);
    assert_eq!(v.capacity(), 2);

    let mut v = vec_of(&[1, 2, 3]);
    assert_eq!(v.capacity(), 4);
    v.extend_with_hint(vec![4, 5], 2, Some(2));
    assert_eq!(v.capacity(), 5);
    assert_eq!(v.as_slice(), [1, 2, 3, 4, 5]);

    let mut v: FileVec<i32> = FileVec::new();
    v.extend_with_hint(Vec::new(), 0, None);
    assert_eq!(v.capacity(), 0);
    assert!(v.path().is_none());
}

#[test]
fn size_hint_reservations() {
    assert_eq!(hint_reservation::<i32>(3, Some(3)), Some((true, 3)));
    assert_eq!(hint_reservation::<i32>(0, Some(0)), Some((false, 1)));
    assert_eq!(hint_reservation::<i32>(1, Some(7)), Some((false, 7)));
    assert_eq!(hint_reservation::<i32>(0, None), Some((false, 2_500_000_000)));
    assert_eq!(hint_reservation::<u8>(0, Some(usize::MAX)), Some((false, 10_000_000_000)));
    assert_eq!(hint_reservation::<[u8; 20_000_000_000]>(0, None), None);
    assert_eq!(hint_reservation::<[u8; 20_000_000_000]>(2, Some(2)), Some((true, 2)));
    assert!(extend_fits::<i32>(0, 0, 3, 0, None));
    assert!(!extend_fits::<[u8; 20_000_000_000]>(0, 0, 1, 0, None));
    assert!(extend_fits::<[u8; 20_000_000_000]>(0, 0, 1, 1, Some(1)));
    assert!(extend_fits::<i32>(0, 0, 0, 0, None));
}

#[test]
fn serializing_close_needs_serialization() {
    let mut v = vec_of(&[1, 2]);
    v.set_close_behavior(OnClose::Serialize(None));
    let path = v.path().unwrap().clone();
    assert!(matches!(v.try_close(), Err(CloseError::SerializationNotEnabled)));
    assert_eq!(v.as_slice(), [1, 2]);
    assert_eq!(v.path().unwrap(), &path);
    v.enable_serialization();
    let closing = v.try_close().unwrap().unwrap();
    assert_eq!(closing.items, [1, 2]);
    assert_eq!(closing.path, path);
    assert!(matches!(closing.behavior, OnClose::Serialize(None)));
    assert!(v.is_empty());

    let mut e: FileVec<i32> = FileVec::new();
    e.set_close_behavior(OnClose::Serialize(None));
    assert!(matches!(e.try_close(), Ok(None)));

    let mut d = vec_of(&[3]);
    assert!(matches!(d.try_close(), Ok(Some(c)) if c.items == [3]));
}
