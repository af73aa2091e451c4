use rust_box::wrapper::{
    EmptyHashWrapper, EqOrdWrapper, HashExt, HashWrapper, NeqOrdEmptyHashWrapper, NeqOrdHashWrapper, NeqOrdWrapper,
    OrdHashExt,
};
use std::collections::hash_map::DefaultHasher;
use std::hash::{Hash, Hasher};

#[test]
fn test_neq() {
    let a1 = NeqOrdWrapper(1);
    let a2 = NeqOrdWrapper(1);
    assert!(a1.ne(&a2));
}

#[test]
fn test_eq() {
    let a1 = EqOrdWrapper(1);
    let a2 = EqOrdWrapper(1);
    assert!(a1.eq(&a2));
}

#[test]
fn test_neq_ord_cmp_order() {
    let a = NeqOrdWrapper(5);
    let b = NeqOrdWrapper(10);
    assert!(a.cmp(&b) == std::cmp::Ordering::Greater);
    assert!(a.partial_cmp(&b).is_none());
    assert!(a.ne(&b));
}

#[test]
fn test_neq_ord_clone() {
    let a = NeqOrdWrapper("hello");
    let b = a.clone();
    assert_eq!(*a, "hello");
    assert_eq!(*b, "hello");
}

#[test]
fn test_neq_ord_deref_mut() {
    let mut a = NeqOrdWrapper(0);
    *a = 100;
    assert_eq!(*a, 100);
}

#[test]
fn test_neq_ord_take() {
    let a = NeqOrdWrapper(42);
    assert_eq!(a.take(), 42);
}

#[test]
fn test_eq_ord_cmp_order() {
    let a = EqOrdWrapper(5);
    let b = EqOrdWrapper(10);
    assert!(a.cmp(&b) == std::cmp::Ordering::Equal);
    assert!(a.partial_cmp(&b) == Some(std::cmp::Ordering::Equal));
    assert!(a.eq(&b));
}

#[test]
fn test_eq_ord_clone() {
    let a = EqOrdWrapper(42);
    let b = a.clone();
    assert_eq!(*a, 42);
    assert_eq!(*b, 42);
}

#[test]
fn test_eq_ord_take() {
    let a = EqOrdWrapper(99);
    assert_eq!(a.take(), 99);
}

#[test]
fn test_hash_wrapper_trait() {

    let mut w = HashWrapper(42, 12345);
    assert_eq!(*w, 42);
    *w = 100;
    assert_eq!(*w, 100);

    let w1 = HashWrapper("a", 999);
    let w2 = HashWrapper("b", 999);

    let mut h1 = DefaultHasher::new();
    w1.hash(&mut h1);
    let mut h2 = DefaultHasher::new();
    w2.hash(&mut h2);
    assert_eq!(h1.finish(), h2.finish());
}

#[test]
fn test_empty_hash_wrapper_trait() {

    let w = EmptyHashWrapper(42);
    assert_eq!(*w, 42);

    let mut h = DefaultHasher::new();
    w.hash(&mut h);
    let default_hash = DefaultHasher::new().finish();
    assert_eq!(h.finish(), default_hash);
}

#[test]
fn test_neq_ord_hash_wrapper() {

    let a = NeqOrdHashWrapper(1, 100);
    let b = NeqOrdHashWrapper(1, 100);

    assert!(a.ne(&b));

    let mut h1 = DefaultHasher::new();
    a.hash(&mut h1);
    let mut h2 = DefaultHasher::new();
    b.hash(&mut h2);
    assert_eq!(h1.finish(), h2.finish());
}

#[test]
fn test_neq_ord_empty_hash_wrapper() {

    let a = NeqOrdEmptyHashWrapper(1);
    let b = NeqOrdEmptyHashWrapper(2);

    assert!(a.ne(&b));

    assert!(a.cmp(&b) == std::cmp::Ordering::Greater);

    let mut h1 = DefaultHasher::new();
    a.hash(&mut h1);
    let mut h2 = DefaultHasher::new();
    b.hash(&mut h2);
    let default_hash = DefaultHasher::new().finish();
    assert_eq!(h1.finish(), default_hash);
    assert_eq!(h2.finish(), default_hash);
}

#[test]
fn test_hash_ext_hash_value() {
    let w = 42.hash_value(12345);
    assert_eq!(*w, 42);
}

#[test]
fn test_hash_ext_hash_empty() {
    let w = 42.hash_empty();
    assert_eq!(*w, 42);
}

#[test]
fn test_ord_hash_ext_neq_ord_hash_trait() {
    let a = "test".neq_ord_hash(777);
    assert_eq!(*a, "test");
}

#[test]
fn test_ord_hash_ext_neq_ord_empty_trait() {
    let a = "test".neq_ord_empty();
    assert_eq!(*a, "test");
}

#[test]
fn hash_wrapper_hashes_as_its_key() {

    let w = HashWrapper("anything", 5u64);
    let mut h1 = DefaultHasher::new();
    w.hash(&mut h1);
    let mut h2 = DefaultHasher::new();
    5u64.hash(&mut h2);
    assert_eq!(h1.finish(), h2.finish());
}

#[test]
fn neq_ord_hash_wrapper_order_and_mut() {
    let mut a = NeqOrdHashWrapper(vec![1], 3);
    let b = NeqOrdHashWrapper(vec![1], 3);
    assert!(a.partial_cmp(&b).is_none());
    a.push(2);
    assert_eq!(*a, vec![1, 2]);
    let mut e = EmptyHashWrapper(String::from("x"));
    e.push('y');
    assert_eq!(*e, "xy");
}
