use rust_box::std_ext::{ArcExt, AtomicExt};
use rust_box::wrapper::{HashExt, OrdExt, OrdHashExt};
use std::sync::Arc;
use std::collections::hash_map::DefaultHasher;
use std::hash::{Hash, Hasher};
use std::sync::atomic::Ordering;

#[test]
fn test_atomic() {

    assert_eq!(100usize.atomic().load(Ordering::SeqCst), 100);
    assert_eq!(100isize.atomic().load(Ordering::SeqCst), 100);
    assert_eq!(100u64.atomic().load(Ordering::SeqCst), 100);
    assert_eq!(100i64.atomic().load(Ordering::SeqCst), 100);
    assert!(true.atomic().load(Ordering::SeqCst))
}

#[test]
fn test_arc_ext() {
    let v = 42.arc();
    assert_eq!(*v, 42);

    let s = "hello".to_string().arc();
    assert_eq!(*s, "hello");

    let s2 = s.clone();
    assert_eq!(*s2, "hello");
    assert!(Arc::ptr_eq(&s, &s2));
}

#[test]
fn test_atomic_ext_usize() {
    let a = 0usize.atomic();
    a.store(10, Ordering::SeqCst);
    assert_eq!(a.load(Ordering::SeqCst), 10);
}

#[test]
fn test_atomic_ext_isize() {
    let a = (-5isize).atomic();
    assert_eq!(a.load(Ordering::SeqCst), -5);
}

#[test]
fn test_atomic_ext_bool() {
    let a = false.atomic();
    assert!(!a.load(Ordering::SeqCst));
    a.store(true, Ordering::SeqCst);
    assert!(a.load(Ordering::SeqCst));
}

#[test]
fn test_wrapper_eq_ord() {
    let a = 1.eq_ord();
    let b = 2.eq_ord();
    assert!(a.eq(&b));
    assert!(a.partial_cmp(&b) == Some(std::cmp::Ordering::Equal));
    assert!(a.cmp(&b) == std::cmp::Ordering::Equal);
}

#[test]
fn test_wrapper_neq_ord() {
    let a = 1.neq_ord();
    let b = 1.neq_ord();
    assert!(a.ne(&b));
    assert!(a.partial_cmp(&b).is_none());
    assert!(a.cmp(&b) == std::cmp::Ordering::Greater);
}

#[test]
fn test_wrapper_hash() {

    let a = 42.hash_value(12345);
    let mut hasher = DefaultHasher::new();
    a.hash(&mut hasher);
    let h1 = hasher.finish();

    let b = 99.hash_value(12345);
    let mut hasher2 = DefaultHasher::new();
    b.hash(&mut hasher2);
    let h2 = hasher2.finish();

    assert_eq!(h1, h2);

    let c = 42.hash_value(54321);
    let mut hasher3 = DefaultHasher::new();
    c.hash(&mut hasher3);
    let h3 = hasher3.finish();
    assert_ne!(h1, h3);
}

#[test]
fn test_empty_hash_wrapper() {

    let a = 42.hash_empty();
    let mut hasher = DefaultHasher::new();
    a.hash(&mut hasher);
    let h1 = hasher.finish();

    let b = 99.hash_empty();
    let mut hasher2 = DefaultHasher::new();
    b.hash(&mut hasher2);
    let h2 = hasher2.finish();

    let h_default = DefaultHasher::new().finish();
    assert_eq!(h1, h_default);
    assert_eq!(h2, h_default);
}

#[test]
fn test_ord_hash_ext_neq_ord_hash() {
    let a = 1.neq_ord_hash(100);
    let b = 1.neq_ord_hash(100);
    assert!(a.ne(&b));
}

#[test]
fn test_ord_hash_ext_neq_ord_empty() {
    let a = 1.neq_ord_empty();
    let b = 1.neq_ord_empty();
    assert!(a.ne(&b));
    assert!(a.cmp(&b) == std::cmp::Ordering::Greater);
}

#[test]
fn test_ord_ext_reverse_via_cmp() {
    let a = 5.eq_ord();
    assert!(a.cmp(&6.eq_ord()) == std::cmp::Ordering::Equal);
    assert!(5.neq_ord().cmp(&5.neq_ord()) == std::cmp::Ordering::Greater);
}
