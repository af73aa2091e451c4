//! Wrappers that give any value a fixed comparison or a chosen hash, so
//! that it can ride along in ordered or hashed collections.
use vstd::prelude::*;
use core::cmp::Ordering;
use core::hash::{Hash, Hasher};
use core::ops::{Deref, DerefMut};
use vstd::std_specs::cmp::{PartialEqSpecImpl, PartialOrdSpecImpl};

verus! {

/// A value that is never equal to another and orders after every other.
#[derive(Clone)]
pub struct NeqOrdWrapper<T>(pub T);

/// A value that is equal to every other.
#[derive(Clone)]
pub struct EqOrdWrapper<T>(pub T);

/// A value whose hash is that of a given `u64`.
pub struct HashWrapper<T>(pub T, pub u64);

/// A value that hashes to nothing.
pub struct EmptyHashWrapper<T>(pub T);

/// A value that is never equal to another, orders after every other and
/// hashes to nothing.
pub struct NeqOrdEmptyHashWrapper<T>(pub T);

/// A value that is never equal to another and whose hash is that of a
/// given `u64`.
pub struct NeqOrdHashWrapper<T>(pub T, pub u64);

impl<T> View for NeqOrdWrapper<T> {
    type V = T;

    closed spec fn view(&self) -> T {
        self.0
    }
}

impl<T> View for EqOrdWrapper<T> {
    type V = T;

    closed spec fn view(&self) -> T {
        self.0
    }
}

impl<T> View for HashWrapper<T> {
    type V = T;

    closed spec fn view(&self) -> T {
        self.0
    }
}

impl<T> View for EmptyHashWrapper<T> {
    type V = T;

    closed spec fn view(&self) -> T {
        self.0
    }
}

impl<T> View for NeqOrdEmptyHashWrapper<T> {
    type V = T;

    closed spec fn view(&self) -> T {
        self.0
    }
}

impl<T> View for NeqOrdHashWrapper<T> {
    type V = T;

    closed spec fn view(&self) -> T {
        self.0
    }
}

impl<T> HashWrapper<T> {
    /// The `u64` that stands for the value when hashing.
    pub closed spec fn hash_key(&self) -> u64 {
        self.1
    }
}

impl<T> NeqOrdHashWrapper<T> {
    /// The `u64` that stands for the value when hashing.
    pub closed spec fn hash_key(&self) -> u64 {
        self.1
    }
}

// ----------------------------------------------------------------------------
// Access to the wrapped value

impl<T> Deref for NeqOrdWrapper<T> {
    type Target = T;

    fn deref(&self) -> (r: &T)
        ensures
            *r == self@,
    {
        &self.0
    }
}

impl<T> DerefMut for NeqOrdWrapper<T> {
    fn deref_mut(&mut self) -> (r: &mut T)
        ensures
            *r == old(self)@,
            final(self)@ == *final(r),
    {
        &mut self.0
    }
}

impl<T> Deref for EqOrdWrapper<T> {
    type Target = T;

    fn deref(&self) -> (r: &T)
        ensures
            *r == self@,
    {
        &self.0
    }
}

impl<T> DerefMut for EqOrdWrapper<T> {
    fn deref_mut(&mut self) -> (r: &mut T)
        ensures
            *r == old(self)@,
            final(self)@ == *final(r),
    {
        &mut self.0
    }
}

impl<T> Deref for HashWrapper<T> {
    type Target = T;

    fn deref(&self) -> (r: &T)
        ensures
            *r == self@,
    {
        &self.0
    }
}

impl<T> DerefMut for HashWrapper<T> {
    fn deref_mut(&mut self) -> (r: &mut T)
        ensures
            *r == old(self)@,
            final(self)@ == *final(r),
            final(self).hash_key() == old(self).hash_key(),
    {
        &mut self.0
    }
}

impl<T> Deref for EmptyHashWrapper<T> {
    type Target = T;

    fn deref(&self) -> (r: &T)
        ensures
            *r == self@,
    {
        &self.0
    }
}

impl<T> DerefMut for EmptyHashWrapper<T> {
    fn deref_mut(&mut self) -> (r: &mut T)
        ensures
            *r == old(self)@,
            final(self)@ == *final(r),
    {
        &mut self.0
    }
}

impl<T> Deref for NeqOrdEmptyHashWrapper<T> {
    type Target = T;

    fn deref(&self) -> (r: &T)
        ensures
            *r == self@,
    {
        &self.0
    }
}

impl<T> DerefMut for NeqOrdEmptyHashWrapper<T> {
    fn deref_mut(&mut self) -> (r: &mut T)
        ensures
            *r == old(self)@,
            final(self)@ == *final(r),
    {
        &mut self.0
    }
}

impl<T> Deref for NeqOrdHashWrapper<T> {
    type Target = T;

    fn deref(&self) -> (r: &T)
        ensures
            *r == self@,
    {
        &self.0
    }
}

impl<T> DerefMut for NeqOrdHashWrapper<T> {
    fn deref_mut(&mut self) -> (r: &mut T)
        ensures
            *r == old(self)@,
            final(self)@ == *final(r),
            final(self).hash_key() == old(self).hash_key(),
    {
        &mut self.0
    }
}

impl<T> NeqOrdWrapper<T> {
    /// The wrapped value.
    pub fn take(self) -> (v: T)
        ensures
            v == self@,
    {
        self.0
    }

    /// Orders after everything.
    pub fn cmp(&self, _other: &Self) -> (o: Ordering)
        ensures
            o == Ordering::Greater,
    {
        Ordering::Greater
    }
}

impl<T> EqOrdWrapper<T> {
    /// The wrapped value.
    pub fn take(self) -> (v: T)
        ensures
            v == self@,
    {
        self.0
    }

    /// Orders level with everything.
    pub fn cmp(&self, _other: &Self) -> (o: Ordering)
        ensures
            o == Ordering::Equal,
    {
        Ordering::Equal
    }
}

impl<T> NeqOrdEmptyHashWrapper<T> {
    /// Orders after everything.
    pub fn cmp(&self, _other: &Self) -> (o: Ordering)
        ensures
            o == Ordering::Greater,
    {
        Ordering::Greater
    }
}

// ----------------------------------------------------------------------------
// Equality and order

impl<T> PartialEq for NeqOrdWrapper<T> {
    fn eq(&self, _other: &Self) -> (r: bool) {
        false
    }
}

impl<T> PartialEqSpecImpl for NeqOrdWrapper<T> {
    open spec fn obeys_eq_spec() -> bool {
        true
    }

    open spec fn eq_spec(&self, other: &Self) -> bool {
        false
    }
}

impl<T> Eq for NeqOrdWrapper<T> {}

impl<T> PartialOrd for NeqOrdWrapper<T> {
    fn partial_cmp(&self, _other: &Self) -> (r: Option<Ordering>) {
        None
    }
}

impl<T> PartialOrdSpecImpl for NeqOrdWrapper<T> {
    open spec fn obeys_partial_cmp_spec() -> bool {
        true
    }

    open spec fn partial_cmp_spec(&self, other: &Self) -> Option<Ordering> {
        None
    }
}

impl<T> PartialEq for EqOrdWrapper<T> {
    fn eq(&self, _other: &Self) -> (r: bool) {
        true
    }
}

impl<T> PartialEqSpecImpl for EqOrdWrapper<T> {
    open spec fn obeys_eq_spec() -> bool {
        true
    }

    open spec fn eq_spec(&self, other: &Self) -> bool {
        true
    }
}

impl<T> Eq for EqOrdWrapper<T> {}

impl<T> PartialOrd for EqOrdWrapper<T> {
    fn partial_cmp(&self, _other: &Self) -> (r: Option<Ordering>) {
        Some(Ordering::Equal)
    }
}

impl<T> PartialOrdSpecImpl for EqOrdWrapper<T> {
    open spec fn obeys_partial_cmp_spec() -> bool {
        true
    }

    open spec fn partial_cmp_spec(&self, other: &Self) -> Option<Ordering> {
        Some(Ordering::Equal)
    }
}

impl<T> PartialEq for NeqOrdEmptyHashWrapper<T> {
    fn eq(&self, _other: &Self) -> (r: bool) {
        false
    }
}

impl<T> PartialEqSpecImpl for NeqOrdEmptyHashWrapper<T> {
    open spec fn obeys_eq_spec() -> bool {
        true
    }

    open spec fn eq_spec(&self, other: &Self) -> bool {
        false
    }
}

impl<T> Eq for NeqOrdEmptyHashWrapper<T> {}

impl<T> PartialOrd for NeqOrdEmptyHashWrapper<T> {
    fn partial_cmp(&self, _other: &Self) -> (r: Option<Ordering>) {
        None
    }
}

impl<T> PartialOrdSpecImpl for NeqOrdEmptyHashWrapper<T> {
    open spec fn obeys_partial_cmp_spec() -> bool {
        true
    }

    open spec fn partial_cmp_spec(&self, other: &Self) -> Option<Ordering> {
        None
    }
}

impl<T> PartialEq for NeqOrdHashWrapper<T> {
    fn eq(&self, _other: &Self) -> (r: bool) {
        false
    }
}

impl<T> PartialEqSpecImpl for NeqOrdHashWrapper<T> {
    open spec fn obeys_eq_spec() -> bool {
        true
    }

    open spec fn eq_spec(&self, other: &Self) -> bool {
        false
    }
}

impl<T> Eq for NeqOrdHashWrapper<T> {}

impl<T> PartialOrd for NeqOrdHashWrapper<T> {
    fn partial_cmp(&self, _other: &Self) -> (r: Option<Ordering>) {
        None
    }
}

impl<T> PartialOrdSpecImpl for NeqOrdHashWrapper<T> {
    open spec fn obeys_partial_cmp_spec() -> bool {
        true
    }

    open spec fn partial_cmp_spec(&self, other: &Self) -> Option<Ordering> {
        None
    }
}

// ----------------------------------------------------------------------------
// Hashing

/// `<u64 as Hash>::hash`. Trusted: feeds `h` to `state` as hashing a `u64` does.
#[verifier::external_body]
fn hash_u64<H: Hasher>(h: &u64, state: &mut H) {
    h.hash(state)
}

impl<T> Hash for HashWrapper<T> {
    fn hash<H: Hasher>(&self, state: &mut H) {
        hash_u64(&self.1, state)
    }
}

impl<T> Hash for EmptyHashWrapper<T> {
    fn hash<H: Hasher>(&self, _state: &mut H) {
    }
}

impl<T> Hash for NeqOrdEmptyHashWrapper<T> {
    fn hash<H: Hasher>(&self, _state: &mut H) {
    }
}

impl<T> Hash for NeqOrdHashWrapper<T> {
    fn hash<H: Hasher>(&self, state: &mut H) {
        hash_u64(&self.1, state)
    }
}

// ----------------------------------------------------------------------------
// Constructors on every value

/// Wrap a value for a fixed order.
pub trait OrdExt {
    /// The value, equal to everything.
    fn eq_ord(self) -> (w: EqOrdWrapper<Self>) where Self: Sized
        ensures
            w@ == self,
    {
        EqOrdWrapper(self)
    }

    /// The value, equal to nothing and after everything.
    fn neq_ord(self) -> (w: NeqOrdWrapper<Self>) where Self: Sized
        ensures
            w@ == self,
    {
        NeqOrdWrapper(self)
    }
}

impl<T: ?Sized> OrdExt for T {}

/// Wrap a value for a chosen hash.
pub trait HashExt {
    /// The value, hashing as `h` does.
    fn hash_value(self, h: u64) -> (w: HashWrapper<Self>) where Self: Sized
        ensures
            w@ == self,
            w.hash_key() == h,
    {
        HashWrapper(self, h)
    }

    /// The value, hashing to nothing.
    fn hash_empty(self) -> (w: EmptyHashWrapper<Self>) where Self: Sized
        ensures
            w@ == self,
    {
        EmptyHashWrapper(self)
    }
}

impl<T: ?Sized> HashExt for T {}

/// Wrap a value for a fixed order and a chosen hash.
pub trait OrdHashExt {
    /// The value, equal to nothing and hashing as `h` does.
    fn neq_ord_hash(self, h: u64) -> (w: NeqOrdHashWrapper<Self>) where Self: Sized
        ensures
            w@ == self,
            w.hash_key() == h,
    {
        NeqOrdHashWrapper(self, h)
    }

    /// The value, equal to nothing and hashing to nothing.
    fn neq_ord_empty(self) -> (w: NeqOrdEmptyHashWrapper<Self>) where Self: Sized
        ensures
            w@ == self,
    {
        NeqOrdEmptyHashWrapper(self)
    }
}

impl<T: ?Sized> OrdHashExt for T {}

} // verus!
