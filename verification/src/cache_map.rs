//! Maps of values that expire: lookups skip expired values, and expired
//! values can be swept out.
use vstd::prelude::*;
use core::borrow::Borrow;
use core::hash::{BuildHasher, Hash};
use std::collections::{BTreeMap, HashMap};
use std::collections::hash_map;
use std::time::Duration;
use vstd::laws_cmp::obeys_cmp;
use vstd::std_specs::hash::{obeys_key_model, builds_valid_hashers, EntrySpecFns, OccupiedEntrySpecFns, VacantEntrySpecFns};
use crate::std_ext::{TimedValue, clock_nanos, timeout_nanos, deadline_after, made_with_timeout, secs_nanos};
use crate::client::secs_duration;

verus! {

/// A map whose values carry deadlines.
pub trait CacheMapExt<K, V> {
    /// The value at `k`, unless it has expired.
    fn get_with_timeout<Q: ?Sized>(&self, k: &Q) -> Option<&V> where K: Borrow<Q> + Ord, Q: Hash + Eq + Ord;

    /// The value at `k` to change in place, unless it has expired.
    fn get_with_timeout_mut<Q: ?Sized>(&mut self, k: &Q) -> Option<&mut V> where
        K: Borrow<Q> + Ord,
        Q: Hash + Eq + Ord,
    ;

    /// Puts `v` at `k`, expiring after `timeout`, and returns the value it
    /// replaces.
    fn insert_with_timeout(&mut self, k: K, v: V, timeout: Option<Duration>) -> Option<V>;

    /// Drops every expired value.
    fn remove_expired_values(&mut self);

    /// The value at `k`, unless it has expired at clock reading `now`.
    fn get_with_timeout_at<Q: ?Sized>(&self, k: &Q, now: u64) -> Option<&V> where
        K: Borrow<Q> + Ord,
        Q: Hash + Eq + Ord,
    ;

    /// The value at `k` to change in place, unless it has expired at clock
    /// reading `now`.
    fn get_with_timeout_mut_at<Q: ?Sized>(&mut self, k: &Q, now: u64) -> Option<&mut V> where
        K: Borrow<Q> + Ord,
        Q: Hash + Eq + Ord,
    ;

    /// Drops every value that has expired at clock reading `now`.
    fn remove_expired_values_at(&mut self, now: u64);
}

/// `after` is `before` without the entries that have expired at `now`.
pub open spec fn swept<K, V>(before: Map<K, TimedValue<V>>, now: u64, after: Map<K, TimedValue<V>>) -> bool {
    &&& forall|j: K| #[trigger] after.contains_key(j) <==> before.contains_key(j) && !before[j].expired_at(now)
    &&& forall|j: K| #[trigger] after.contains_key(j) ==> after[j] == before[j]
}

/// Whether `tv` has not expired at clock reading `now`.
pub fn is_live_at<V>(tv: &TimedValue<V>, now: u64) -> (b: bool)
    ensures
        b == !tv.expired_at(now),
{
    !tv.is_expired_at(now)
}

/// Whether `tv` has not expired at the reading of `clock_nanos`: the
/// negation of `TimedValue::is_expired`.
pub fn is_live<V>(tv: &TimedValue<V>) -> (b: bool)
    ensures
        !tv.has_deadline() ==> b,
        exists|now: u64| b == !#[trigger] tv.expired_at(now),
{
    let now = clock_nanos();
    let b = is_live_at(tv, now);
    assert(b == !tv.expired_at(now));
    b
}

/// `HashMap::get_mut`. Trusted: returns the value stored under a key equal
/// to `k`, when there is one; the map then ends up holding, under that
/// stored key, what the caller leaves behind the reference, and is
/// otherwise unchanged.
#[verifier::external_body]
fn hash_map_get_mut<'a, K: Borrow<Q> + Hash + Eq, W, S: BuildHasher, Q: Hash + Eq + ?Sized>(
    m: &'a mut HashMap<K, W, S>,
    k: &Q,
) -> (r: Option<&'a mut W>)
    ensures
        obeys_key_model::<K>() && builds_valid_hashers::<S>() ==> match r {
            Some(v) => {
                &&& vstd::std_specs::hash::maps_borrowed_key_to_value(old(m)@, k, *v)
                &&& vstd::std_specs::hash::maps_borrowed_key_to_value(final(m)@, k, *final(v))
                &&& exists|j: K| #[trigger] old(m)@.contains_key(j) && old(m)@[j] == *v
                    && final(m)@ == old(m)@.insert(j, *final(v))
            },
            None => !vstd::std_specs::hash::contains_borrowed_key(old(m)@, k) && final(m)@ == old(m)@,
        },
{
    m.get_mut(k)
}

/// `HashMap::retain`, keeping the entries that `is_live_at(now)`. Trusted:
/// exactly the entries that are live at `now` are left, unchanged.
#[verifier::external_body]
fn hash_map_retain_live_at<K, V, S>(m: &mut HashMap<K, TimedValue<V>, S>, now: u64)
    ensures
        swept(old(m)@, now, final(m)@),
{
    m.retain(|_, tv| is_live_at(tv, now))
}

/// `BTreeMap::get_mut`. Trusted: returns the value stored under a key equal
/// to `k`, when there is one; the map then ends up holding, under that
/// stored key, what the caller leaves behind the reference, and is
/// otherwise unchanged.
#[verifier::external_body]
fn btree_map_get_mut<'a, K: Borrow<Q> + Ord, W, Q: Ord + ?Sized>(m: &'a mut BTreeMap<K, W>, k: &Q) -> (r: Option<&'a mut W>)
    ensures
        obeys_cmp::<K>() ==> match r {
            Some(v) => {
                &&& vstd::std_specs::btree::maps_borrowed_key_to_value(old(m)@, k, *v)
                &&& vstd::std_specs::btree::maps_borrowed_key_to_value(final(m)@, k, *final(v))
                &&& exists|j: K| #[trigger] old(m)@.contains_key(j) && old(m)@[j] == *v
                    && final(m)@ == old(m)@.insert(j, *final(v))
            },
            None => !vstd::std_specs::btree::contains_borrowed_key(old(m)@, k) && final(m)@ == old(m)@,
        },
{
    m.get_mut(k)
}

/// `BTreeMap::retain`, keeping the entries that `is_live_at(now)`. Trusted:
/// exactly the entries that are live at `now` are left, unchanged.
#[verifier::external_body]
fn btree_map_retain_live_at<K: Ord, V>(m: &mut BTreeMap<K, TimedValue<V>>, now: u64)
    ensures
        swept(old(m)@, now, final(m)@),
{
    m.retain(|_, tv| is_live_at(tv, now))
}

impl<K: Eq + Hash, V, S: BuildHasher> CacheMapExt<K, V> for HashMap<K, TimedValue<V>, S> {
    fn get_with_timeout<Q: ?Sized>(&self, k: &Q) -> (r: Option<&V>) where K: Borrow<Q> + Ord, Q: Hash + Eq + Ord
        ensures
            obeys_key_model::<K>() && builds_valid_hashers::<S>() ==> match r {
                Some(v) => exists|tv: TimedValue<V>|
                    #[trigger] vstd::std_specs::hash::maps_borrowed_key_to_value(self@, k, tv) && tv@ == *v,
                None => !vstd::std_specs::hash::contains_borrowed_key(self@, k) || exists|tv: TimedValue<V>|
                    #[trigger] vstd::std_specs::hash::maps_borrowed_key_to_value(self@, k, tv) && tv.has_deadline(),
            },
    {
        self.get_with_timeout_at(k, clock_nanos())
    }

    fn get_with_timeout_mut<Q: ?Sized>(&mut self, k: &Q) -> (r: Option<&mut V>) where
        K: Borrow<Q> + Ord,
        Q: Hash + Eq + Ord,
        ensures
            obeys_key_model::<K>() && builds_valid_hashers::<S>() ==> match r {
                Some(v) => {
                    &&& exists|tv: TimedValue<V>|
                        #[trigger] vstd::std_specs::hash::maps_borrowed_key_to_value(old(self)@, k, tv) && tv@ == *v
                    &&& exists|j: K, t: TimedValue<V>|
                        old(self)@.contains_key(j) && old(self)@[j]@ == *v
                        && final(self)@ == #[trigger] old(self)@.insert(j, t) && t@ == *final(v)
                        && t.deadline() == old(self)@[j].deadline()
                },
                None => {
                    &&& !vstd::std_specs::hash::contains_borrowed_key(old(self)@, k) || exists|tv: TimedValue<V>|
                        #[trigger] vstd::std_specs::hash::maps_borrowed_key_to_value(old(self)@, k, tv) && tv.has_deadline()
                    &&& final(self)@ == old(self)@
                },
            },
    {
        self.get_with_timeout_mut_at(k, clock_nanos())
    }

    fn insert_with_timeout(&mut self, k: K, v: V, timeout: Option<Duration>) -> (r: Option<V>)
        ensures
            obeys_key_model::<K>() && builds_valid_hashers::<S>() ==> {
                &&& final(self)@.dom() == old(self)@.dom().insert(k)
                &&& final(self)@[k]@ == v
                &&& (timeout is None ==> !final(self)@[k].has_deadline())
                &&& exists|t: Option<u64>, now: u64|
                    (t is None <==> timeout is None) && final(self)@[k].deadline() == #[trigger] deadline_after(t, now)
                &&& exists|now: u64| #[trigger] made_with_timeout(final(self)@[k], timeout, now)
                &&& forall|j: K| j != k && #[trigger] old(self)@.contains_key(j) ==> final(self)@[j] == old(self)@[j]
                &&& match r {
                    Some(o) => old(self)@.contains_key(k) && o == old(self)@[k]@,
                    None => !old(self)@.contains_key(k),
                }
            },
    {
        let tv = TimedValue::new(v, timeout);
        let ghost made = tv;
        let r = match self.insert(k, tv) {
            Some(old_tv) => Some(old_tv.into_value()),
            None => None,
        };
        proof {
            let n = choose|n: u64| made_with_timeout(made, timeout, n);
            assert(made_with_timeout(made, timeout, n));
        }
        r
    }

    fn remove_expired_values(&mut self)
        ensures
            exists|now: u64| #[trigger] swept(old(self)@, now, final(self)@),
            forall|j: K| #[trigger] final(self)@.contains_key(j) ==> old(self)@.contains_key(j) && final(self)@[j] == old(self)@[j],
            forall|j: K| #[trigger] old(self)@.contains_key(j) && !old(self)@[j].has_deadline() ==> final(self)@.contains_key(j),
    {
        let now = clock_nanos();
        self.remove_expired_values_at(now);
        assert(swept(old(self)@, now, self@));
    }

    fn get_with_timeout_at<Q: ?Sized>(&self, k: &Q, now: u64) -> (r: Option<&V>) where
        K: Borrow<Q> + Ord,
        Q: Hash + Eq + Ord,
        ensures
            obeys_key_model::<K>() && builds_valid_hashers::<S>() ==> match r {
                Some(v) => exists|tv: TimedValue<V>|
                    #[trigger] vstd::std_specs::hash::maps_borrowed_key_to_value(self@, k, tv) && !tv.expired_at(now) && tv@ == *v,
                None => !vstd::std_specs::hash::contains_borrowed_key(self@, k) || exists|tv: TimedValue<V>|
                    #[trigger] vstd::std_specs::hash::maps_borrowed_key_to_value(self@, k, tv) && tv.expired_at(now),
            },
    {
        match self.get(k) {
            Some(tv) => {
                if tv.is_expired_at(now) {
                    None
                } else {
                    Some(tv.value())
                }
            },
            None => None,
        }
    }

    fn get_with_timeout_mut_at<Q: ?Sized>(&mut self, k: &Q, now: u64) -> (r: Option<&mut V>) where
        K: Borrow<Q> + Ord,
        Q: Hash + Eq + Ord,
        ensures
            obeys_key_model::<K>() && builds_valid_hashers::<S>() ==> match r {
                Some(v) => {
                    &&& exists|tv: TimedValue<V>|
                        #[trigger] vstd::std_specs::hash::maps_borrowed_key_to_value(old(self)@, k, tv) && !tv.expired_at(now) && tv@ == *v
                    &&& exists|j: K, t: TimedValue<V>|
                        old(self)@.contains_key(j) && old(self)@[j]@ == *v
                        && final(self)@ == #[trigger] old(self)@.insert(j, t) && t@ == *final(v)
                        && t.deadline() == old(self)@[j].deadline()
                },
                None => {
                    &&& !vstd::std_specs::hash::contains_borrowed_key(old(self)@, k) || exists|tv: TimedValue<V>|
                        #[trigger] vstd::std_specs::hash::maps_borrowed_key_to_value(old(self)@, k, tv) && tv.expired_at(now)
                    &&& final(self)@ == old(self)@
                },
            },
    {
        match hash_map_get_mut(self, k) {
            Some(tv) => {
                if tv.is_expired_at(now) {
                    None
                } else {
                    Some(tv.value_mut())
                }
            },
            None => None,
        }
    }

    fn remove_expired_values_at(&mut self, now: u64)
        ensures
            swept(old(self)@, now, final(self)@),
    {
        hash_map_retain_live_at(self, now)
    }
}

impl<K: Ord, V> CacheMapExt<K, V> for BTreeMap<K, TimedValue<V>> {
    fn get_with_timeout<Q: ?Sized>(&self, k: &Q) -> (r: Option<&V>) where K: Borrow<Q> + Ord, Q: Hash + Eq + Ord
        ensures
            obeys_cmp::<K>() ==> match r {
                Some(v) => exists|tv: TimedValue<V>|
                    #[trigger] vstd::std_specs::btree::maps_borrowed_key_to_value(self@, k, tv) && tv@ == *v,
                None => !vstd::std_specs::btree::contains_borrowed_key(self@, k) || exists|tv: TimedValue<V>|
                    #[trigger] vstd::std_specs::btree::maps_borrowed_key_to_value(self@, k, tv) && tv.has_deadline(),
            },
    {
        self.get_with_timeout_at(k, clock_nanos())
    }

    fn get_with_timeout_mut<Q: ?Sized>(&mut self, k: &Q) -> (r: Option<&mut V>) where
        K: Borrow<Q> + Ord,
        Q: Hash + Eq + Ord,
        ensures
            obeys_cmp::<K>() ==> match r {
                Some(v) => {
                    &&& exists|tv: TimedValue<V>|
                        #[trigger] vstd::std_specs::btree::maps_borrowed_key_to_value(old(self)@, k, tv) && tv@ == *v
                    &&& exists|j: K, t: TimedValue<V>|
                        old(self)@.contains_key(j) && old(self)@[j]@ == *v
                        && final(self)@ == #[trigger] old(self)@.insert(j, t) && t@ == *final(v)
                        && t.deadline() == old(self)@[j].deadline()
                },
                None => {
                    &&& !vstd::std_specs::btree::contains_borrowed_key(old(self)@, k) || exists|tv: TimedValue<V>|
                        #[trigger] vstd::std_specs::btree::maps_borrowed_key_to_value(old(self)@, k, tv) && tv.has_deadline()
                    &&& final(self)@ == old(self)@
                },
            },
    {
        self.get_with_timeout_mut_at(k, clock_nanos())
    }

    fn insert_with_timeout(&mut self, k: K, v: V, timeout: Option<Duration>) -> (r: Option<V>)
        ensures
            obeys_cmp::<K>() ==> {
                &&& final(self)@.dom() == old(self)@.dom().insert(k)
                &&& final(self)@[k]@ == v
                &&& (timeout is None ==> !final(self)@[k].has_deadline())
                &&& exists|t: Option<u64>, now: u64|
                    (t is None <==> timeout is None) && final(self)@[k].deadline() == #[trigger] deadline_after(t, now)
                &&& exists|now: u64| #[trigger] made_with_timeout(final(self)@[k], timeout, now)
                &&& forall|j: K| j != k && #[trigger] old(self)@.contains_key(j) ==> final(self)@[j] == old(self)@[j]
                &&& match r {
                    Some(o) => old(self)@.contains_key(k) && o == old(self)@[k]@,
                    None => !old(self)@.contains_key(k),
                }
            },
    {
        let tv = TimedValue::new(v, timeout);
        let ghost made = tv;
        let r = match self.insert(k, tv) {
            Some(old_tv) => Some(old_tv.into_value()),
            None => None,
        };
        proof {
            let n = choose|n: u64| made_with_timeout(made, timeout, n);
            assert(made_with_timeout(made, timeout, n));
        }
        r
    }

    fn remove_expired_values(&mut self)
        ensures
            exists|now: u64| #[trigger] swept(old(self)@, now, final(self)@),
            forall|j: K| #[trigger] final(self)@.contains_key(j) ==> old(self)@.contains_key(j) && final(self)@[j] == old(self)@[j],
            forall|j: K| #[trigger] old(self)@.contains_key(j) && !old(self)@[j].has_deadline() ==> final(self)@.contains_key(j),
    {
        let now = clock_nanos();
        self.remove_expired_values_at(now);
        assert(swept(old(self)@, now, self@));
    }

    fn get_with_timeout_at<Q: ?Sized>(&self, k: &Q, now: u64) -> (r: Option<&V>) where
        K: Borrow<Q> + Ord,
        Q: Hash + Eq + Ord,
        ensures
            obeys_cmp::<K>() ==> match r {
                Some(v) => exists|tv: TimedValue<V>|
                    #[trigger] vstd::std_specs::btree::maps_borrowed_key_to_value(self@, k, tv) && !tv.expired_at(now) && tv@ == *v,
                None => !vstd::std_specs::btree::contains_borrowed_key(self@, k) || exists|tv: TimedValue<V>|
                    #[trigger] vstd::std_specs::btree::maps_borrowed_key_to_value(self@, k, tv) && tv.expired_at(now),
            },
    {
        match self.get(k) {
            Some(tv) => {
                if tv.is_expired_at(now) {
                    None
                } else {
                    Some(tv.value())
                }
            },
            None => None,
        }
    }

    fn get_with_timeout_mut_at<Q: ?Sized>(&mut self, k: &Q, now: u64) -> (r: Option<&mut V>) where
        K: Borrow<Q> + Ord,
        Q: Hash + Eq + Ord,
        ensures
            obeys_cmp::<K>() ==> match r {
                Some(v) => {
                    &&& exists|tv: TimedValue<V>|
                        #[trigger] vstd::std_specs::btree::maps_borrowed_key_to_value(old(self)@, k, tv) && !tv.expired_at(now) && tv@ == *v
                    &&& exists|j: K, t: TimedValue<V>|
                        old(self)@.contains_key(j) && old(self)@[j]@ == *v
                        && final(self)@ == #[trigger] old(self)@.insert(j, t) && t@ == *final(v)
                        && t.deadline() == old(self)@[j].deadline()
                },
                None => {
                    &&& !vstd::std_specs::btree::contains_borrowed_key(old(self)@, k) || exists|tv: TimedValue<V>|
                        #[trigger] vstd::std_specs::btree::maps_borrowed_key_to_value(old(self)@, k, tv) && tv.expired_at(now)
                    &&& final(self)@ == old(self)@
                },
            },
    {
        match btree_map_get_mut(self, k) {
            Some(tv) => {
                if tv.is_expired_at(now) {
                    None
                } else {
                    Some(tv.value_mut())
                }
            },
            None => None,
        }
    }

    fn remove_expired_values_at(&mut self, now: u64)
        ensures
            swept(old(self)@, now, final(self)@),
    {
        btree_map_retain_live_at(self, now)
    }
}

/// The entry of a map whose values carry deadlines, filled unless it holds
/// a value that has not expired.
pub trait EntryExt<'a, K, V>: Sized {
    /// The entry's value, unless it is missing or has expired: then
    /// `default`, expiring after `timeout`, is put there first.
    fn or_insert_with_timeout(self, default: V, timeout: Option<Duration>) -> &'a mut V;

    /// The entry's value, unless it is missing or has expired at clock
    /// reading `now`: then `default`, made at `now` and expiring `timeout`
    /// nanoseconds later, is put there first.
    fn or_insert_with_timeout_at(self, default: V, timeout: Option<u64>, now: u64) -> &'a mut V;

    /// As `or_insert_with_timeout`, with the value to put there made by
    /// `default` only when it is needed.
    fn or_insert_with_timeout_f<F: FnOnce() -> V>(self, default: F, timeout: Option<Duration>) -> &'a mut V
        requires
            default.requires(()),
    ;

    /// As `or_insert_with_timeout_f`, with `default` given the entry's key.
    fn or_insert_with_timeout_key_f<F: FnOnce(&K) -> V>(self, default: F, timeout: Option<Duration>) -> &'a mut V
        requires
            forall|k: &K| default.requires((k,)),
    ;

    /// Lets `f` change the entry's value, when there is one.
    fn and_modify_with_timeout<F: FnOnce(&mut V)>(self, f: F) -> Self
        requires
            forall|v: &mut V| f.requires((v,)),
    ;
}

/// What an entry filled at clock reading `now` leaves: `r` is the value
/// handed out and `fin` what the entry holds once the caller is done with
/// `r`. A value that is there and has not expired at `now` is kept with its
/// deadline; otherwise a value that `made` accepts is put there, with the
/// deadline `timeout` nanoseconds after `now`.
pub open spec fn filled_at<V>(
    before: Option<TimedValue<V>>,
    made: spec_fn(V) -> bool,
    timeout: Option<u64>,
    now: u64,
    r: V,
    fin: Option<TimedValue<V>>,
    r_final: V,
) -> bool {
    let put = made(r) && fin->0.deadline() == deadline_after(timeout, now);
    &&& fin is Some
    &&& fin->0@ == r_final
    &&& match before {
        Some(tv) => if tv.expired_at(now) {
            put
        } else {
            r == tv@ && fin->0.deadline() == tv.deadline()
        },
        None => put,
    }
}

/// What an entry filled at the reading of `clock_nanos`, with a timeout
/// given as a `Duration`, leaves: `filled_at` for some reading and some
/// count of nanoseconds, present exactly when the timeout is.
pub open spec fn filled<V>(
    before: Option<TimedValue<V>>,
    made: spec_fn(V) -> bool,
    timeout: Option<Duration>,
    r: V,
    fin: Option<TimedValue<V>>,
    r_final: V,
) -> bool {
    exists|t: Option<u64>, now: u64|
        (t is None <==> timeout is None)
        && (forall|s: u64| timeout == Some(#[trigger] secs_duration(s)) ==> t == Some(secs_nanos(s)))
        && #[trigger] filled_at(before, made, t, now, r, fin, r_final)
}

impl<'a, K: Eq + Hash, V> EntryExt<'a, K, V> for hash_map::Entry<'a, K, TimedValue<V>> {
    fn or_insert_with_timeout(self, default: V, timeout: Option<Duration>) -> (r: &'a mut V)
        ensures
            filled(self.value(), |x: V| x == default, timeout, *r, self.final_value(), *final(r)),
    {
        let t = timeout_nanos(timeout);
        let now = clock_nanos();
        self.or_insert_with_timeout_at(default, t, now)
    }

    fn or_insert_with_timeout_at(self, default: V, timeout: Option<u64>, now: u64) -> (r: &'a mut V)
        ensures
            filled_at(self.value(), |x: V| x == default, timeout, now, *r, self.final_value(), *final(r)),
    {
        match self {
            hash_map::Entry::Occupied(entry) => {
                let v = entry.into_mut();
                if v.is_expired_at(now) {
                    *v = TimedValue::new_at(default, timeout, now);
                }
                v.value_mut()
            },
            hash_map::Entry::Vacant(entry) => entry.insert(TimedValue::new_at(default, timeout, now)).value_mut(),
        }
    }

    fn or_insert_with_timeout_f<F: FnOnce() -> V>(self, default: F, timeout: Option<Duration>) -> (r: &'a mut V)
        ensures
            filled(self.value(), |x: V| default.ensures((), x), timeout, *r, self.final_value(), *final(r)),
    {
        let t = timeout_nanos(timeout);
        let now = clock_nanos();
        let ghost made = |x: V| default.ensures((), x);
        let ghost before = self.value();
        let ghost fin = self.final_value();
        let r = match self {
            hash_map::Entry::Occupied(entry) => {
                let v = entry.into_mut();
                if v.is_expired_at(now) {
                    *v = TimedValue::new_at(default(), t, now);
                }
                v.value_mut()
            },
            hash_map::Entry::Vacant(entry) => entry.insert(TimedValue::new_at(default(), t, now)).value_mut(),
        };
        assert(filled_at(before, made, t, now, *r, fin, *final(r)));
        r
    }

    fn or_insert_with_timeout_key_f<F: FnOnce(&K) -> V>(self, default: F, timeout: Option<Duration>) -> (r: &'a mut V)
        ensures
            filled(self.value(), |x: V| default.ensures((&self.spec_key(),), x), timeout, *r, self.final_value(), *final(r)),
    {
        let t = timeout_nanos(timeout);
        let now = clock_nanos();
        let ghost made = |x: V| default.ensures((&self.spec_key(),), x);
        let ghost before = self.value();
        let ghost fin = self.final_value();
        let r = match self {
            hash_map::Entry::Occupied(entry) => {
                let value = if entry.get().is_expired_at(now) {
                    Some(default(entry.key()))
                } else {
                    None
                };
                let v = entry.into_mut();
                if let Some(value) = value {
                    *v = TimedValue::new_at(value, t, now);
                }
                v.value_mut()
            },
            hash_map::Entry::Vacant(entry) => {
                let value = default(entry.key());
                entry.insert(TimedValue::new_at(value, t, now)).value_mut()
            },
        };
        assert(filled_at(before, made, t, now, *r, fin, *final(r)));
        r
    }

    fn and_modify_with_timeout<F: FnOnce(&mut V)>(self, f: F) -> (e: Self)
        ensures
            e.spec_key() == self.spec_key(),
            e.final_value() == self.final_value(),
            match self.value() {
                None => e.value() is None,
                Some(tv) => e.value() matches Some(t) && t.deadline() == tv.deadline()
                    && exists|m: &mut V| *m == tv@ && *final(m) == t@ && #[trigger] f.ensures((m,), ()),
            },
    {
        match self {
            hash_map::Entry::Occupied(mut entry) => {
                f(entry.get_mut().value_mut());
                hash_map::Entry::Occupied(entry)
            },
            hash_map::Entry::Vacant(entry) => hash_map::Entry::Vacant(entry),
        }
    }
}

} // verus!
