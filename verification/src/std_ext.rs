//! Small conveniences over std: sharing and atomics from plain values, and
//! values that expire after a timeout.
use vstd::prelude::*;
use std::sync::Arc;
use std::sync::atomic::{AtomicBool, AtomicI64, AtomicIsize, AtomicU64, AtomicUsize};
use std::time::{Duration, SystemTime, UNIX_EPOCH};
use vstd::std_specs::cmp::{PartialEqSpec, PartialEqSpecImpl};
use crate::client::secs_duration;

verus! {

/// Share a value.
pub trait ArcExt {
    /// The value behind a new `Arc`.
    fn arc(self) -> (a: Arc<Self>) where Self: Sized
        ensures
            *a == self,
    {
        Arc::new(self)
    }
}

impl<T: ?Sized> ArcExt for T {}

/// Turn a value into the atomic that holds it.
pub trait AtomicExt<T> {
    /// A new atomic holding the value.
    fn atomic(self) -> T;
}

impl AtomicExt<AtomicUsize> for usize {
    fn atomic(self) -> AtomicUsize {
        AtomicUsize::new(self)
    }
}

impl AtomicExt<AtomicIsize> for isize {
    fn atomic(self) -> AtomicIsize {
        AtomicIsize::new(self)
    }
}

impl AtomicExt<AtomicU64> for u64 {
    fn atomic(self) -> AtomicU64 {
        AtomicU64::new(self)
    }
}

impl AtomicExt<AtomicI64> for i64 {
    fn atomic(self) -> AtomicI64 {
        AtomicI64::new(self)
    }
}

impl AtomicExt<AtomicBool> for bool {
    fn atomic(self) -> AtomicBool {
        AtomicBool::new(self)
    }
}

/// `std::time::SystemTime`, a reading of the system clock.
#[verifier::external_type_specification]
#[verifier::external_body]
pub struct ExSystemTime(SystemTime);

/// `SystemTime::now`. Trusted to read the system clock; nothing is claimed
/// of the reading.
#[verifier::external_body]
fn system_time_now() -> (t: SystemTime) {
    SystemTime::now()
}

/// `SystemTime::duration_since` the Unix epoch, `None` for a reading before
/// it. Trusted; nothing is claimed of the span (`Duration` is opaque here).
#[verifier::external_body]
fn since_unix_epoch(t: &SystemTime) -> (r: Option<Duration>) {
    match t.duration_since(UNIX_EPOCH) {
        Ok(d) => Some(d),
        Err(_) => None,
    }
}

/// `Duration::as_nanos`. Trusted: a duration of `s` whole seconds (as
/// `Duration::from_secs(s)` makes it) spans `s * 10^9` nanoseconds; nothing
/// is claimed of other durations (`Duration` is opaque here).
#[verifier::external_body]
fn duration_as_nanos(d: &Duration) -> (n: u128)
    ensures
        forall|s: u64| #[trigger] secs_duration(s) == *d ==> n == s * 1_000_000_000,
{
    d.as_nanos()
}

/// The nanoseconds in `s` seconds, or `u64::MAX` when they do not fit.
pub open spec fn secs_nanos(s: u64) -> u64 {
    if s * 1_000_000_000 <= u64::MAX {
        (s * 1_000_000_000) as u64
    } else {
        u64::MAX
    }
}

/// The nanoseconds that `d` spans, or `u64::MAX` when they do not fit.
pub fn duration_nanos(d: &Duration) -> (n: u64)
    ensures
        forall|s: u64| #[trigger] secs_duration(s) == *d ==> n == secs_nanos(s),
{
    let n = duration_as_nanos(d);
    if n > 0xffff_ffff_ffff_ffffu128 {
        0xffff_ffff_ffff_ffffu64
    } else {
        n as u64
    }
}

/// A timeout in nanoseconds: `None` stays `None`.
pub fn timeout_nanos(timeout: Option<Duration>) -> (t: Option<u64>)
    ensures
        t is None <==> timeout is None,
        forall|s: u64| timeout == Some(#[trigger] secs_duration(s)) ==> t == Some(secs_nanos(s)),
{
    match timeout {
        Some(d) => Some(duration_nanos(&d)),
        None => None,
    }
}

/// The clock that deadlines are read against: nanoseconds since the Unix
/// epoch on the system clock, 0 for a reading before the epoch, `u64::MAX`
/// past what fits.
pub fn clock_nanos() -> (t: u64) {
    let now = system_time_now();
    match since_unix_epoch(&now) {
        Some(d) => duration_nanos(&d),
        None => 0,
    }
}

/// The deadline of a value made at `now` with `timeout` nanoseconds: none
/// without a timeout, and none when `now + timeout` does not fit in a `u64`.
pub open spec fn deadline_after(timeout: Option<u64>, now: u64) -> Option<u64> {
    match timeout {
        Some(t) => if now + t <= u64::MAX {
            Some((now + t) as u64)
        } else {
            None
        },
        None => None,
    }
}

/// `tv` was made at clock reading `now` with timeout `timeout`: when the
/// timeout is a whole number `s` of seconds, the deadline is `s` seconds
/// after `now` (none when that does not fit); without a timeout there is no
/// deadline.
pub open spec fn made_with_timeout<V>(tv: TimedValue<V>, timeout: Option<Duration>, now: u64) -> bool {
    &&& (timeout is None ==> tv.deadline() is None)
    &&& forall|s: u64| timeout == Some(#[trigger] secs_duration(s))
        ==> tv.deadline() == deadline_after(Some(secs_nanos(s)), now)
}

/// A value made at reading `now` with a timeout of `s` seconds (that fits
/// the clock) is live at every reading before `now + s` seconds and
/// expired at every reading from then on.
pub proof fn lemma_expires_after_timeout<V>(tv: TimedValue<V>, s: u64, now: u64, later: u64)
    requires
        made_with_timeout(tv, Some(secs_duration(s)), now),
        now + s * 1_000_000_000 <= u64::MAX,
    ensures
        later < now + s * 1_000_000_000 ==> !tv.expired_at(later),
        later >= now + s * 1_000_000_000 ==> tv.expired_at(later),
{
    assert(tv.deadline() == deadline_after(Some(secs_nanos(s)), now));
}

/// A value with an optional deadline, after which it counts as expired.
#[derive(Clone, Debug)]
pub struct TimedValue<V>(V, Option<u64>);

impl<V> View for TimedValue<V> {
    type V = V;

    closed spec fn view(&self) -> V {
        self.0
    }
}

impl<V> TimedValue<V> {
    /// The deadline, in nanoseconds on the clock of `clock_nanos`.
    pub closed spec fn deadline(&self) -> Option<u64> {
        self.1
    }

    /// Whether the value has a deadline.
    pub open spec fn has_deadline(&self) -> bool {
        self.deadline() is Some
    }

    /// Whether the value has expired at clock reading `now`: it has a
    /// deadline at or before `now`.
    pub open spec fn expired_at(&self, now: u64) -> bool {
        self.deadline() matches Some(d) && now >= d
    }

    /// `value`, made at clock reading `now`, expiring `timeout` nanoseconds
    /// later; without a timeout, or when the deadline does not fit, it never
    /// expires.
    pub fn new_at(value: V, timeout: Option<u64>, now: u64) -> (tv: Self)
        ensures
            tv@ == value,
            tv.deadline() == deadline_after(timeout, now),
    {
        let deadline = match timeout {
            Some(t) => now.checked_add(t),
            None => None,
        };
        TimedValue(value, deadline)
    }

    /// `value`, expiring `timeout_duration` from now (the reading of
    /// `clock_nanos`); without a timeout it never expires.
    pub fn new(value: V, timeout_duration: Option<Duration>) -> (tv: Self)
        ensures
            tv@ == value,
            timeout_duration is None ==> !tv.has_deadline(),
            exists|t: Option<u64>, now: u64|
                (t is None <==> timeout_duration is None) && tv.deadline() == #[trigger] deadline_after(t, now),
            exists|now: u64| #[trigger] made_with_timeout(tv, timeout_duration, now),
    {
        let t = timeout_nanos(timeout_duration);
        let now = clock_nanos();
        let tv = TimedValue::new_at(value, t, now);
        assert(tv.deadline() == deadline_after(t, now));
        assert(made_with_timeout(tv, timeout_duration, now));
        tv
    }

    /// The value.
    pub fn value(&self) -> (v: &V)
        ensures
            *v == self@,
    {
        &self.0
    }

    /// The value, to change in place.
    pub fn value_mut(&mut self) -> (v: &mut V)
        ensures
            *v == old(self)@,
            final(self)@ == *final(v),
            final(self).deadline() == old(self).deadline(),
    {
        &mut self.0
    }

    /// The value, unwrapped.
    pub fn into_value(self) -> (v: V)
        ensures
            v == self@,
    {
        self.0
    }

    /// Whether the value has expired at clock reading `now`.
    pub fn is_expired_at(&self, now: u64) -> (b: bool)
        ensures
            b == self.expired_at(now),
    {
        match self.1 {
            Some(deadline) => now >= deadline,
            None => false,
        }
    }

    /// Whether the deadline has passed at the reading of `clock_nanos`;
    /// never without a deadline.
    pub fn is_expired(&self) -> (b: bool)
        ensures
            !self.has_deadline() ==> !b,
            exists|now: u64| b == #[trigger] self.expired_at(now),
    {
        let now = clock_nanos();
        let b = self.is_expired_at(now);
        assert(b == self.expired_at(now));
        b
    }
}

impl<V: PartialEq> PartialEq for TimedValue<V> {
    fn eq(&self, other: &Self) -> (r: bool) {
        self.0 == other.0
    }
}

impl<V: PartialEq> PartialEqSpecImpl for TimedValue<V> {
    open spec fn obeys_eq_spec() -> bool {
        <V as PartialEqSpec>::obeys_eq_spec()
    }

    open spec fn eq_spec(&self, other: &Self) -> bool {
        self@.eq_spec(&other@)
    }
}

} // verus!
