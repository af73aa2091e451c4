//! The integer part of a counter: the current count, the greatest count
//! reached, and the running total from which rates are taken.
use vstd::prelude::*;

verus! {

/// Counts of a counter. `curr` goes up and down, `max` is the greatest
/// `curr` set through `incs` or `sets` (or raised by `set_max_max`),
/// `total` sums what was added, and `recent` is the total when the last rate
/// period closed.
pub struct Counts {
    pub curr: isize,
    pub max: isize,
    pub total: isize,
    pub recent: isize,
}

pub open spec fn max_of(a: int, b: int) -> int {
    if a >= b {
        a
    } else {
        b
    }
}

pub open spec fn min_of(a: int, b: int) -> int {
    if a <= b {
        a
    } else {
        b
    }
}

impl Counts {
    /// All zero.
    pub fn new() -> (c: Self)
        ensures
            c == (Counts { curr: 0, max: 0, total: 0, recent: 0 }),
    {
        Counts { curr: 0, max: 0, total: 0, recent: 0 }
    }

    /// Adds `c` to the count and to the total.
    pub fn incs(&mut self, c: isize)
        requires
            isize::MIN <= old(self).curr + c <= isize::MAX,
            isize::MIN <= old(self).total + c <= isize::MAX,
        ensures
            final(self).curr == old(self).curr + c,
            final(self).max == max_of(old(self).max as int, old(self).curr + c),
            final(self).total == old(self).total + c,
            final(self).recent == old(self).recent,
    {
        self.curr = self.curr + c;
        if self.curr > self.max {
            self.max = self.curr;
        }
        self.total = self.total + c;
    }

    /// Subtracts `c` from the count.
    pub fn decs(&mut self, c: isize)
        requires
            isize::MIN <= old(self).curr - c <= isize::MAX,
        ensures
            *final(self) == (Counts { curr: (old(self).curr - c) as isize, ..*old(self) }),
    {
        self.curr = self.curr - c;
    }

    /// Sets the count and the total to `c`.
    pub fn sets(&mut self, c: isize)
        ensures
            final(self).curr == c,
            final(self).max == max_of(old(self).max as int, c as int),
            final(self).total == c,
            final(self).recent == old(self).recent,
    {
        self.curr = c;
        if self.curr > self.max {
            self.max = self.curr;
        }
        self.total = c;
    }

    /// Lowers the count to `count` when it is above.
    pub fn set_curr_min(&mut self, count: isize)
        ensures
            *final(self) == (Counts { curr: min_of(old(self).curr as int, count as int) as isize, ..*old(self) }),
    {
        if count < self.curr {
            self.curr = count;
        }
    }

    /// Raises the greatest count to `max` when it is below.
    pub fn set_max_max(&mut self, max: isize)
        ensures
            *final(self) == (Counts { max: max_of(old(self).max as int, max as int) as isize, ..*old(self) }),
    {
        if max > self.max {
            self.max = max;
        }
    }

    /// Adds the count, greatest count and total of `other`.
    pub fn add(&mut self, other: &Counts)
        requires
            isize::MIN <= old(self).curr + other.curr <= isize::MAX,
            isize::MIN <= old(self).max + other.max <= isize::MAX,
            isize::MIN <= old(self).total + other.total <= isize::MAX,
        ensures
            final(self).curr == old(self).curr + other.curr,
            final(self).max == old(self).max + other.max,
            final(self).total == old(self).total + other.total,
            final(self).recent == old(self).recent,
    {
        self.curr = self.curr + other.curr;
        self.max = self.max + other.max;
        self.total = self.total + other.total;
    }

    /// Copies every count of `other`.
    pub fn set(&mut self, other: &Counts)
        ensures
            *final(self) == *other,
    {
        self.curr = other.curr;
        self.max = other.max;
        self.total = other.total;
        self.recent = other.recent;
    }

    /// Closes a rate period: returns how much the total grew in it and
    /// starts the next one.
    pub fn close_period(&mut self) -> (n: isize)
        requires
            isize::MIN <= old(self).total - old(self).recent <= isize::MAX,
        ensures
            n == old(self).total - old(self).recent,
            *final(self) == (Counts { recent: old(self).total, ..*old(self) }),
    {
        let n = self.total - self.recent;
        self.recent = self.total;
        n
    }
}

/// The greatest count never falls below the count after `incs` or `sets`.
pub proof fn lemma_max_covers_count(before: Counts, after_incs: Counts, after_sets: Counts, c: isize)
    requires
        after_incs.curr == before.curr + c,
        after_incs.max == max_of(before.max as int, before.curr + c),
        after_sets.curr == c,
        after_sets.max == max_of(before.max as int, c as int),
    ensures
        after_incs.max >= after_incs.curr,
        after_incs.max >= before.max,
        after_sets.max >= after_sets.curr,
        after_sets.max >= before.max,
{
}

/// Adding `c` and then subtracting it gives the count back.
pub proof fn lemma_incs_decs(before: Counts, mid: Counts, after: Counts, c: isize)
    requires
        mid.curr == before.curr + c,
        after.curr == mid.curr - c,
    ensures
        after.curr == before.curr,
{
}

} // verus!
