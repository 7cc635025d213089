//! Closed integer ranges and the relations between two of them.

use vstd::prelude::*;

verus! {

/// Start bound of the canonical empty interval.
pub const DEFAULT_EMPTY_START: isize = -1;

/// Stop bound of the canonical empty interval.
pub const DEFAULT_EMPTY_STOP: isize = -2;

/// The closed range of all integers `k` with `start <= k <= stop`.
/// A range with `stop < start` covers nothing.
#[derive(Debug, PartialEq, Eq, Structural, Hash, Clone, Copy)]
pub struct Interval {
    pub start: isize,
    pub stop: isize,
}

/// The signed reading of a symbol code: codes up to `isize::MAX` keep their
/// value, larger ones wrap round to the negative numbers.
pub open spec fn spec_symbol_to_numeric(v: usize) -> int {
    if v <= isize::MAX {
        v as int
    } else {
        v - usize::MAX - 1
    }
}

/// The unsigned reading of a number: non-negative numbers keep their value,
/// negative ones wrap round to the top of the unsigned range.
pub open spec fn spec_numeric_to_symbol(v: isize) -> int {
    if v >= 0 {
        v as int
    } else {
        v + usize::MAX + 1
    }
}

/// Reads a number as a symbol code, wrapping negative numbers round.
pub fn numeric_to_symbol(v: isize) -> (r: usize)
    ensures
        r == spec_numeric_to_symbol(v),
{
    if v >= 0 {
        v as usize
    } else {
        let up: isize = v - isize::MIN;
        let n: usize = up as usize;
        let half: usize = isize::MAX as usize;
        n + half + 1
    }
}

/// Reads a symbol code as a number, wrapping codes above `isize::MAX` round.
pub fn symbol_to_numeric(v: usize) -> (r: isize)
    ensures
        r == spec_symbol_to_numeric(v),
{
    let half: usize = isize::MAX as usize;
    if v <= half {
        v as isize
    } else {
        let over: usize = v - half - 1;
        let n: isize = over as isize;
        n + isize::MIN
    }
}

impl Interval {
    /// Whether the range covers the integer `k`.
    pub open spec fn covers(self, k: int) -> bool {
        self.start <= k <= self.stop
    }

    /// The integers that the range covers.
    pub open spec fn points(self) -> Set<int> {
        Set::new(|k: int| self.covers(k))
    }

    /// A range is well formed when it covers at least one integer.
    pub open spec fn well_formed(self) -> bool {
        self.start <= self.stop
    }

    /// How many integers the range covers.
    pub open spec fn spec_length(self) -> nat {
        if self.stop < self.start {
            0
        } else {
            (self.stop - self.start + 1) as nat
        }
    }

    pub open spec fn spec_starts_before_disjoint(self, other: Interval) -> bool {
        self.start < other.start && self.stop < other.start
    }

    /// No integer lies in both ranges.
    pub open spec fn spec_disjoint(self, other: Interval) -> bool {
        !self.well_formed() || !other.well_formed() || self.stop < other.start || other.stop
            < self.start
    }

    /// One range ends exactly one below the start of the other.
    pub open spec fn spec_adjacent(self, other: Interval) -> bool {
        self.start == other.stop + 1 || self.stop == other.start - 1
    }

    pub open spec fn spec_starts_after_nondisjoint(self, other: Interval) -> bool {
        self.start > other.start && self.start <= other.stop
    }

    pub open spec fn spec_properly_contains(self, other: Interval) -> bool {
        other.start >= self.start && other.stop <= self.stop
    }

    /// `[min(starts), max(stops)]`.
    pub open spec fn spec_union(self, other: Interval) -> Interval {
        Interval {
            start: if self.start <= other.start { self.start } else { other.start },
            stop: if self.stop >= other.stop { self.stop } else { other.stop },
        }
    }

    /// `[max(starts), min(stops)]`.
    pub open spec fn spec_intersection(self, other: Interval) -> Interval {
        Interval {
            start: if self.start >= other.start { self.start } else { other.start },
            stop: if self.stop <= other.stop { self.stop } else { other.stop },
        }
    }

    /// Two well-formed ranges touch when they overlap or are adjacent.
    pub open spec fn touches(self, other: Interval) -> bool {
        self.start <= other.stop + 1 && other.start <= self.stop + 1
    }

    /// The union of two touching ranges covers what the two cover, and no
    /// more.
    pub proof fn lemma_union_points(self, other: Interval)
        requires
            self.well_formed(),
            other.well_formed(),
            self.touches(other),
        ensures
            self.spec_union(other).well_formed(),
            self.spec_union(other).points() =~= self.points().union(other.points()),
    {
    }

    /// The range from `start` to `stop`, both included.
    pub fn new(start: isize, stop: isize) -> (r: Interval)
        ensures
            r.start == start,
            r.stop == stop,
    {
        Interval { start, stop }
    }

    /// How many integers the range covers: none where `stop < start`. The
    /// one range whose length no `usize` holds is the whole of `isize`.
    pub fn length(&self) -> (n: usize)
        requires
            self.spec_length() <= usize::MAX,
        ensures
            n == self.spec_length(),
    {
        if self.stop < self.start {
            0
        } else if self.start >= 0 || self.stop < 0 {
            let d: isize = self.stop - self.start;
            let n: usize = d as usize;
            n + 1
        } else {
            let below: usize = (-(self.start + 1)) as usize;
            let above: usize = self.stop as usize;
            below + above + 2
        }
    }

    /// The range between two symbol codes, each read as a signed number.
    pub fn new_usize(start: usize, stop: usize) -> (r: Interval)
        ensures
            r.start == spec_symbol_to_numeric(start),
            r.stop == spec_symbol_to_numeric(stop),
    {
        Interval { start: symbol_to_numeric(start), stop: symbol_to_numeric(stop) }
    }

    /// The canonical empty interval.
    pub fn new_empty() -> (r: Interval)
        ensures
            r.start == DEFAULT_EMPTY_START,
            r.stop == DEFAULT_EMPTY_STOP,
            !r.well_formed(),
            r.points() =~= Set::<int>::empty(),
    {
        Interval { start: DEFAULT_EMPTY_START, stop: DEFAULT_EMPTY_STOP }
    }

    /// Does this range start, and end, strictly before the other starts?
    pub fn starts_before_disjoint(&self, other: &Interval) -> (r: bool)
        ensures
            r == self.spec_starts_before_disjoint(*other),
    {
        self.start < other.start && self.stop < other.start
    }

    /// Does this range start no later than the other and reach into it?
    pub fn starts_before_non_disjoint(&self, other: &Interval) -> (r: bool)
        ensures
            r == (self.start <= other.start && self.stop >= other.start),
    {
        self.start <= other.start && self.stop >= other.start
    }

    /// Does this range start strictly after the other starts?
    pub fn starts_after(&self, other: &Interval) -> (r: bool)
        ensures
            r == (self.start > other.start),
    {
        self.start > other.start
    }

    /// Does this range start strictly after the other ends?
    pub fn starts_after_disjoint(&self, other: &Interval) -> (r: bool)
        ensures
            r == (self.start > other.stop),
    {
        self.start > other.stop
    }

    /// Does this range start inside the other, strictly after its start?
    pub fn starts_after_nondisjoint(&self, other: &Interval) -> (r: bool)
        ensures
            r == self.spec_starts_after_nondisjoint(*other),
    {
        self.start > other.start && self.start <= other.stop
    }

    /// Whether no integer lies in both ranges. The answer does not depend on
    /// the order of the two ranges.
    pub fn disjoint(&self, other: &Interval) -> (r: bool)
        ensures
            r == self.spec_disjoint(*other),
            r == other.spec_disjoint(*self),
            r <==> self.points().disjoint(other.points()),
            self.well_formed() && other.well_formed() ==> r == (
                self.spec_starts_before_disjoint(*other)
                || other.spec_starts_before_disjoint(*self)),
    {
        let r = self.stop < self.start || other.stop < other.start || self.stop < other.start
            || other.stop < self.start;
        proof {
            if !r {
                let k: int = if self.start >= other.start { self.start as int } else { other.start as int };
                assert(self.points().contains(k) && other.points().contains(k));
            }
        }
        r
    }

    /// Whether one range ends exactly one below the start of the other.
    pub fn adjacent(&self, other: &Interval) -> (r: bool)
        ensures
            r == self.spec_adjacent(*other),
            self.well_formed() && other.well_formed() ==> (r <==> self.spec_disjoint(*other)
                && self.touches(*other)),
    {
        (other.stop < isize::MAX && self.start == other.stop + 1) || (other.start > isize::MIN
            && self.stop == other.start - 1)
    }

    /// Whether every integer of the other range lies between the bounds of
    /// this one.
    pub fn propertly_contains(&self, other: &Interval) -> (r: bool)
        ensures
            r == self.spec_properly_contains(*other),
    {
        other.start >= self.start && other.stop <= self.stop
    }

    /// The smallest range that spans both. Where the two overlap or are
    /// adjacent it covers what they cover; else it covers the gap between
    /// them too.
    pub fn union(&self, other: &Interval) -> (r: Interval)
        ensures
            r == self.spec_union(*other),
            self.well_formed() && other.well_formed() && self.touches(*other) ==> r.points()
                =~= self.points().union(other.points()),
    {
        let start: isize = if self.start <= other.start { self.start } else { other.start };
        let stop: isize = if self.stop >= other.stop { self.stop } else { other.stop };
        Interval { start, stop }
    }

    /// The range common to both; it is empty (`stop < start`) when two
    /// well-formed ranges share no integer.
    pub fn intersection(&self, other: &Interval) -> (r: Interval)
        ensures
            r == self.spec_intersection(*other),
            self.well_formed() && other.well_formed() ==> r.points() =~= self.points().intersect(
                other.points(),
            ),
    {
        let start: isize = if self.start >= other.start { self.start } else { other.start };
        let stop: isize = if self.stop <= other.stop { self.stop } else { other.stop };
        Interval { start, stop }
    }

    /// Whether this range ends at least two below the start of the other, so
    /// that the two neither overlap nor are adjacent.
    pub fn apart_before(&self, other: &Interval) -> (r: bool)
        ensures
            r == (self.stop + 1 < other.start),
    {
        self.stop < other.start && self.stop + 1 < other.start
    }
}

} // verus!
