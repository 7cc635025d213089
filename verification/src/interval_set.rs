//! The set of integers itself: construction, insertion and removal.

use crate::interval::Interval;
use crate::ranges::{
    covered, lemma_canonical, lemma_no_points_no_ranges, lemma_normalized_head,
    lemma_normalized_neighbours, lemma_points_narrow, lemma_points_push, lemma_points_tail,
    lemma_points_tail_end, lemma_points_without, lemma_push_normalized, lemma_range_within,
    neighbours_apart, normalized, points_of,
};
use vstd::prelude::*;

verus! {

/// A set of integers, held as a list of ranges. The operations keep the list
/// normalized: sorted, with no two ranges overlapping or adjacent.
#[derive(Debug, PartialEq, Eq, Hash)]
pub struct IntervalSet {
    pub intervals: Vec<Interval>,
    pub readonly: bool,
}

impl View for IntervalSet {
    type V = Set<int>;

    /// The integers in the set.
    open spec fn view(&self) -> Set<int> {
        points_of(self.intervals@)
    }
}

impl IntervalSet {
    /// The invariant of the type: the list of ranges is normalized.
    pub open spec fn wf(&self) -> bool {
        normalized(self.intervals@)
    }

    /// The empty set.
    pub fn new() -> (r: IntervalSet)
        ensures
            r.wf(),
            !r.readonly,
            r.intervals@ =~= Seq::<Interval>::empty(),
            r@ =~= Set::<int>::empty(),
    {
        IntervalSet::with_capacity(2)
    }

    /// The empty set, with room for `cap` ranges.
    pub fn with_capacity(cap: usize) -> (r: IntervalSet)
        ensures
            r.wf(),
            !r.readonly,
            r.intervals@ =~= Seq::<Interval>::empty(),
            r@ =~= Set::<int>::empty(),
    {
        IntervalSet { intervals: Vec::with_capacity(cap), readonly: false }
    }

    /// The set of the integers that the ranges of the list cover. The list
    /// may be in any order, and its ranges may overlap or be empty: the set
    /// is built by adding them one by one.
    pub fn from_intervals(intervals: Vec<Interval>) -> (r: IntervalSet)
        ensures
            r.wf(),
            !r.readonly,
            r@ =~= points_of(intervals@),
            normalized(intervals@) ==> r.intervals@ =~= intervals@,
    {
        let given = IntervalSet { intervals, readonly: false };
        given.clone()
    }

    /// Empties the set.
    pub fn clear(&mut self)
        requires
            !old(self).readonly,
        ensures
            final(self).wf(),
            !final(self).readonly,
            final(self).intervals@ =~= Seq::<Interval>::empty(),
            final(self)@ =~= Set::<int>::empty(),
    {
        self.intervals.clear();
    }

    /// Adds every integer of `addition` to the set. A range with
    /// `stop < start` adds nothing.
    pub fn add(&mut self, addition: &Interval)
        requires
            old(self).wf(),
            !old(self).readonly,
        ensures
            final(self).wf(),
            !final(self).readonly,
            neighbours_apart(final(self).intervals@),
            final(self)@ =~= old(self)@.union(addition.points()),
            !addition.well_formed() ==> final(self).intervals@ == old(self).intervals@,
    {
        if addition.stop < addition.start {
            proof {
                assert(addition.points() =~= Set::<int>::empty());
                lemma_normalized_neighbours(self.intervals@);
            }
            return ;
        }
        let len = self.intervals.len();
        let ghost before = self.intervals@;
        if len == 0 || self.intervals[len - 1].apart_before(addition) {
            // past the end of the list: the addition is its new last range
            proof {
                lemma_points_push(before, *addition);
                lemma_push_normalized(before, *addition);
                lemma_normalized_neighbours(before.push(*addition));
            }
            self.intervals.push(*addition);
            return ;
        }
        let mut out: Vec<Interval> = Vec::new();
        let mut i: usize = 0;
        proof {
            lemma_points_tail_end(before);
        }
        // the ranges that end before the addition, and not next to it
        while i < len && self.intervals[i].apart_before(addition)
            invariant
                len == before.len(),
                self.intervals@ == before,
                normalized(before),
                i <= len,
                out@ == before.subrange(0, i as int),
                forall|a: int| 0 <= a < i ==> (#[trigger] before[a]).stop + 1 < addition.start,
                points_of(out@).union(points_of(before.subrange(i as int, len as int)))
                    =~= points_of(before),
            decreases len - i,
        {
            proof {
                lemma_points_tail(before, i as int);
                lemma_points_push(out@, before[i as int]);
                assert(before.subrange(0, i as int).push(before[i as int]) =~= before.subrange(
                    0,
                    i + 1,
                ));
            }
            out.push(self.intervals[i]);
            i += 1;
        }
        let ghost first = i;
        let mut merged: Interval = *addition;
        // the ranges that the addition reaches: they become one with it
        while i < len && !merged.apart_before(&self.intervals[i])
            invariant
                len == before.len(),
                self.intervals@ == before,
                normalized(before),
                first <= i <= len,
                addition.well_formed(),
                merged.well_formed(),
                out@ == before.subrange(0, first as int),
                first < len ==> before[first as int].stop + 1 >= addition.start,
                merged.start <= addition.start,
                merged.stop >= addition.stop,
                first < len ==> merged.start >= (if before[first as int].start
                    < addition.start {
                    before[first as int].start
                } else {
                    addition.start
                }),
                forall|a: int| 0 <= a < first ==> (#[trigger] before[a]).stop + 1 < merged.start,
                points_of(out@).union(merged.points()).union(
                    points_of(before.subrange(i as int, len as int)),
                ) =~= points_of(before).union(addition.points()),
            decreases len - i,
        {
            let r = self.intervals[i];
            proof {
                lemma_points_tail(before, i as int);
                if i > first {
                    assert(before[first as int].stop + 1 < before[i as int].start);
                }
                merged.lemma_union_points(r);
            }
            merged = merged.union(&r);
            i += 1;
        }
        proof {
            lemma_points_push(out@, merged);
            lemma_normalized_head(before, first as int);
            if first > 0 {
                assert(before[first - 1].stop + 1 < merged.start);
            }
            lemma_push_normalized(out@, merged);
        }
        out.push(merged);
        let ghost mid = i;
        // the ranges that start after it, and not next to it
        while i < len
            invariant
                len == before.len(),
                self.intervals@ == before,
                normalized(before),
                mid <= i <= len,
                normalized(out@),
                out@.len() > 0,
                i < len ==> out@.last().stop + 1 < before[i as int].start,
                points_of(out@).union(points_of(before.subrange(i as int, len as int)))
                    =~= points_of(before).union(addition.points()),
            decreases len - i,
        {
            let r = self.intervals[i];
            proof {
                lemma_points_tail(before, i as int);
                lemma_points_push(out@, r);
                lemma_push_normalized(out@, r);
                if i + 1 < len {
                    assert(before[i as int].stop + 1 < before[i + 1].start);
                }
            }
            out.push(r);
            i += 1;
        }
        proof {
            lemma_normalized_neighbours(out@);
        }
        self.intervals = out;
    }

    /// Adds every integer from `start` to `stop`, both included.
    pub fn add_range(&mut self, start: isize, stop: isize)
        requires
            old(self).wf(),
            !old(self).readonly,
        ensures
            final(self).wf(),
            !final(self).readonly,
            neighbours_apart(final(self).intervals@),
            final(self)@ =~= old(self)@.union((Interval { start, stop }).points()),
    {
        self.add(&Interval::new(start, stop));
    }

    /// The set of the integers from `start` to `stop`, both included.
    pub fn of(start: isize, stop: isize) -> (r: IntervalSet)
        ensures
            r.wf(),
            !r.readonly,
            r@ =~= (Interval { start, stop }).points(),
    {
        let mut set = IntervalSet::new();
        set.add(&Interval::new(start, stop));
        set
    }

    /// The set that holds `pos` alone.
    pub fn of_point(pos: isize) -> (r: IntervalSet)
        ensures
            r.wf(),
            !r.readonly,
            r@ =~= set![pos as int],
    {
        IntervalSet::of(pos, pos)
    }

    /// Takes the integer `el` out of the set. Nothing changes when the set
    /// does not hold it.
    pub fn remove(&mut self, el: isize)
        requires
            old(self).wf(),
            !old(self).readonly,
        ensures
            final(self).wf(),
            !final(self).readonly,
            neighbours_apart(final(self).intervals@),
            final(self)@ =~= old(self)@.remove(el as int),
            !old(self)@.contains(el as int) ==> final(self).intervals@ == old(self).intervals@,
    {
        let len = self.intervals.len();
        let ghost before = self.intervals@;
        let mut i: usize = 0;
        while i < len && self.intervals[i].stop < el
            invariant
                len == before.len(),
                self.intervals@ == before,
                i <= len,
                forall|a: int| 0 <= a < i ==> (#[trigger] before[a]).stop < el,
            decreases len - i,
        {
            i += 1;
        }
        if i == len || el < self.intervals[i].start {
            // the list is sorted: no later range reaches down to `el`
            proof {
                if covered(before, el as int) {
                    let a = choose|a: int| 0 <= a < before.len() && (#[trigger] before[a]).covers(
                        el as int,
                    );
                    if a > i {
                        assert(before[i as int].stop + 1 < before[a].start);
                        assert(before[i as int].well_formed());
                    }
                }
                lemma_normalized_neighbours(before);
            }
            return ;
        }
        let found = self.intervals[i];
        let (start, stop) = (found.start, found.stop);
        proof {
            lemma_range_within(before, i as int);
            assert(found.well_formed());
            assert(found.covers(el as int));
        }
        if el == start && el == stop {
            // the whole range x..x goes
            proof {
                lemma_points_without(before, i as int);
            }
            self.intervals.remove(i);
        } else if el == start {
            // on the left edge x..b: the range starts one later
            let rest = Interval::new(start + 1, stop);
            proof {
                lemma_points_narrow(before, i as int, rest);
            }
            self.intervals[i] = rest;
        } else if el == stop {
            // on the right edge a..x: the range stops one earlier
            let rest = Interval::new(start, stop - 1);
            proof {
                lemma_points_narrow(before, i as int, rest);
            }
            self.intervals[i] = rest;
        } else {
            // in the middle a..x..b: [a..x-1] stays, [x+1..b] is added again
            let low = Interval::new(start, el - 1);
            proof {
                lemma_points_narrow(before, i as int, low);
            }
            self.intervals[i] = low;
            self.add_range(el + 1, stop);
        }
        proof {
            lemma_normalized_neighbours(self.intervals@);
        }
    }

    /// Whether the set holds no integer.
    pub fn is_empty(&self) -> (r: bool)
        ensures
            r == (self.intervals@.len() == 0),
            self.wf() ==> (r <==> self@ =~= Set::<int>::empty()),
    {
        proof {
            if self.wf() && self@ =~= Set::<int>::empty() {
                lemma_no_points_no_ranges(self.intervals@);
            }
        }
        self.intervals.is_empty()
    }
}

impl Clone for IntervalSet {
    /// A copy that holds the same integers, normalized and open to change.
    fn clone(&self) -> (r: IntervalSet)
        ensures
            r.wf(),
            !r.readonly,
            r@ =~= self@,
            self.wf() ==> r.intervals@ =~= self.intervals@,
    {
        let mut res = IntervalSet::new();
        res.add_all(self);
        proof {
            if self.wf() {
                lemma_canonical(res.intervals@, self.intervals@);
            }
        }
        res
    }
}

} // verus!
