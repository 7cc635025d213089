//! Set algebra: union of many sets, intersection, difference and complement.

use crate::interval::Interval;
use crate::interval_set::IntervalSet;
use crate::ranges::{
    lemma_points_push, lemma_points_tail, lemma_points_tail_end, lemma_push_normalized,
    lemma_rest_above, normalized, points_of,
};
use vstd::prelude::*;

verus! {

/// The integers that at least one set of the list holds.
pub open spec fn union_of(sets: Seq<IntervalSet>) -> Set<int> {
    Set::new(|k: int| exists|i: int| 0 <= i < sets.len() && (#[trigger] sets[i])@.contains(k))
}

/// One more set in the list adds the integers that it holds.
pub proof fn lemma_union_of_push(sets: Seq<IntervalSet>, x: IntervalSet)
    ensures
        union_of(sets.push(x)) =~= union_of(sets).union(x@),
        union_of(Seq::<IntervalSet>::empty()) =~= Set::<int>::empty(),
{
    let t = sets.push(x);
    assert forall|k: int| union_of(t).contains(k) <==> (union_of(sets).contains(k) || x@.contains(
        k,
    )) by {
        if union_of(t).contains(k) {
            let i = choose|i: int| 0 <= i < t.len() && (#[trigger] t[i])@.contains(k);
            if i < sets.len() {
                assert(sets[i]@.contains(k));
            }
        }
        if union_of(sets).contains(k) {
            let i = choose|i: int| 0 <= i < sets.len() && (#[trigger] sets[i])@.contains(k);
            assert(t[i]@.contains(k));
        }
        if x@.contains(k) {
            assert(t[sets.len() as int]@.contains(k));
        }
    }
}

impl IntervalSet {
    /// Adds every integer of `set` to this set, range by range in ascending
    /// order, and hands the set back for chaining.
    pub fn add_all(&mut self, set: &IntervalSet) -> (r: &IntervalSet)
        requires
            old(self).wf(),
            !old(self).readonly,
        ensures
            final(self).wf(),
            !final(self).readonly,
            final(self)@ =~= old(self)@.union(set@),
            *r == *final(self),
    {
        let n = set.intervals.len();
        let mut i: usize = 0;
        proof {
            lemma_points_tail_end(set.intervals@);
            assert(set.intervals@.subrange(0, 0) =~= Seq::<Interval>::empty());
        }
        while i < n
            invariant
                n == set.intervals@.len(),
                i <= n,
                self.wf(),
                !self.readonly,
                self@ =~= old(self)@.union(points_of(set.intervals@.subrange(0, i as int))),
            decreases n - i,
        {
            proof {
                lemma_points_push(set.intervals@.subrange(0, i as int), set.intervals@[i as int]);
                assert(set.intervals@.subrange(0, i as int).push(set.intervals@[i as int])
                    =~= set.intervals@.subrange(0, i + 1));
            }
            self.add(&set.intervals[i]);
            i += 1;
        }
        self
    }

    /// The union of all the sets of the list.
    pub fn or(sets: &[IntervalSet]) -> (r: IntervalSet)
        ensures
            r.wf(),
            !r.readonly,
            r@ =~= union_of(sets@),
    {
        let mut res = IntervalSet::new();
        let n = sets.len();
        let mut i: usize = 0;
        while i < n
            invariant
                n == sets@.len(),
                i <= n,
                res.wf(),
                !res.readonly,
                res@ =~= union_of(sets@.subrange(0, i as int)),
            decreases n - i,
        {
            proof {
                lemma_union_of_push(sets@.subrange(0, i as int), sets@[i as int]);
                assert(sets@.subrange(0, i as int).push(sets@[i as int]) =~= sets@.subrange(
                    0,
                    i + 1,
                ));
            }
            res.add_all(&sets[i]);
            i += 1;
        }
        proof {
            assert(sets@.subrange(0, n as int) =~= sets@);
        }
        res
    }

    /// The complement of this set within `vocabulary`: the integers of
    /// `vocabulary` that this set does not hold.
    pub fn complement(&self, vocabulary: &IntervalSet) -> (r: IntervalSet)
        requires
            self.wf(),
            vocabulary.wf(),
        ensures
            r.wf(),
            !r.readonly,
            r@ =~= vocabulary@.difference(self@),
    {
        vocabulary.substract(self)
    }

    /// The difference `self - other`.
    pub fn substract(&self, other: &IntervalSet) -> (r: IntervalSet)
        requires
            self.wf(),
            other.wf(),
        ensures
            r.wf(),
            !r.readonly,
            r@ =~= self@.difference(other@),
    {
        IntervalSet::substract_op(self, other)
    }

    /// The intersection: the integers that both sets hold.
    pub fn and(&self, other: &IntervalSet) -> (r: IntervalSet)
        requires
            self.wf(),
            other.wf(),
        ensures
            r.wf(),
            !r.readonly,
            r@ =~= self@.intersect(other@),
    {
        let mut intersection = IntervalSet::new();
        let (mut i, mut j) = (0usize, 0usize);
        let n = self.intervals.len();
        let m = other.intervals.len();
        let ghost a = self.intervals@;
        let ghost b = other.intervals@;
        proof {
            assert(a.subrange(0, n as int) =~= a);
            assert(b.subrange(0, m as int) =~= b);
        }
        // walk down both lists looking for ranges that are not disjoint
        while i < n && j < m
            invariant
                n == a.len(),
                m == b.len(),
                a == self.intervals@,
                b == other.intervals@,
                normalized(a),
                normalized(b),
                i <= n,
                j <= m,
                intersection.wf(),
                !intersection.readonly,
                intersection@.union(
                    points_of(a.subrange(i as int, n as int)).intersect(
                        points_of(b.subrange(j as int, m as int)),
                    ),
                ) =~= points_of(a).intersect(points_of(b)),
            decreases (n - i) + (m - j),
        {
            let mine = self.intervals[i];
            let theirs = other.intervals[j];
            proof {
                lemma_points_tail(a, i as int);
                lemma_points_tail(b, j as int);
                lemma_rest_above(a, i as int);
                lemma_rest_above(b, j as int);
                assert(mine.well_formed() && theirs.well_formed());
            }
            if mine.starts_before_disjoint(&theirs) {
                // this side's range lies below: look at the next one
                i += 1;
            } else if theirs.starts_before_disjoint(&mine) {
                // the other side's range lies below: look at the next one
                j += 1;
            } else if mine.propertly_contains(&theirs) {
                // the other side's range lies inside: take it, keep this side's
                intersection.add(&mine.intersection(&theirs));
                j += 1;
            } else if theirs.propertly_contains(&mine) {
                // this side's range lies inside: take it, keep the other side's
                intersection.add(&mine.intersection(&theirs));
                i += 1;
            } else {
                // the two overlap in part: take what they share and move
                // past the one that ends first, since the other may still
                // reach into the next range
                intersection.add(&mine.intersection(&theirs));
                if mine.starts_after_nondisjoint(&theirs) {
                    j += 1;
                } else {
                    assert(theirs.spec_starts_after_nondisjoint(mine));
                    i += 1;
                }
            }
        }
        proof {
            if i == n {
                lemma_points_tail_end(a);
            } else {
                lemma_points_tail_end(b);
            }
        }
        intersection
    }

    /// The difference `left - right`: the integers of `left` that `right`
    /// does not hold. The result is built range by range in one sweep over
    /// both lists.
    pub fn substract_op(left: &IntervalSet, right: &IntervalSet) -> (r: IntervalSet)
        requires
            left.wf(),
            right.wf(),
        ensures
            r.wf(),
            !r.readonly,
            r@ =~= left@.difference(right@),
    {
        if left.is_empty() {
            return IntervalSet::new();
        }
        if right.is_empty() {
            return left.clone();
        }
        let n = left.intervals.len();
        let m = right.intervals.len();
        let ghost a = left.intervals@;
        let ghost b = right.intervals@;
        let mut out: Vec<Interval> = Vec::new();
        let (mut i, mut j) = (0usize, 0usize);
        // what is left of the range of `left` under the cursor
        let mut current = left.intervals[0];
        proof {
            assert(a.subrange(0, n as int) =~= a);
            assert(b.subrange(0, m as int) =~= b);
            lemma_points_tail(a, 0);
        }
        while i < n && j < m
            invariant
                n == a.len(),
                m == b.len(),
                a == left.intervals@,
                b == right.intervals@,
                normalized(a),
                normalized(b),
                i <= n,
                j <= m,
                normalized(out@),
                i < n ==> current.well_formed() && a[i as int].start <= current.start
                    && current.stop == a[i as int].stop,
                i < n && out@.len() > 0 ==> out@.last().stop + 1 < current.start,
                i < n ==> points_of(out@).union(
                    current.points().union(points_of(a.subrange(i + 1, n as int))).difference(
                        points_of(b.subrange(j as int, m as int)),
                    ),
                ) =~= points_of(a).difference(points_of(b)),
                i == n ==> points_of(out@) =~= points_of(a).difference(points_of(b)),
            decreases (n - i) + (m - j),
        {
            let cut = right.intervals[j];
            proof {
                lemma_points_tail(b, j as int);
                lemma_rest_above(a, i as int);
                lemma_rest_above(b, j as int);
                assert(cut.well_formed());
                if i + 1 < n {
                    lemma_points_tail(a, i + 1);
                    assert(a[i as int].stop + 1 < a[i + 1].start);
                    assert(a[i + 1].well_formed());
                } else {
                    lemma_points_tail_end(a);
                }
            }
            if cut.stop < current.start {
                // the cut lies below what is left: next cut
                j += 1;
            } else if cut.start > current.stop {
                // the cut lies above: what is left stays whole
                proof {
                    lemma_points_push(out@, current);
                    lemma_push_normalized(out@, current);
                }
                out.push(current);
                i += 1;
                if i < n {
                    current = left.intervals[i];
                }
            } else {
                if cut.start > current.start {
                    // the part below the cut stays
                    let below = Interval::new(current.start, cut.start - 1);
                    proof {
                        lemma_points_push(out@, below);
                        lemma_push_normalized(out@, below);
                    }
                    out.push(below);
                }
                if cut.stop < current.stop {
                    // the part above the cut may meet the next cut
                    current = Interval::new(cut.stop + 1, current.stop);
                    j += 1;
                } else {
                    // the cut reaches the end of the range, and maybe the next one
                    i += 1;
                    if i < n {
                        current = left.intervals[i];
                    }
                }
            }
        }
        if i < n {
            // no cut is left: the rest stays as it is
            proof {
                lemma_points_tail_end(b);
                lemma_points_push(out@, current);
                lemma_push_normalized(out@, current);
            }
            out.push(current);
            i += 1;
            while i < n
                invariant
                    n == a.len(),
                    a == left.intervals@,
                    normalized(a),
                    0 < i <= n,
                    normalized(out@),
                    out@.len() > 0,
                    out@.last().stop <= a[i - 1].stop,
                    points_of(out@).union(points_of(a.subrange(i as int, n as int)))
                        =~= points_of(a).difference(points_of(b)),
                decreases n - i,
            {
                let rest = left.intervals[i];
                proof {
                    lemma_points_tail(a, i as int);
                    assert(a[i - 1].stop + 1 < a[i as int].start);
                    lemma_points_push(out@, rest);
                    lemma_push_normalized(out@, rest);
                }
                out.push(rest);
                i += 1;
            }
            proof {
                lemma_points_tail_end(a);
            }
        }
        IntervalSet { intervals: out, readonly: false }
    }
}

} // verus!
