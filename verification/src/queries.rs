//! Questions asked of a set: membership, size and bounds.

use crate::interval::{spec_symbol_to_numeric, symbol_to_numeric, Interval};
use crate::interval_set::IntervalSet;
use crate::ranges::{
    covered, lemma_canonical, lemma_points_empty, lemma_points_push, lemma_push_normalized,
    lemma_tail_lower_bound, lemma_total_length_counts, lemma_total_length_prefix, normalized,
    points_of, total_length,
};
use vstd::prelude::*;

verus! {

impl IntervalSet {
    /// How many integers the set holds, as the sum of the lengths of its
    /// ranges.
    pub open spec fn spec_size(&self) -> nat {
        total_length(self.intervals@)
    }

    /// Whether the set holds `el`.
    pub fn contains(&self, el: isize) -> (r: bool)
        requires
            self.wf(),
        ensures
            r == self@.contains(el as int),
    {
        if self.intervals.is_empty() {
            return false;
        }
        if el < self.intervals[0].start {
            // the list is sorted and `el` lies before the first range
            proof {
                if self@.contains(el as int) {
                    assert(self.intervals@.subrange(0, self.intervals@.len() as int)
                        =~= self.intervals@);
                    lemma_tail_lower_bound(self.intervals@, 0, el as int);
                }
            }
            return false;
        }
        let n = self.intervals.len();
        let mut i: usize = 0;
        while i < n
            invariant
                n == self.intervals@.len(),
                i <= n,
                forall|a: int| 0 <= a < i ==> !(#[trigger] self.intervals@[a]).covers(el as int),
            decreases n - i,
        {
            let interval = self.intervals[i];
            if el >= interval.start && el <= interval.stop {
                assert(self.intervals@[i as int].covers(el as int));
                return true;
            }
            i += 1;
        }
        false
    }

    /// Whether the set holds the symbol code `el`, read as a signed number.
    pub fn contains_usize(&self, el: usize) -> (r: bool)
        requires
            self.wf(),
        ensures
            r == self@.contains(spec_symbol_to_numeric(el)),
    {
        self.contains(symbol_to_numeric(el))
    }

    /// The one integer of the set, if the set holds exactly one.
    pub fn get_single_element(&self) -> (r: Option<isize>)
        requires
            self.wf(),
        ensures
            match r {
                Some(v) => self@ =~= set![v as int],
                None => forall|v: int| !(self@ =~= set![v]),
            },
    {
        if self.intervals.len() == 1 {
            if self.intervals[0].start == self.intervals[0].stop {
                proof {
                    let x = self.intervals@[0];
                    assert forall|k: int| self@.contains(k) <==> k == x.start by {
                        if covered(self.intervals@, k) {
                            let a = choose|a: int|
                                0 <= a < self.intervals@.len() && (
                                #[trigger] self.intervals@[a]).covers(k);
                        }
                        if k == x.start {
                            assert(self.intervals@[0].covers(k));
                        }
                    }
                }
                return Some(self.intervals[0].start);
            }
        }
        proof {
            assert forall|v: int| !(self@ =~= set![v]) by {
                if self@ =~= set![v] {
                    assert(self@.contains(v));
                    let a = choose|a: int|
                        0 <= a < self.intervals@.len() && (#[trigger] self.intervals@[a]).covers(
                            v,
                        );
                    let x = self.intervals@[a];
                    // the set holds the whole of range `a`, so that range is v..v
                    assert(x.well_formed());
                    assert(x.covers(x.start as int) && x.covers(x.stop as int));
                    assert(self@.contains(x.start as int) && self@.contains(x.stop as int));
                    assert(x.start == v && x.stop == v);
                    lemma_points_empty();
                    lemma_points_push(Seq::<Interval>::empty(), x);
                    lemma_push_normalized(Seq::<Interval>::empty(), x);
                    assert(points_of(Seq::<Interval>::empty().push(x)) =~= self@) by {
                        assert forall|k: int| x.points().contains(k) <==> k == v by {}
                    }
                    lemma_canonical(Seq::<Interval>::empty().push(x), self.intervals@);
                    assert(self.intervals@.len() == 1);
                    assert(self.intervals@[0] == x);
                }
            }
        }
        None
    }

    /// The greatest integer of the set; `None` for the empty set.
    pub fn get_max_element(&self) -> (r: Option<isize>)
        requires
            self.wf(),
        ensures
            match r {
                Some(v) => self@.contains(v as int) && forall|k: int|
                    self@.contains(k) ==> k <= v,
                None => self@ =~= Set::<int>::empty(),
            },
    {
        if self.intervals.is_empty() {
            return None;
        }
        let last = self.intervals.len() - 1;
        proof {
            let s = self.intervals@;
            assert(s[last as int].well_formed());
            assert(s[last as int].covers(s[last as int].stop as int));
            assert forall|k: int| self@.contains(k) implies k <= s[last as int].stop by {
                let a = choose|a: int| 0 <= a < s.len() && (#[trigger] s[a]).covers(k);
                if a < last {
                    assert(s[a].stop + 1 < s[last as int].start);
                }
            }
        }
        Some(self.intervals[last].stop)
    }

    /// The least integer of the set; `None` for the empty set.
    pub fn get_min_element(&self) -> (r: Option<isize>)
        requires
            self.wf(),
        ensures
            match r {
                Some(v) => self@.contains(v as int) && forall|k: int|
                    self@.contains(k) ==> v <= k,
                None => self@ =~= Set::<int>::empty(),
            },
    {
        if self.intervals.is_empty() {
            return None;
        }
        proof {
            let s = self.intervals@;
            assert(s[0].well_formed());
            assert(s[0].covers(s[0].start as int));
            assert forall|k: int| self@.contains(k) implies s[0].start <= k by {
                let a = choose|a: int| 0 <= a < s.len() && (#[trigger] s[a]).covers(k);
                if a > 0 {
                    assert(s[0].stop + 1 < s[a].start);
                }
            }
        }
        Some(self.intervals[0].start)
    }

    /// How many integers the set holds.
    pub fn size(&self) -> (n: usize)
        requires
            self.wf(),
            self.spec_size() <= usize::MAX,
        ensures
            n == self.spec_size(),
            self@.finite(),
            n == self@.len(),
    {
        let len = self.intervals.len();
        let mut n: usize = 0;
        let mut i: usize = 0;
        proof {
            lemma_total_length_counts(self.intervals@);
            assert(self.intervals@.subrange(0, 0) =~= Seq::<Interval>::empty());
        }
        while i < len
            invariant
                len == self.intervals@.len(),
                i <= len,
                total_length(self.intervals@) <= usize::MAX,
                n == total_length(self.intervals@.subrange(0, i as int)),
            decreases len - i,
        {
            proof {
                lemma_total_length_prefix(self.intervals@, i as int);
            }
            let interval = self.intervals[i];
            n += interval.length();
            i += 1;
        }
        proof {
            assert(self.intervals@.subrange(0, len as int) =~= self.intervals@);
        }
        n
    }
}

} // verus!
