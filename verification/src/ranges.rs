//! The model of a list of ranges: the integers it covers, what it means for
//! the list to be normalized, and the facts that the set operations rest on.

use crate::interval::Interval;
use vstd::prelude::*;

verus! {

/// Whether some range of the list covers `k`.
pub open spec fn covered(s: Seq<Interval>, k: int) -> bool {
    exists|i: int| 0 <= i < s.len() && (#[trigger] s[i]).covers(k)
}

/// The integers covered by the ranges of the list.
pub open spec fn points_of(s: Seq<Interval>) -> Set<int> {
    Set::new(|k: int| covered(s, k))
}

/// A list is normalized when each range is well formed and each range ends
/// at least two below the start of every later one: the list is sorted, and
/// no two ranges overlap or are adjacent.
pub open spec fn normalized(s: Seq<Interval>) -> bool {
    &&& forall|i: int| 0 <= i < s.len() ==> (#[trigger] s[i]).well_formed()
    &&& forall|i: int, j: int|
        0 <= i < j < s.len() ==> (#[trigger] s[i]).stop + 1 < (#[trigger] s[j]).start
}

/// The same, said of neighbours only.
pub open spec fn neighbours_apart(s: Seq<Interval>) -> bool {
    &&& forall|i: int| 0 <= i < s.len() ==> (#[trigger] s[i]).well_formed()
    &&& forall|i: int, j: int|
        0 <= i && j == i + 1 && j < s.len() ==> (#[trigger] s[i]).stop + 1 < (
        #[trigger] s[j]).start
}

/// In a normalized list every pair of neighbours `(A, B)` has
/// `A.stop + 1 < B.start`.
pub proof fn lemma_normalized_neighbours(s: Seq<Interval>)
    requires
        normalized(s),
    ensures
        neighbours_apart(s),
{
}

/// A list whose neighbours are apart is normalized.
pub proof fn lemma_neighbours_normalized(s: Seq<Interval>)
    requires
        neighbours_apart(s),
    ensures
        normalized(s),
{
    assert forall|i: int, j: int| 0 <= i < j < s.len() implies (#[trigger] s[i]).stop + 1 < (
    #[trigger] s[j]).start by {
        lemma_apart_chain(s, i, j);
    }
}

proof fn lemma_apart_chain(s: Seq<Interval>, i: int, j: int)
    requires
        neighbours_apart(s),
        0 <= i < j < s.len(),
    ensures
        s[i].stop + 1 < s[j].start,
    decreases j - i,
{
    if j > i + 1 {
        lemma_apart_chain(s, i, j - 1);
        assert(s[j - 1].well_formed());
        assert(s[j - 1].stop + 1 < s[j].start);
    }
}

/// The empty list covers nothing.
pub proof fn lemma_points_empty()
    ensures
        points_of(Seq::<Interval>::empty()) =~= Set::<int>::empty(),
        normalized(Seq::<Interval>::empty()),
{
}

/// A list that covers nothing, if normalized, is empty.
pub proof fn lemma_no_points_no_ranges(s: Seq<Interval>)
    requires
        normalized(s),
        points_of(s) =~= Set::<int>::empty(),
    ensures
        s.len() == 0,
{
    if s.len() > 0 {
        assert(s[0].covers(s[0].start as int));
        assert(points_of(s).contains(s[0].start as int));
    }
}

/// Appending a range adds what it covers.
pub proof fn lemma_points_push(s: Seq<Interval>, x: Interval)
    ensures
        points_of(s.push(x)) =~= points_of(s).union(x.points()),
{
    let t = s.push(x);
    assert forall|k: int| points_of(t).contains(k) <==> (points_of(s).contains(k)
        || x.points().contains(k)) by {
        if covered(t, k) {
            let i = choose|i: int| 0 <= i < t.len() && (#[trigger] t[i]).covers(k);
            if i < s.len() {
                assert(s[i].covers(k));
            }
        }
        if covered(s, k) {
            let i = choose|i: int| 0 <= i < s.len() && (#[trigger] s[i]).covers(k);
            assert(t[i].covers(k));
        }
        if x.covers(k) {
            assert(t[s.len() as int].covers(k));
        }
    }
}

/// What the tail from `i` covers is what range `i` covers and what the tail
/// after it covers.
pub proof fn lemma_points_tail(s: Seq<Interval>, i: int)
    requires
        0 <= i < s.len(),
    ensures
        points_of(s.subrange(i, s.len() as int)) =~= s[i].points().union(
            points_of(s.subrange(i + 1, s.len() as int)),
        ),
{
    let t = s.subrange(i, s.len() as int);
    let u = s.subrange(i + 1, s.len() as int);
    assert forall|k: int| points_of(t).contains(k) <==> (s[i].covers(k) || points_of(u).contains(
        k,
    )) by {
        if covered(t, k) {
            let a = choose|a: int| 0 <= a < t.len() && (#[trigger] t[a]).covers(k);
            if a > 0 {
                assert(u[a - 1].covers(k));
            }
        }
        if covered(u, k) {
            let a = choose|a: int| 0 <= a < u.len() && (#[trigger] u[a]).covers(k);
            assert(t[a + 1].covers(k));
        }
        if s[i].covers(k) {
            assert(t[0].covers(k));
        }
    }
}

/// A tail that starts at the end of the list covers nothing.
pub proof fn lemma_points_tail_end(s: Seq<Interval>)
    ensures
        points_of(s.subrange(s.len() as int, s.len() as int)) =~= Set::<int>::empty(),
        s.subrange(0, s.len() as int) =~= s,
{
}

/// In a normalized list, whatever the tail from `i` covers is no smaller
/// than the start of range `i`.
pub proof fn lemma_tail_lower_bound(s: Seq<Interval>, i: int, k: int)
    requires
        normalized(s),
        0 <= i <= s.len(),
        points_of(s.subrange(i, s.len() as int)).contains(k),
    ensures
        i < s.len(),
        s[i].start <= k,
{
    let t = s.subrange(i, s.len() as int);
    let a = choose|a: int| 0 <= a < t.len() && (#[trigger] t[a]).covers(k);
    assert(t[a] == s[i + a]);
    if a > 0 {
        assert(s[i].stop + 1 < s[i + a].start);
    }
}

/// In a normalized list, whatever the ranges before `i` cover lies below
/// the start of range `i`, and more than one below.
pub proof fn lemma_head_upper_bound(s: Seq<Interval>, i: int, k: int)
    requires
        normalized(s),
        0 <= i < s.len(),
        points_of(s.subrange(0, i)).contains(k),
    ensures
        k + 1 < s[i].start,
{
    let t = s.subrange(0, i);
    let a = choose|a: int| 0 <= a < t.len() && (#[trigger] t[a]).covers(k);
    assert(t[a] == s[a]);
    assert(s[a].stop + 1 < s[i].start);
}

/// A tail of a normalized list is normalized.
pub proof fn lemma_normalized_tail(s: Seq<Interval>, i: int)
    requires
        normalized(s),
        0 <= i <= s.len(),
    ensures
        normalized(s.subrange(i, s.len() as int)),
{
    let t = s.subrange(i, s.len() as int);
    assert forall|a: int| 0 <= a < t.len() implies (#[trigger] t[a]).well_formed() by {
        assert(s[i + a].well_formed());
    }
    assert forall|a: int, b: int| 0 <= a < b < t.len() implies (#[trigger] t[a]).stop + 1 < (
    #[trigger] t[b]).start by {
        assert(s[i + a].stop + 1 < s[i + b].start);
    }
}

/// The ranges before `i` of a normalized list are a normalized list.
pub proof fn lemma_normalized_head(s: Seq<Interval>, i: int)
    requires
        normalized(s),
        0 <= i <= s.len(),
    ensures
        normalized(s.subrange(0, i)),
{
    let t = s.subrange(0, i);
    assert forall|a: int| 0 <= a < t.len() implies (#[trigger] t[a]).well_formed() by {
        assert(s[a].well_formed());
    }
    assert forall|a: int, b: int| 0 <= a < b < t.len() implies (#[trigger] t[a]).stop + 1 < (
    #[trigger] t[b]).start by {
        assert(s[a].stop + 1 < s[b].start);
    }
}

proof fn lemma_first_start_le(a: Seq<Interval>, b: Seq<Interval>)
    requires
        normalized(a),
        normalized(b),
        points_of(a) =~= points_of(b),
        a.len() > 0,
    ensures
        b.len() > 0,
        b[0].start <= a[0].start,
{
    let k = a[0].start as int;
    assert(a[0].well_formed());
    assert(a[0].covers(k));
    assert(points_of(a).contains(k));
    assert(points_of(b).contains(k));
    assert(b.subrange(0, b.len() as int) =~= b);
    lemma_tail_lower_bound(b, 0, k);
}

proof fn lemma_first_stop_le(a: Seq<Interval>, b: Seq<Interval>)
    requires
        normalized(a),
        normalized(b),
        points_of(a) =~= points_of(b),
        a.len() > 0,
        b.len() > 0,
        a[0].start == b[0].start,
    ensures
        b[0].stop >= a[0].stop,
{
    assert(a[0].well_formed());
    assert(b[0].well_formed());
    if b[0].stop < a[0].stop {
        // the first integer after b[0] lies in a[0], so a later range of b would cover it
        let m = b[0].stop + 1;
        assert(a[0].covers(m));
        assert(points_of(a).contains(m));
        assert(points_of(b).contains(m));
        let j = choose|j: int| 0 <= j < b.len() && (#[trigger] b[j]).covers(m);
        if j > 0 {
            assert(b[0].stop + 1 < b[j].start);
        }
    }
}

/// Two normalized lists that cover the same integers are the same list: a
/// set of integers has one normalized form.
pub proof fn lemma_canonical(a: Seq<Interval>, b: Seq<Interval>)
    requires
        normalized(a),
        normalized(b),
        points_of(a) =~= points_of(b),
    ensures
        a =~= b,
    decreases a.len(),
{
    if a.len() == 0 {
        assert(points_of(a) =~= Set::<int>::empty());
        lemma_no_points_no_ranges(b);
    } else {
        lemma_first_start_le(a, b);
        lemma_first_start_le(b, a);
        lemma_first_stop_le(a, b);
        lemma_first_stop_le(b, a);
        assert(a[0] == b[0]);
        let ta = a.subrange(1, a.len() as int);
        let tb = b.subrange(1, b.len() as int);
        lemma_normalized_tail(a, 1);
        lemma_normalized_tail(b, 1);
        lemma_points_tail(a, 0);
        lemma_points_tail(b, 0);
        assert(a.subrange(0, a.len() as int) =~= a);
        assert(b.subrange(0, b.len() as int) =~= b);
        assert forall|k: int| points_of(ta).contains(k) <==> points_of(tb).contains(k) by {
            if points_of(ta).contains(k) {
                lemma_tail_lower_bound(a, 1, k);
                assert(a[0].stop + 1 < a[1].start);
                assert(points_of(a).contains(k));
                assert(points_of(b).contains(k));
            }
            if points_of(tb).contains(k) {
                lemma_tail_lower_bound(b, 1, k);
                assert(b[0].stop + 1 < b[1].start);
                assert(points_of(b).contains(k));
                assert(points_of(a).contains(k));
            }
        }
        lemma_canonical(ta, tb);
        assert(a.len() == b.len());
        assert forall|i: int| 0 <= i < a.len() implies a[i] == b[i] by {
            if i > 0 {
                assert(ta[i - 1] == a[i]);
                assert(tb[i - 1] == b[i]);
            }
        }
    }
}

/// Each range of a list covers only what the list covers.
pub proof fn lemma_range_within(s: Seq<Interval>, i: int)
    requires
        0 <= i < s.len(),
    ensures
        s[i].points().subset_of(points_of(s)),
{
    assert forall|k: int| s[i].points().contains(k) implies points_of(s).contains(k) by {
        assert(s[i].covers(k));
    }
}

/// Narrowing one range of a normalized list keeps the list normalized; the
/// list then covers what it covered outside that range, and what the
/// narrower range covers.
pub proof fn lemma_points_narrow(s: Seq<Interval>, i: int, x: Interval)
    requires
        normalized(s),
        0 <= i < s.len(),
        x.well_formed(),
        s[i].start <= x.start,
        x.stop <= s[i].stop,
    ensures
        normalized(s.update(i, x)),
        points_of(s.update(i, x)) =~= points_of(s).difference(s[i].points()).union(x.points()),
{
    let t = s.update(i, x);
    assert forall|a: int, b: int| 0 <= a < b < t.len() implies (#[trigger] t[a]).stop + 1 < (
    #[trigger] t[b]).start by {
        assert(s[a].stop + 1 < s[b].start);
    }
    assert forall|a: int| 0 <= a < t.len() implies (#[trigger] t[a]).well_formed() by {
        assert(s[a].well_formed());
    }
    assert forall|k: int| points_of(t).contains(k) <==> ((points_of(s).contains(k)
        && !s[i].points().contains(k)) || x.points().contains(k)) by {
        if covered(t, k) {
            let a = choose|a: int| 0 <= a < t.len() && (#[trigger] t[a]).covers(k);
            if a != i {
                assert(s[a].covers(k));
                if a < i {
                    assert(s[a].stop + 1 < s[i].start);
                } else {
                    assert(s[i].stop + 1 < s[a].start);
                }
            }
        }
        if covered(s, k) && !s[i].covers(k) {
            let a = choose|a: int| 0 <= a < s.len() && (#[trigger] s[a]).covers(k);
            assert(t[a].covers(k));
        }
        if x.covers(k) {
            assert(t[i].covers(k));
        }
    }
}

/// Taking one range out of a normalized list keeps the list normalized; the
/// list then covers what it covered outside that range.
pub proof fn lemma_points_without(s: Seq<Interval>, i: int)
    requires
        normalized(s),
        0 <= i < s.len(),
    ensures
        normalized(s.remove(i)),
        points_of(s.remove(i)) =~= points_of(s).difference(s[i].points()),
{
    let t = s.remove(i);
    assert forall|a: int| 0 <= a < t.len() implies (#[trigger] t[a]).well_formed() by {
        if a < i {
            assert(s[a].well_formed());
        } else {
            assert(s[a + 1].well_formed());
        }
    }
    assert forall|a: int, b: int| 0 <= a < b < t.len() implies (#[trigger] t[a]).stop + 1 < (
    #[trigger] t[b]).start by {
        let a2 = if a < i { a } else { a + 1 };
        let b2 = if b < i { b } else { b + 1 };
        assert(s[a2].stop + 1 < s[b2].start);
    }
    assert forall|k: int| points_of(t).contains(k) <==> (points_of(s).contains(k)
        && !s[i].covers(k)) by {
        if covered(t, k) {
            let a = choose|a: int| 0 <= a < t.len() && (#[trigger] t[a]).covers(k);
            let a2 = if a < i { a } else { a + 1 };
            assert(s[a2].covers(k));
            if a2 < i {
                assert(s[a2].stop + 1 < s[i].start);
            } else {
                assert(s[i].stop + 1 < s[a2].start);
            }
        }
        if covered(s, k) && !s[i].covers(k) {
            let a = choose|a: int| 0 <= a < s.len() && (#[trigger] s[a]).covers(k);
            if a < i {
                assert(t[a].covers(k));
            } else {
                assert(t[a - 1].covers(k));
            }
        }
    }
}

/// Appending a well-formed range that starts at least two above the end of
/// the last one keeps a list normalized.
pub proof fn lemma_push_normalized(s: Seq<Interval>, x: Interval)
    requires
        normalized(s),
        x.well_formed(),
        s.len() > 0 ==> s.last().stop + 1 < x.start,
    ensures
        normalized(s.push(x)),
{
    let t = s.push(x);
    assert forall|a: int, b: int| 0 <= a < b < t.len() implies (#[trigger] t[a]).stop + 1 < (
    #[trigger] t[b]).start by {
        if b < s.len() {
            assert(s[a].stop + 1 < s[b].start);
        } else if a < s.len() - 1 {
            assert(s[a].stop + 1 < s[s.len() - 1].start);
            assert(s[s.len() - 1].well_formed());
        }
    }
}

/// In a normalized list, whatever the ranges after `i` cover lies above the
/// end of range `i`, and more than one above.
pub proof fn lemma_rest_above(s: Seq<Interval>, i: int)
    requires
        normalized(s),
        0 <= i < s.len(),
    ensures
        forall|k: int| #[trigger]
            points_of(s.subrange(i + 1, s.len() as int)).contains(k) ==> s[i].stop + 1 < k,
{
    assert forall|k: int| #[trigger]
        points_of(s.subrange(i + 1, s.len() as int)).contains(k) implies s[i].stop + 1 < k by {
        lemma_tail_lower_bound(s, i + 1, k);
        assert(s[i].stop + 1 < s[i + 1].start);
    }
}

/// The sum of the lengths of the ranges of the list.
pub open spec fn total_length(s: Seq<Interval>) -> nat
    decreases s.len(),
{
    if s.len() == 0 {
        0
    } else {
        total_length(s.drop_last()) + s.last().spec_length()
    }
}

/// A range covers as many integers as its length says.
pub proof fn lemma_range_count(x: Interval)
    ensures
        x.points().finite(),
        x.points().len() == x.spec_length(),
{
    if x.well_formed() {
        vstd::set_lib::lemma_int_range(x.start as int, x.stop + 1);
        assert(x.points() =~= vstd::set_lib::set_int_range(x.start as int, x.stop + 1));
    } else {
        assert(x.points() =~= Set::<int>::empty());
    }
}

/// A normalized list covers finitely many integers, and as many as the
/// lengths of its ranges add up to: no integer is counted twice.
pub proof fn lemma_total_length_counts(s: Seq<Interval>)
    requires
        normalized(s),
    ensures
        points_of(s).finite(),
        points_of(s).len() == total_length(s),
    decreases s.len(),
{
    if s.len() == 0 {
        assert(points_of(s) =~= Set::<int>::empty());
    } else {
        let head = s.drop_last();
        let x = s.last();
        assert(head =~= s.subrange(0, s.len() - 1));
        assert(head.push(x) =~= s);
        lemma_normalized_head(s, s.len() - 1);
        lemma_total_length_counts(head);
        lemma_range_count(x);
        lemma_points_push(head, x);
        assert(points_of(head).disjoint(x.points())) by {
            assert forall|k: int| points_of(head).contains(k) implies !x.points().contains(k) by {
                lemma_head_upper_bound(s, s.len() - 1, k);
            }
        }
        vstd::set_lib::lemma_set_disjoint_lens(points_of(head), x.points());
        vstd::set_lib::lemma_set_union_finite_iff(points_of(head), x.points());
    }
}

/// The lengths of the first `i + 1` ranges add up to those of the first `i`
/// and the length of range `i`; no prefix adds up to more than the whole.
pub proof fn lemma_total_length_prefix(s: Seq<Interval>, i: int)
    requires
        0 <= i < s.len(),
    ensures
        total_length(s.subrange(0, i + 1)) == total_length(s.subrange(0, i)) + s[i].spec_length(),
        total_length(s.subrange(0, i + 1)) <= total_length(s),
    decreases s.len() - i,
{
    assert(s.subrange(0, i + 1).drop_last() =~= s.subrange(0, i));
    if i + 1 == s.len() {
        assert(s.subrange(0, i + 1) =~= s);
    } else {
        lemma_total_length_prefix(s, i + 1);
    }
}

} // verus!
