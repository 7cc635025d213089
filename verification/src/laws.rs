//! What holds of the set operations taken together. Each statement speaks
//! of sets in the terms of the operations' own contracts: `wf()` for a
//! normalized list of ranges, and the view `@` for the integers held.

use crate::algebra::{lemma_union_of_push, union_of};
use crate::interval::Interval;
use crate::interval_set::IntervalSet;
use crate::ranges::{
    lemma_canonical, lemma_neighbours_normalized, lemma_no_points_no_ranges,
    lemma_normalized_neighbours, lemma_total_length_counts, neighbours_apart,
};
use vstd::prelude::*;

verus! {

/// Every set that the operations hand back is sorted, and any two
/// neighbours `(A, B)` in its list have `A.stop + 1 < B.start`: they neither
/// overlap nor are adjacent. `add` and `remove` keep `wf()`, so this holds
/// after any sequence of them.
pub proof fn law_neighbours_apart(s: IntervalSet, i: int)
    requires
        s.wf(),
        0 <= i < s.intervals@.len() - 1,
    ensures
        s.intervals@[i].well_formed(),
        s.intervals@[i + 1].well_formed(),
        s.intervals@[i].stop + 1 < s.intervals@[i + 1].start,
{
    lemma_normalized_neighbours(s.intervals@);
}

/// Conversely, a list whose ranges are well formed and whose neighbours are
/// apart in this way is the list of a valid set.
pub proof fn law_apart_neighbours_suffice(s: IntervalSet)
    requires
        neighbours_apart(s.intervals@),
    ensures
        s.wf(),
{
    lemma_neighbours_normalized(s.intervals@);
}

/// Two sets that hold the same integers have the same list of ranges.
pub proof fn law_one_normal_form(a: IntervalSet, b: IntervalSet)
    requires
        a.wf(),
        b.wf(),
        a@ =~= b@,
    ensures
        a.intervals@ =~= b.intervals@,
{
    lemma_canonical(a.intervals@, b.intervals@);
}

/// Adding the same range twice gives the same set as adding it once:
/// `once` is `start` after `add(x)`, `twice` is `once` after `add(x)`.
pub proof fn law_add_idempotent(start: IntervalSet, once: IntervalSet, twice: IntervalSet, x: Interval)
    requires
        once.wf(),
        twice.wf(),
        once@ =~= start@.union(x.points()),
        twice@ =~= once@.union(x.points()),
    ensures
        twice@ =~= once@,
        twice.intervals@ =~= once.intervals@,
{
    lemma_canonical(twice.intervals@, once.intervals@);
}

/// Adding a point that a set does not hold and removing it again gives the
/// set back: `added` is `start` after `add_range(x, x)`, `removed` is
/// `added` after `remove(x)`.
pub proof fn law_add_remove_point(
    start: IntervalSet,
    added: IntervalSet,
    removed: IntervalSet,
    x: isize,
)
    requires
        start.wf(),
        removed.wf(),
        !start@.contains(x as int),
        added@ =~= start@.union((Interval { start: x, stop: x }).points()),
        removed@ =~= added@.remove(x as int),
    ensures
        removed@ =~= start@,
        removed.intervals@ =~= start.intervals@,
{
    lemma_canonical(removed.intervals@, start.intervals@);
}

/// On the empty set, `add_range(x, x)` and then `remove(x)` leave the empty
/// set.
pub proof fn law_add_remove_point_on_empty(
    start: IntervalSet,
    added: IntervalSet,
    removed: IntervalSet,
    x: isize,
)
    requires
        start.intervals@.len() == 0,
        removed.wf(),
        added@ =~= start@.union((Interval { start: x, stop: x }).points()),
        removed@ =~= added@.remove(x as int),
    ensures
        removed@ =~= Set::<int>::empty(),
        removed.intervals@.len() == 0,
{
    assert(start@ =~= Set::<int>::empty());
    lemma_no_points_no_ranges(removed.intervals@);
}

/// The union of two lists of ranges does not depend on their order:
/// `ab` is `or([a, b])`, `ba` is `or([b, a])`. The lists `a` and `b` need
/// not be normalized.
pub proof fn law_union_commutes(a: IntervalSet, b: IntervalSet, ab: IntervalSet, ba: IntervalSet)
    requires
        ab.wf(),
        ba.wf(),
        ab@ =~= union_of(seq![a, b]),
        ba@ =~= union_of(seq![b, a]),
    ensures
        ab@ =~= a@.union(b@),
        ab@ =~= ba@,
        ab.intervals@ =~= ba.intervals@,
{
    lemma_union_of_pair(a, b);
    lemma_union_of_pair(b, a);
    lemma_canonical(ab.intervals@, ba.intervals@);
}

/// The union does not depend on how the sets are grouped: with `ab` for
/// `or([a, b])` and `bc` for `or([b, c])`, the sets `or([ab, c])`,
/// `or([a, bc])` and `or([a, b, c])` hold the same integers.
pub proof fn law_union_associates(
    a: IntervalSet,
    b: IntervalSet,
    c: IntervalSet,
    ab: IntervalSet,
    bc: IntervalSet,
)
    requires
        ab@ =~= union_of(seq![a, b]),
        bc@ =~= union_of(seq![b, c]),
    ensures
        union_of(seq![ab, c]) =~= union_of(seq![a, bc]),
        union_of(seq![ab, c]) =~= union_of(seq![a, b, c]),
        union_of(seq![a, b, c]) =~= a@.union(b@).union(c@),
{
    lemma_union_of_pair(a, b);
    lemma_union_of_pair(b, c);
    lemma_union_of_pair(ab, c);
    lemma_union_of_pair(a, bc);
    lemma_union_of_push(seq![a, b], c);
    assert(seq![a, b].push(c) =~= seq![a, b, c]);
}

/// The union of a list of two sets is the union of the two.
pub proof fn lemma_union_of_pair(a: IntervalSet, b: IntervalSet)
    ensures
        union_of(seq![a, b]) =~= a@.union(b@),
{
    lemma_union_of_push(Seq::<IntervalSet>::empty(), a);
    lemma_union_of_push(seq![a], b);
    assert(Seq::<IntervalSet>::empty().push(a) =~= seq![a]);
    assert(seq![a].push(b) =~= seq![a, b]);
}

/// Taking a universe away from a set inside it leaves nothing: `rest` is
/// `s.substract(u)`.
pub proof fn law_subtract_universe(s: IntervalSet, u: IntervalSet, rest: IntervalSet)
    requires
        s@.subset_of(u@),
        rest.wf(),
        rest@ =~= s@.difference(u@),
    ensures
        rest@ =~= Set::<int>::empty(),
        rest.intervals@.len() == 0,
{
    assert(rest@ =~= Set::<int>::empty());
    lemma_no_points_no_ranges(rest.intervals@);
}

/// A set inside a universe, joined with its complement, is the universe:
/// `outside` is `u.substract(s)`, which is `s.complement(u)`, and `whole`
/// is `or([outside, s])`.
pub proof fn law_complement_restores(
    s: IntervalSet,
    u: IntervalSet,
    outside: IntervalSet,
    whole: IntervalSet,
)
    requires
        u.wf(),
        whole.wf(),
        s@.subset_of(u@),
        outside@ =~= u@.difference(s@),
        whole@ =~= union_of(seq![outside, s]),
    ensures
        whole@ =~= u@,
        whole.intervals@ =~= u.intervals@,
{
    lemma_union_of_pair(outside, s);
    assert(whole@ =~= u@);
    lemma_canonical(whole.intervals@, u.intervals@);
}

/// The size of a set is the number of distinct integers that it holds.
pub proof fn law_size_counts(s: IntervalSet)
    requires
        s.wf(),
    ensures
        s@.finite(),
        s.spec_size() == s@.len(),
{
    lemma_total_length_counts(s.intervals@);
}

} // verus!
