use rangeset::interval::Interval;
use rangeset::interval_set::IntervalSet;

fn set_of(list: &[(isize, isize)]) -> IntervalSet {
    let mut s = IntervalSet::new();
    for &(a, b) in list {
        s.add_range(a, b);
    }
    s
}

fn pairs(set: &IntervalSet) -> Vec<(isize, isize)> {
    set.intervals.iter().map(|i| (i.start, i.stop)).collect()
}

fn members(set: &IntervalSet, lo: isize, hi: isize) -> Vec<isize> {
    (lo..=hi).filter(|v| set.contains(*v)).collect()
}

#[test]
fn add_all_adds_every_range() {
    let mut s = set_of(&[(1, 5), (20, 25)]);
    let other = set_of(&[(4, 8), (10, 12), (26, 30)]);
    let r = s.add_all(&other);
    assert_eq!(pairs(r), vec![(1, 8), (10, 12), (20, 30)]);
    assert_eq!(pairs(&s), vec![(1, 8), (10, 12), (20, 30)]);
    assert_eq!(pairs(&other), vec![(4, 8), (10, 12), (26, 30)]);
}

#[test]
fn add_all_takes_a_list_in_any_order() {
    let raw = IntervalSet {
        intervals: vec![Interval::new(9, 9), Interval::new(1, 3), Interval::new(5, 2), Interval::new(2, 8)],
        readonly: true,
    };
    let mut s = IntervalSet::new();
    s.add_all(&raw);
    assert_eq!(pairs(&s), vec![(1, 9)]);
}

#[test]
fn or_of_no_set_is_empty() {
    assert!(IntervalSet::or(&[]).is_empty());
}

#[test]
fn or_joins_all_sets() {
    let a = set_of(&[(1, 3), (10, 12)]);
    let b = set_of(&[(4, 5), (20, 22)]);
    let c = set_of(&[(11, 19)]);
    let u = IntervalSet::or(&[a, b, c]);
    assert_eq!(pairs(&u), vec![(1, 5), (10, 22)]);
    assert!(!u.readonly);
}

#[test]
fn union_does_not_depend_on_order() {
    let a = set_of(&[(1, 3), (10, 12), (30, 40)]);
    let b = set_of(&[(4, 5), (11, 29), (50, 50)]);
    let ab = IntervalSet::or(&[a.clone(), b.clone()]);
    let ba = IntervalSet::or(&[b, a]);
    assert_eq!(ab, ba);
    assert_eq!(pairs(&ab), vec![(1, 5), (10, 40), (50, 50)]);
}

#[test]
fn union_does_not_depend_on_grouping() {
    let a = set_of(&[(1, 3), (10, 12)]);
    let b = set_of(&[(4, 5), (20, 22)]);
    let c = set_of(&[(13, 19), (100, 101)]);
    let ab = IntervalSet::or(&[a.clone(), b.clone()]);
    let bc = IntervalSet::or(&[b.clone(), c.clone()]);
    let left = IntervalSet::or(&[ab, c.clone()]);
    let right = IntervalSet::or(&[a.clone(), bc]);
    let flat = IntervalSet::or(&[a, b, c]);
    assert_eq!(left, right);
    assert_eq!(left, flat);
    assert_eq!(pairs(&flat), vec![(1, 5), (10, 22), (100, 101)]);
}

#[test]
fn intersection_of_ranges_that_share_one_point() {
    let r = IntervalSet::of(0, 115).and(&IntervalSet::of(115, 200));
    assert_eq!(pairs(&r), vec![(115, 115)]);
    assert_eq!(r.get_single_element(), Some(115));
}

#[test]
fn intersection_sweeps_both_lists() {
    let a = set_of(&[(1, 10), (20, 30), (40, 50), (60, 60)]);
    let b = set_of(&[(5, 25), (28, 45), (60, 70), (80, 90)]);
    assert_eq!(pairs(&a.and(&b)), vec![(5, 10), (20, 25), (28, 30), (40, 45), (60, 60)]);
    assert_eq!(pairs(&b.and(&a)), vec![(5, 10), (20, 25), (28, 30), (40, 45), (60, 60)]);
}

#[test]
fn intersection_with_inner_ranges() {
    let outer = set_of(&[(0, 100)]);
    let inner = set_of(&[(3, 5), (7, 9), (50, 60), (100, 100)]);
    assert_eq!(pairs(&outer.and(&inner)), vec![(3, 5), (7, 9), (50, 60), (100, 100)]);
    assert_eq!(pairs(&inner.and(&outer)), vec![(3, 5), (7, 9), (50, 60), (100, 100)]);
}

#[test]
fn intersection_with_nothing_in_common() {
    let a = set_of(&[(1, 3), (10, 12)]);
    let b = set_of(&[(4, 9), (13, 20)]);
    assert!(a.and(&b).is_empty());
    assert!(a.and(&IntervalSet::new()).is_empty());
    assert!(IntervalSet::new().and(&a).is_empty());
}

#[test]
fn intersection_agrees_with_membership() {
    let a = set_of(&[(1, 10), (14, 14), (20, 30), (33, 40)]);
    let b = set_of(&[(0, 2), (9, 21), (25, 26), (30, 35), (39, 45)]);
    let r = a.and(&b);
    for v in -5..50 {
        assert_eq!(r.contains(v), a.contains(v) && b.contains(v), "{}", v);
    }
}

#[test]
fn subtract_cuts_the_middle_out() {
    let d = IntervalSet::of(1, 10).substract(&IntervalSet::of(3, 8));
    assert_eq!(pairs(&d), vec![(1, 2), (9, 10)]);
    let e = IntervalSet::substract_op(&IntervalSet::of(1, 10), &IntervalSet::of(3, 8));
    assert_eq!(e, d);
}

#[test]
fn subtract_with_an_empty_side() {
    let a = set_of(&[(1, 3), (10, 12)]);
    assert!(IntervalSet::new().substract(&a).is_empty());
    assert_eq!(a.substract(&IntervalSet::new()), a);
}

#[test]
fn subtract_sweeps_both_lists() {
    let a = set_of(&[(1, 10), (20, 30), (40, 50), (60, 70), (80, 90)]);
    let b = set_of(&[(-5, 0), (3, 4), (6, 6), (9, 22), (28, 41), (45, 46), (50, 60), (70, 79), (100, 110)]);
    assert_eq!(
        pairs(&a.substract(&b)),
        vec![(1, 2), (5, 5), (7, 8), (23, 27), (42, 44), (47, 49), (61, 69), (80, 90)]
    );
}

#[test]
fn subtract_keeps_what_lies_past_the_last_cut() {
    let a = set_of(&[(1, 10), (20, 30), (40, 50)]);
    let b = set_of(&[(5, 6)]);
    assert_eq!(pairs(&a.substract(&b)), vec![(1, 4), (7, 10), (20, 30), (40, 50)]);
    let c = set_of(&[(0, 100)]);
    assert!(a.substract(&c).is_empty());
}

#[test]
fn subtract_agrees_with_membership() {
    let a = set_of(&[(1, 10), (14, 14), (20, 30), (33, 40)]);
    let b = set_of(&[(0, 2), (9, 21), (25, 26), (30, 35), (39, 45)]);
    let r = a.substract(&b);
    for v in -5..50 {
        assert_eq!(r.contains(v), a.contains(v) && !b.contains(v), "{}", v);
    }
    assert_eq!(members(&r, -5, 50), vec![3, 4, 5, 6, 7, 8, 22, 23, 24, 27, 28, 29, 36, 37, 38]);
}

#[test]
fn subtract_at_the_ends_of_the_domain() {
    let all = IntervalSet::of(isize::MIN, isize::MAX);
    let ends = set_of(&[(isize::MIN, isize::MIN), (isize::MAX, isize::MAX)]);
    assert_eq!(pairs(&all.substract(&ends)), vec![(isize::MIN + 1, isize::MAX - 1)]);
    assert_eq!(pairs(&ends.substract(&IntervalSet::of(isize::MIN + 1, isize::MAX))), vec![(isize::MIN, isize::MIN)]);
}

#[test]
fn complement_of_a_point_in_a_range() {
    let c = IntervalSet::of_point(5).complement(&IntervalSet::of(0, 10));
    assert_eq!(pairs(&c), vec![(0, 4), (6, 10)]);
}

#[test]
fn complement_ignores_what_lies_outside_the_vocabulary() {
    let s = set_of(&[(-3, 1), (5, 5), (9, 20)]);
    let c = s.complement(&IntervalSet::of(0, 10));
    assert_eq!(pairs(&c), vec![(2, 4), (6, 8)]);
}

#[test]
fn subtracting_the_universe_leaves_nothing() {
    let universe = set_of(&[(0, 50), (60, 100)]);
    let s = set_of(&[(3, 8), (20, 20), (45, 50), (60, 61), (100, 100)]);
    assert!(s.substract(&universe).is_empty());
    assert!(universe.substract(&universe).is_empty());
}

#[test]
fn a_set_and_its_complement_make_the_universe() {
    let universe = set_of(&[(0, 50), (60, 100)]);
    let s = set_of(&[(3, 8), (20, 20), (45, 50), (60, 61), (100, 100)]);
    let outside = universe.substract(&s);
    assert_eq!(pairs(&outside), vec![(0, 2), (9, 19), (21, 44), (62, 99)]);
    assert_eq!(outside, s.complement(&universe));
    let whole = IntervalSet::or(&[outside, s]);
    assert_eq!(whole, universe);
}
