use rangeset::interval::Interval;
use rangeset::interval_set::IntervalSet;

fn ranges(set: &IntervalSet) -> Vec<(isize, isize)> {
    set.intervals.iter().map(|i| (i.start, i.stop)).collect()
}

fn neighbours_apart(set: &IntervalSet) -> bool {
    set.intervals.iter().all(|i| i.start <= i.stop)
        && set.intervals.windows(2).all(|w| w[0].stop + 1 < w[1].start)
}

#[test]
fn new_set_is_empty() {
    let s = IntervalSet::new();
    assert!(s.is_empty());
    assert!(!s.readonly);
    assert_eq!(s.size(), 0);
    assert_eq!(ranges(&s), vec![]);
    let t = IntervalSet::with_capacity(16);
    assert!(t.is_empty());
    assert!(!t.readonly);
}

#[test]
fn of_and_of_point() {
    assert_eq!(ranges(&IntervalSet::of(3, 8)), vec![(3, 8)]);
    assert_eq!(ranges(&IntervalSet::of_point(4)), vec![(4, 4)]);
    assert_eq!(ranges(&IntervalSet::of(8, 3)), vec![]);
}

#[test]
fn add_merges_adjacent_ranges_then_remove_splits() {
    let mut s = IntervalSet::new();
    s.add_range(1, 5);
    s.add_range(7, 10);
    assert_eq!(ranges(&s), vec![(1, 5), (7, 10)]);
    s.add_range(6, 6);
    assert_eq!(ranges(&s), vec![(1, 10)]);
    assert_eq!(s.size(), 10);
    let merged = s.clone();
    s.remove(6);
    assert_eq!(ranges(&s), vec![(1, 5), (7, 10)]);
    assert_eq!(s.size(), 9);
    let d = merged.substract(&IntervalSet::of(3, 8));
    assert_eq!(ranges(&d), vec![(1, 2), (9, 10)]);
}

#[test]
fn add_keeps_the_list_sorted() {
    let mut s = IntervalSet::new();
    s.add_range(20, 30);
    s.add_range(1, 2);
    s.add_range(10, 12);
    s.add_range(40, 41);
    assert_eq!(ranges(&s), vec![(1, 2), (10, 12), (20, 30), (40, 41)]);
    assert!(neighbours_apart(&s));
}

#[test]
fn add_absorbs_every_range_it_reaches() {
    let mut s = IntervalSet::new();
    s.add_range(1, 2);
    s.add_range(5, 6);
    s.add_range(9, 10);
    s.add_range(20, 30);
    s.add_range(3, 12);
    assert_eq!(ranges(&s), vec![(1, 12), (20, 30)]);
    s.add_range(0, 100);
    assert_eq!(ranges(&s), vec![(0, 100)]);
}

#[test]
fn add_overlapping_on_either_side() {
    let mut s = IntervalSet::of(10, 20);
    s.add_range(5, 12);
    assert_eq!(ranges(&s), vec![(5, 20)]);
    s.add_range(18, 25);
    assert_eq!(ranges(&s), vec![(5, 25)]);
    s.add_range(8, 9);
    assert_eq!(ranges(&s), vec![(5, 25)]);
    s.add_range(27, 28);
    assert_eq!(ranges(&s), vec![(5, 25), (27, 28)]);
    s.add_range(3, 3);
    assert_eq!(ranges(&s), vec![(3, 3), (5, 25), (27, 28)]);
}

#[test]
fn add_of_an_empty_range_changes_nothing() {
    let mut s = IntervalSet::of(1, 5);
    s.add(&Interval::new(9, 7));
    assert_eq!(ranges(&s), vec![(1, 5)]);
    s.add(&Interval::new_empty());
    assert_eq!(ranges(&s), vec![(1, 5)]);
    let mut e = IntervalSet::new();
    e.add(&Interval::new_empty());
    assert!(e.is_empty());
}

#[test]
fn add_twice_is_add_once() {
    let mut once = IntervalSet::of(1, 5);
    once.add_range(7, 9);
    once.add_range(4, 7);
    let mut twice = once.clone();
    twice.add_range(4, 7);
    assert_eq!(twice, once);
    assert_eq!(ranges(&twice), vec![(1, 9)]);
    let mut again = IntervalSet::of(20, 30);
    again.add_range(1, 2);
    let kept = again.clone();
    again.add_range(1, 2);
    assert_eq!(again, kept);
}

#[test]
fn add_then_remove_a_point_on_the_empty_set() {
    let mut s = IntervalSet::new();
    s.add_range(42, 42);
    assert_eq!(ranges(&s), vec![(42, 42)]);
    s.remove(42);
    assert!(s.is_empty());
    assert_eq!(ranges(&s), vec![]);
}

#[test]
fn add_then_remove_an_absent_point_gives_the_set_back() {
    let mut s = IntervalSet::of(1, 5);
    s.add_range(9, 12);
    let before = s.clone();
    s.add_range(7, 7);
    assert_eq!(ranges(&s), vec![(1, 5), (7, 7), (9, 12)]);
    s.remove(7);
    assert_eq!(s, before);
    s.add_range(6, 6);
    assert_eq!(ranges(&s), vec![(1, 6), (9, 12)]);
    s.remove(6);
    assert_eq!(s, before);
}

#[test]
fn remove_on_the_edges_shrinks_the_range() {
    let mut s = IntervalSet::of(3, 8);
    s.remove(3);
    assert_eq!(ranges(&s), vec![(4, 8)]);
    s.remove(8);
    assert_eq!(ranges(&s), vec![(4, 7)]);
    s.remove(5);
    assert_eq!(ranges(&s), vec![(4, 4), (6, 7)]);
    s.remove(4);
    assert_eq!(ranges(&s), vec![(6, 7)]);
    s.remove(7);
    assert_eq!(ranges(&s), vec![(6, 6)]);
    s.remove(6);
    assert_eq!(ranges(&s), vec![]);
}

#[test]
fn remove_of_an_absent_value_changes_nothing() {
    let mut s = IntervalSet::of(3, 8);
    s.add_range(12, 15);
    s.remove(1);
    s.remove(10);
    s.remove(20);
    assert_eq!(ranges(&s), vec![(3, 8), (12, 15)]);
    let mut e = IntervalSet::new();
    e.remove(5);
    assert!(e.is_empty());
}

#[test]
fn remove_in_a_later_range_splits_it_in_place() {
    let mut s = IntervalSet::of(1, 2);
    s.add_range(10, 20);
    s.add_range(30, 40);
    s.remove(15);
    assert_eq!(ranges(&s), vec![(1, 2), (10, 14), (16, 20), (30, 40)]);
    assert!(neighbours_apart(&s));
}

#[test]
fn neighbours_stay_apart_after_adds_and_removes() {
    let mut s = IntervalSet::new();
    let adds = [(5, 9), (1, 3), (11, 11), (4, 4), (20, 25), (10, 10), (30, 31), (26, 29)];
    for (a, b) in adds {
        s.add_range(a, b);
        assert!(neighbours_apart(&s));
    }
    assert_eq!(ranges(&s), vec![(1, 11), (20, 31)]);
    for v in [1, 11, 6, 25, 26, 40, 20, 31] {
        s.remove(v);
        assert!(neighbours_apart(&s));
    }
    assert_eq!(ranges(&s), vec![(2, 5), (7, 10), (21, 24), (27, 30)]);
}

#[test]
fn ranges_at_the_ends_of_the_domain() {
    let mut s = IntervalSet::new();
    s.add_range(isize::MAX, isize::MAX);
    s.add_range(isize::MIN, isize::MIN);
    assert_eq!(ranges(&s), vec![(isize::MIN, isize::MIN), (isize::MAX, isize::MAX)]);
    s.add_range(isize::MAX - 1, isize::MAX - 1);
    s.add_range(isize::MIN + 1, isize::MIN + 1);
    assert_eq!(ranges(&s), vec![(isize::MIN, isize::MIN + 1), (isize::MAX - 1, isize::MAX)]);
    assert!(s.contains(isize::MAX));
    assert!(s.contains(isize::MIN));
    assert!(!s.contains(0));
    s.remove(isize::MAX);
    s.remove(isize::MIN);
    assert_eq!(ranges(&s), vec![(isize::MIN + 1, isize::MIN + 1), (isize::MAX - 1, isize::MAX - 1)]);
    s.add_range(isize::MIN, isize::MAX);
    assert_eq!(ranges(&s), vec![(isize::MIN, isize::MAX)]);
    s.remove(isize::MAX);
    assert_eq!(ranges(&s), vec![(isize::MIN, isize::MAX - 1)]);
    assert_eq!(s.size(), usize::MAX);
}

#[test]
fn clear_empties_the_set() {
    let mut s = IntervalSet::of(1, 5);
    s.add_range(9, 12);
    s.clear();
    assert!(s.is_empty());
    assert_eq!(s.size(), 0);
}

#[test]
fn from_intervals_normalizes_the_list() {
    let list = vec![
        Interval::new(7, 10),
        Interval::new(1, 5),
        Interval::new(9, 7),
        Interval::new(6, 6),
        Interval::new(20, 22),
        Interval::new(21, 30),
    ];
    let s = IntervalSet::from_intervals(list);
    assert_eq!(ranges(&s), vec![(1, 10), (20, 30)]);
    assert!(!s.readonly);
}

#[test]
fn from_intervals_keeps_a_normalized_list() {
    let list = vec![Interval::new(1, 5), Interval::new(7, 10), Interval::new(12, 12)];
    let s = IntervalSet::from_intervals(list.clone());
    assert_eq!(s.intervals, list);
}

#[test]
fn clone_holds_the_same_ranges_and_is_open_to_change() {
    let mut s = IntervalSet::of(1, 5);
    s.add_range(9, 12);
    s.readonly = true;
    let mut c = s.clone();
    assert_eq!(c.intervals, s.intervals);
    assert!(!c.readonly);
    c.add_range(6, 8);
    assert_eq!(ranges(&c), vec![(1, 12)]);
    assert_eq!(ranges(&s), vec![(1, 5), (9, 12)]);
}

#[test]
fn a_frozen_set_answers_questions() {
    let mut s = IntervalSet::of(1, 5);
    s.add_range(9, 12);
    s.readonly = true;
    assert!(s.contains(3));
    assert!(!s.contains(7));
    assert_eq!(s.size(), 9);
    assert_eq!(s.get_min_element(), Some(1));
    assert_eq!(s.get_max_element(), Some(12));
    assert_eq!(s.to_string(), "{1..5, 9..12}");
}

#[test]
fn contains_finds_covered_values() {
    let mut s = IntervalSet::of(3, 8);
    s.add_range(12, 15);
    s.add_range(20, 20);
    for v in [3, 5, 8, 12, 13, 15, 20] {
        assert!(s.contains(v), "{}", v);
    }
    for v in [-1, 0, 2, 9, 10, 11, 16, 19, 21, 100] {
        assert!(!s.contains(v), "{}", v);
    }
    assert!(!IntervalSet::new().contains(0));
}

#[test]
fn contains_usize_reads_the_code_as_signed() {
    let mut s = IntervalSet::of(3, 8);
    s.add_range(-1, -1);
    assert!(s.contains_usize(3));
    assert!(s.contains_usize(8));
    assert!(!s.contains_usize(9));
    assert!(s.contains_usize(usize::MAX));
    assert!(!s.contains_usize(usize::MAX - 1));
}

#[test]
fn size_counts_the_covered_values() {
    let mut s = IntervalSet::of(3, 8);
    s.add_range(12, 15);
    s.add_range(20, 20);
    s.add_range(-4, -2);
    let mut count = 0usize;
    for v in -50..50 {
        if s.contains(v) {
            count += 1;
        }
    }
    assert_eq!(count, 14);
    assert_eq!(s.size(), 14);
}

#[test]
fn single_element_only_of_a_one_point_set() {
    assert_eq!(IntervalSet::of_point(7).get_single_element(), Some(7));
    assert_eq!(IntervalSet::of_point(-1).get_single_element(), Some(-1));
    assert_eq!(IntervalSet::of(7, 8).get_single_element(), None);
    assert_eq!(IntervalSet::new().get_single_element(), None);
    let mut two = IntervalSet::of_point(1);
    two.add_range(3, 3);
    assert_eq!(two.get_single_element(), None);
}

#[test]
fn min_and_max_elements() {
    let mut s = IntervalSet::of(3, 8);
    s.add_range(12, 15);
    s.add_range(-4, -2);
    assert_eq!(s.get_min_element(), Some(-4));
    assert_eq!(s.get_max_element(), Some(15));
    assert_eq!(IntervalSet::new().get_min_element(), None);
    assert_eq!(IntervalSet::new().get_max_element(), None);
    assert_eq!(IntervalSet::of_point(9).get_min_element(), Some(9));
    assert_eq!(IntervalSet::of_point(9).get_max_element(), Some(9));
}
