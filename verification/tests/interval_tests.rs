use rangeset::interval::{numeric_to_symbol, symbol_to_numeric, Interval};

#[test]
fn new_keeps_both_bounds() {
    let i = Interval::new(3, 9);
    assert_eq!(i.start, 3);
    assert_eq!(i.stop, 9);
}

#[test]
fn new_empty_is_the_sentinel() {
    let e = Interval::new_empty();
    assert_eq!(e, Interval { start: -1, stop: -2 });
    assert_eq!(e.length(), 0);
}

#[test]
fn new_usize_reads_codes_as_signed() {
    assert_eq!(Interval::new_usize(2, 7), Interval::new(2, 7));
    assert_eq!(Interval::new_usize(usize::MAX, 0), Interval::new(-1, 0));
}

#[test]
fn symbol_conversions_wrap_round() {
    assert_eq!(symbol_to_numeric(0), 0);
    assert_eq!(symbol_to_numeric(41), 41);
    assert_eq!(symbol_to_numeric(isize::MAX as usize), isize::MAX);
    assert_eq!(symbol_to_numeric(isize::MAX as usize + 1), isize::MIN);
    assert_eq!(symbol_to_numeric(usize::MAX), -1);
    assert_eq!(numeric_to_symbol(0), 0);
    assert_eq!(numeric_to_symbol(41), 41);
    assert_eq!(numeric_to_symbol(-1), usize::MAX);
    assert_eq!(numeric_to_symbol(-2), usize::MAX - 1);
    assert_eq!(numeric_to_symbol(isize::MIN), isize::MAX as usize + 1);
}

#[test]
fn length_counts_both_ends() {
    assert_eq!(Interval::new(1, 5).length(), 5);
    assert_eq!(Interval::new(7, 7).length(), 1);
    assert_eq!(Interval::new(-3, 3).length(), 7);
    assert_eq!(Interval::new(-9, -4).length(), 6);
    assert_eq!(Interval::new(5, 1).length(), 0);
    assert_eq!(Interval::new(0, isize::MAX).length(), isize::MAX as usize + 1);
    assert_eq!(Interval::new(isize::MIN, -1).length(), isize::MAX as usize + 1);
    assert_eq!(Interval::new(isize::MIN, isize::MAX - 1).length(), usize::MAX);
}

#[test]
fn starts_before_disjoint_is_one_sided() {
    let a = Interval::new(1, 3);
    let b = Interval::new(5, 8);
    assert!(a.starts_before_disjoint(&b));
    assert!(!b.starts_before_disjoint(&a));
    assert!(!a.starts_before_disjoint(&Interval::new(3, 4)));
}

#[test]
fn start_relations() {
    let a = Interval::new(1, 5);
    let b = Interval::new(4, 9);
    assert!(a.starts_before_non_disjoint(&b));
    assert!(!b.starts_before_non_disjoint(&a));
    assert!(b.starts_after(&a));
    assert!(!a.starts_after(&b));
    assert!(!a.starts_after(&a));
    assert!(Interval::new(6, 9).starts_after_disjoint(&a));
    assert!(!b.starts_after_disjoint(&a));
    assert!(b.starts_after_nondisjoint(&a));
    assert!(!a.starts_after_nondisjoint(&b));
    assert!(!Interval::new(6, 9).starts_after_nondisjoint(&a));
}

#[test]
fn disjoint_does_not_depend_on_order() {
    let low = Interval::new(1, 3);
    let high = Interval::new(5, 8);
    assert!(low.disjoint(&high));
    assert!(high.disjoint(&low));
    let mid = Interval::new(3, 5);
    assert!(!low.disjoint(&mid));
    assert!(!mid.disjoint(&low));
    assert!(!mid.disjoint(&high));
    assert!(!high.disjoint(&mid));
    assert!(!low.disjoint(&low));
}

#[test]
fn an_empty_range_is_disjoint_from_everything() {
    let e = Interval::new_empty();
    assert!(e.disjoint(&Interval::new(-5, 5)));
    assert!(Interval::new(-5, 5).disjoint(&e));
    assert!(Interval::new(5, 1).disjoint(&Interval::new(5, 5)));
}

#[test]
fn adjacent_on_either_side() {
    let a = Interval::new(1, 5);
    assert!(a.adjacent(&Interval::new(6, 9)));
    assert!(Interval::new(6, 9).adjacent(&a));
    assert!(!a.adjacent(&Interval::new(7, 9)));
    assert!(!a.adjacent(&Interval::new(5, 9)));
    assert!(!a.adjacent(&a));
}

#[test]
fn adjacent_at_the_ends_of_the_domain() {
    let top = Interval::new(isize::MAX, isize::MAX);
    let below = Interval::new(0, isize::MAX - 1);
    assert!(top.adjacent(&below));
    assert!(below.adjacent(&top));
    assert!(!top.adjacent(&top));
    let bottom = Interval::new(isize::MIN, isize::MIN);
    let above = Interval::new(isize::MIN + 1, 0);
    assert!(bottom.adjacent(&above));
    assert!(above.adjacent(&bottom));
    assert!(!bottom.adjacent(&bottom));
    assert!(!bottom.adjacent(&top));
}

#[test]
fn properly_contains_the_inner_range() {
    let outer = Interval::new(1, 10);
    let inner = Interval::new(3, 8);
    assert!(outer.propertly_contains(&inner));
    assert!(!inner.propertly_contains(&outer));
    assert!(outer.propertly_contains(&outer));
    assert!(!outer.propertly_contains(&Interval::new(5, 11)));
    assert!(!outer.propertly_contains(&Interval::new(0, 5)));
}

#[test]
fn union_spans_both() {
    assert_eq!(Interval::new(1, 5).union(&Interval::new(4, 9)), Interval::new(1, 9));
    assert_eq!(Interval::new(4, 9).union(&Interval::new(1, 5)), Interval::new(1, 9));
    assert_eq!(Interval::new(1, 5).union(&Interval::new(6, 6)), Interval::new(1, 6));
    assert_eq!(Interval::new(1, 9).union(&Interval::new(3, 4)), Interval::new(1, 9));
}

#[test]
fn intersection_is_the_common_part() {
    assert_eq!(Interval::new(1, 5).intersection(&Interval::new(4, 9)), Interval::new(4, 5));
    assert_eq!(Interval::new(0, 115).intersection(&Interval::new(115, 200)), Interval::new(115, 115));
    assert_eq!(Interval::new(1, 9).intersection(&Interval::new(3, 4)), Interval::new(3, 4));
}

#[test]
fn intersection_of_disjoint_ranges_is_empty() {
    let r = Interval::new(1, 3).intersection(&Interval::new(5, 8));
    assert_eq!(r, Interval::new(5, 3));
    assert!(r.stop < r.start);
    assert_eq!(r.length(), 0);
}

#[test]
fn apart_before_needs_a_gap() {
    let a = Interval::new(1, 5);
    assert!(a.apart_before(&Interval::new(7, 9)));
    assert!(!a.apart_before(&Interval::new(6, 9)));
    assert!(!a.apart_before(&Interval::new(5, 9)));
    assert!(!Interval::new(7, 9).apart_before(&a));
    assert!(!Interval::new(0, isize::MAX).apart_before(&a));
}

#[test]
fn interval_to_string_is_start_dots_stop() {
    assert_eq!(Interval::new(1, 5).to_string(), "1..5");
    assert_eq!(Interval::new(-12, 340).to_string(), "-12..340");
    assert_eq!(Interval::new_empty().to_string(), "-1..-2");
}
