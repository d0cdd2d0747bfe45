use nalgebra::DMatrix;
use rs_pinocchio::placo::problem::{Interval, Sparsity};

fn nonzero_columns(m: &DMatrix<f64>) -> Vec<bool> {
    (0..m.ncols())
        .map(|c| !m.column(c).iter().all(|v| v.abs() <= 1e-12))
        .collect()
}

#[test]
fn detects_a_single_block() {
    let m = DMatrix::from_row_slice(2, 5, &[0.0, 1.0, 2.0, 0.0, 0.0, 0.0, 3.0, 4.0, 0.0, 0.0]);
    let s = Sparsity::detect_columns_from_flags(&nonzero_columns(&m));
    assert_eq!(s.intervals, vec![Interval::new(1, 2)]);
}

#[test]
fn detects_two_blocks() {
    let m = DMatrix::from_row_slice(1, 6, &[1.0, 0.0, 0.0, 2.0, 3.0, 0.0]);
    let s = Sparsity::detect_columns_from_flags(&nonzero_columns(&m));
    assert_eq!(s.intervals, vec![Interval::new(0, 0), Interval::new(3, 4)]);
}

#[test]
fn merges_added_intervals() {
    let mut s = Sparsity::new();
    s.add_interval(0, 2);
    s.add_interval(5, 6);
    s.add_interval(2, 5);
    assert_eq!(s.intervals, vec![Interval::new(0, 6)]);
}

#[test]
fn flags_run_to_the_last_column() {
    let s = Sparsity::detect_columns_from_flags(&vec![false, true, true, false, true]);
    assert_eq!(s.intervals, vec![Interval::new(1, 2), Interval::new(4, 4)]);
    assert!(Sparsity::detect_columns_from_flags(&vec![false, false]).intervals.is_empty());
    assert_eq!(
        Sparsity::detect_columns_from_flags(&vec![true, true, true]).intervals,
        vec![Interval::new(0, 2)]
    );
}

#[test]
fn interval_contains_its_bounds() {
    let i = Interval::new(3, 5);
    assert!(i.contains(3) && i.contains(4) && i.contains(5));
    assert!(!i.contains(2) && !i.contains(6));
}

#[test]
fn add_interval_keeps_order_and_swallows_covered() {
    let mut s = Sparsity::new();
    s.add_interval(10, 12);
    s.add_interval(0, 1);
    s.add_interval(5, 6);
    assert_eq!(
        s.intervals,
        vec![Interval::new(0, 1), Interval::new(5, 6), Interval::new(10, 12)]
    );
    // Contained in an existing interval: unchanged.
    s.add_interval(11, 12);
    assert_eq!(s.intervals.len(), 3);
    // Covers two intervals and extends both ways.
    s.add_interval(4, 11);
    assert_eq!(s.intervals, vec![Interval::new(0, 1), Interval::new(4, 12)]);
}

#[test]
fn adding_twice_changes_nothing() {
    let mut s = Sparsity::new();
    s.add_interval(0, 2);
    s.add_interval(6, 8);
    s.add_interval(1, 7);
    let once = s.intervals.clone();
    s.add_interval(1, 7);
    assert_eq!(s.intervals, once);
}

#[test]
fn adjacent_intervals_merge() {
    let mut s = Sparsity::new();
    s.add_interval(0, 2);
    s.add_interval(3, 4);
    assert_eq!(s.intervals, vec![Interval::new(0, 4)]);
    s.add_interval(6, 7);
    assert_eq!(s.intervals, vec![Interval::new(0, 4), Interval::new(6, 7)]);
    s.add_interval(5, 5);
    assert_eq!(s.intervals, vec![Interval::new(0, 7)]);
}

#[test]
fn sum_is_the_union() {
    let mut a = Sparsity::new();
    a.add_interval(0, 1);
    a.add_interval(5, 6);
    let mut b = Sparsity::new();
    b.add_interval(2, 5);
    b.add_interval(9, 9);
    let c = &a + &b;
    assert_eq!(c.intervals, vec![Interval::new(0, 6), Interval::new(9, 9)]);
    let d = &b + &a;
    assert_eq!(d.intervals, c.intervals);
}

#[test]
fn sum_with_empty_is_the_pattern() {
    let mut a = Sparsity::new();
    a.add_interval(0, 2);
    a.add_interval(3, 4);
    a.add_interval(7, 8);
    let empty = Sparsity::new();
    assert_eq!((&a + &empty).intervals, a.intervals);
    assert_eq!((&empty + &a).intervals, a.intervals);
}
