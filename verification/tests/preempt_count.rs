use klint::preempt_count::{saturating_add, AdjustmentBounds, ExpectationRange};

fn range(lo: u32, hi: Option<u32>) -> ExpectationRange {
    ExpectationRange { lo, hi }
}

#[test]
fn top_is_unbounded() {
    assert_eq!(ExpectationRange::top(), range(0, None));
    assert!(!ExpectationRange::top().is_empty());
}

#[test]
fn single_value_is_one_wide() {
    assert_eq!(ExpectationRange::single_value(0), range(0, Some(1)));
    assert_eq!(ExpectationRange::single_value(7), range(7, Some(8)));
}

#[test]
fn emptiness() {
    assert!(range(0, Some(0)).is_empty());
    assert!(range(3, Some(2)).is_empty());
    assert!(!range(2, Some(3)).is_empty());
    assert!(!range(5, None).is_empty());
}

#[test]
fn meet_takes_larger_low_and_smaller_high() {
    let mut a = range(1, Some(10));
    assert!(a.meet(&range(3, None)));
    assert_eq!(a, range(3, Some(10)));
    assert!(a.meet(&range(0, Some(5))));
    assert_eq!(a, range(3, Some(5)));
    assert!(!a.meet(&range(0, None)));
    assert_eq!(a, range(3, Some(5)));
    let mut b = range(0, None);
    assert!(b.meet(&range(0, Some(4))));
    assert_eq!(b, range(0, Some(4)));
}

#[test]
fn meet_commutes_on_values() {
    let x = range(2, Some(9));
    let y = range(4, None);
    let mut a = x;
    a.meet(&y);
    let mut b = y;
    b.meet(&x);
    assert_eq!(a, b);
    let mut c = x;
    assert!(!c.meet(&x));
}

#[test]
fn contains_range_is_inclusion() {
    assert!(ExpectationRange::top().contains_range(range(3, Some(4))));
    assert!(range(1, Some(10)).contains_range(range(2, Some(9))));
    assert!(!range(1, Some(10)).contains_range(range(0, Some(9))));
    assert!(!range(1, Some(10)).contains_range(range(2, None)));
    assert!(range(1, None).contains_range(range(2, None)));
}

#[test]
fn saturating_add_clamps_both_ends() {
    assert_eq!(saturating_add(5, 3), 8);
    assert_eq!(saturating_add(5, -3), 2);
    assert_eq!(saturating_add(5, -6), 0);
    assert_eq!(saturating_add(u32::MAX - 1, 5), u32::MAX);
    assert_eq!(saturating_add(0, i32::MIN), 0);
    assert_eq!(saturating_add(u32::MAX, i32::MIN), u32::MAX - 0x8000_0000);
}

#[test]
fn shift_by_integer() {
    assert_eq!(range(1, Some(3)) + 2, range(3, Some(5)));
    assert_eq!(range(1, Some(3)) - 2, range(0, Some(1)));
    assert_eq!(range(4, None) - 1, range(3, None));
}

#[test]
fn shift_roundtrip_without_saturation() {
    let r = range(10, Some(20));
    assert_eq!((r + 5) - 5, r);
    assert_eq!((r - 7) + 7, r);
}

#[test]
fn add_adjustment_bounds() {
    let r = range(1, Some(3));
    let b = AdjustmentBounds { lo: Some(-1), hi: Some(2) };
    assert_eq!(r + b, range(0, Some(4)));
    assert_eq!(r + AdjustmentBounds { lo: None, hi: Some(2) }, range(0, Some(4)));
    assert_eq!(r + AdjustmentBounds { lo: Some(1), hi: None }, range(2, None));
}

#[test]
fn sub_adjustment_bounds() {
    let r = range(2, Some(5));
    assert_eq!(r - AdjustmentBounds { lo: Some(1), hi: Some(3) }, range(1, Some(3)));
    assert_eq!(r - AdjustmentBounds { lo: None, hi: None }, range(0, Some(0)));
    assert_eq!(range(2, None) - AdjustmentBounds { lo: Some(-1), hi: Some(3) }, range(3, None));
}

#[test]
fn display_forms() {
    assert_eq!(range(3, None).to_string(), "3..");
    assert_eq!(range(0, Some(0)).to_string(), "unsatisfiable");
    assert_eq!(range(5, Some(6)).to_string(), "5");
    assert_eq!(range(1, Some(10)).to_string(), "1..10");
    assert_eq!(range(4294967294, Some(4294967295)).to_string(), "4294967294");
}
