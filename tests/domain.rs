use std::sync::Arc;

use csp_shape::domain::{Cardinality, Domain};

fn values(v: &[i32]) -> Domain {
    Domain::set_from(v.to_vec())
}

fn assert_values(d: &Domain, expected: &[i32]) {
    match d {
        Domain::Values(a) => assert_eq!(a.as_slice(), expected),
        other => panic!("expected a value list, got {:?}", other),
    }
}

#[test]
fn range_meets_range_in_overlap() {
    let r = Domain::Range { min: 1, max: 10 }.refine(&Domain::Range { min: 5, max: 20 });
    assert!(matches!(r, Domain::Range { min: 5, max: 10 }));
}

#[test]
fn touching_ranges_collapse_to_single() {
    let r = Domain::Range { min: 1, max: 5 }.refine(&Domain::Range { min: 5, max: 9 });
    assert!(matches!(r, Domain::Single(5)));
}

#[test]
fn disjoint_ranges_meet_in_bottom() {
    let r = Domain::Range { min: 1, max: 4 }.refine(&Domain::Range { min: 5, max: 9 });
    assert!(r.is_bottom());
}

#[test]
fn single_against_range() {
    let inside = Domain::Single(3).refine(&Domain::Range { min: 1, max: 4 });
    assert!(matches!(inside, Domain::Single(3)));
    let outside = Domain::Range { min: 1, max: 4 }.refine(&Domain::Single(7));
    assert!(outside.is_bottom());
}

#[test]
fn single_against_single() {
    assert!(matches!(Domain::Single(2).refine(&Domain::Single(2)), Domain::Single(2)));
    assert!(Domain::Single(2).refine(&Domain::Single(3)).is_bottom());
}

#[test]
fn values_filtered_by_range() {
    let r = values(&[1, 3, 5, 7]).refine(&Domain::Range { min: 2, max: 6 });
    assert_values(&r, &[3, 5]);
    let r2 = Domain::Range { min: 2, max: 6 }.refine(&values(&[1, 3, 5, 7]));
    assert_values(&r2, &[3, 5]);
}

#[test]
fn values_intersection_to_single_and_bottom() {
    let r = values(&[1, 2, 3]).refine(&values(&[3, 4, 5]));
    assert!(matches!(r, Domain::Single(3)));
    let e = values(&[1, 2]).refine(&values(&[4, 5]));
    assert!(e.is_bottom());
    let m = values(&[1, 2, 3, 9]).refine(&values(&[9, 3, 4]));
    assert_values(&m, &[3, 9]);
}

#[test]
fn top_is_identity_and_bottom_absorbs() {
    let d = Domain::Range { min: -3, max: 8 };
    assert!(matches!(d.refine(&Domain::Top), Domain::Range { min: -3, max: 8 }));
    assert!(matches!(Domain::Top.refine(&d), Domain::Range { min: -3, max: 8 }));
    assert!(d.refine(&Domain::Bottom).is_bottom());
    assert!(Domain::Bottom.refine(&Domain::Top).is_bottom());
    assert!(Domain::Top.refine(&Domain::Top).is_top());
}

#[test]
fn refine_commutes_and_associates_on_examples() {
    let x = values(&[1, 2, 3, 4, 6]);
    let y = Domain::Range { min: 2, max: 9 };
    let z = values(&[2, 4, 6, 8]);
    assert!(x.refine(&y).same(&y.refine(&x)));
    let left = x.refine(&y.refine(&z));
    let right = x.refine(&y).refine(&z);
    assert!(left.same(&right));
    assert_values(&left, &[2, 4, 6]);
}

#[test]
fn refine_never_widens() {
    let x = Domain::Range { min: 0, max: 9 };
    let y = values(&[5, 50, 500]);
    let m = x.refine(&y);
    assert!(m.cardinality() <= x.cardinality());
    assert!(matches!(m, Domain::Single(5)));
}

#[test]
fn set_from_sorts_and_canonicalises() {
    assert_values(&values(&[5, 1, 5, 3]), &[1, 3, 5]);
    assert!(matches!(values(&[4, 4]), Domain::Single(4)));
    assert!(values(&[]).is_bottom());
}

#[test]
fn cardinality_counts() {
    assert_eq!(Domain::Range { min: 1, max: 10 }.cardinality(), Cardinality::Finite(10));
    assert_eq!(Domain::Range { min: 5, max: 3 }.cardinality(), Cardinality::Finite(0));
    assert_eq!(
        Domain::Range { min: i32::MIN, max: i32::MAX }.cardinality(),
        Cardinality::Finite(1u64 << 32)
    );
    assert_eq!(values(&[1, 7, 9]).cardinality(), Cardinality::Finite(3));
    assert_eq!(Domain::Single(7).cardinality(), Cardinality::Finite(1));
    assert_eq!(Domain::Top.cardinality(), Cardinality::Infinite);
    assert_eq!(Domain::Bottom.cardinality(), Cardinality::Finite(0));
    assert_eq!(Domain::Top.cardinality().finite(), None);
    assert_eq!(Domain::Single(1).cardinality().finite(), Some(1));
}

#[test]
fn membership() {
    assert!(Domain::Range { min: 1, max: 3 }.contains(3));
    assert!(!Domain::Range { min: 1, max: 3 }.contains(4));
    assert!(values(&[2, 8]).contains(8));
    assert!(!values(&[2, 8]).contains(5));
    assert!(Domain::Top.contains(-100));
    assert!(!Domain::Bottom.contains(0));
    assert!(Domain::Single(6).contains(6));
}

#[test]
fn predicates() {
    assert!(Domain::Single(1).is_single());
    assert!(!Domain::Range { min: 1, max: 2 }.is_single());
    assert!(Domain::Top.is_top());
    assert!(Domain::Bottom.is_bottom());
    assert_eq!(Domain::Single(9).single_value(), Some(9));
    assert_eq!(Domain::Top.single_value(), None);
}

#[test]
fn range_constructor_is_canonical() {
    assert!(matches!(Domain::range(3, 3), Domain::Single(3)));
    assert!(Domain::range(4, 3).is_bottom());
    assert!(matches!(Domain::range(1, 3), Domain::Range { min: 1, max: 3 }));
}

#[test]
fn render_truncates_long_lists() {
    assert_eq!(values(&[1, 2, 3, 4, 5, 6, 7]).render(), "{1, 2, 3, 4, 5, ... (7 total)}");
    assert_eq!(values(&[-2, 4]).render(), "{-2, 4}");
    assert_eq!(Domain::Range { min: -1, max: 12 }.render(), "[-1..=12]");
    assert_eq!(Domain::Single(-40).render(), "-40");
    assert_eq!(Domain::Top.render(), "\u{1d1b}");
    assert_eq!(Domain::Bottom.render(), "\u{2205}");
}

#[test]
fn clone_keeps_shared_values() {
    let d = values(&[1, 2, 3]);
    let c = d.clone();
    match (&d, &c) {
        (Domain::Values(a), Domain::Values(b)) => assert!(Arc::ptr_eq(a, b)),
        _ => panic!("expected value lists"),
    }
}
