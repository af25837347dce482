//! The prime field: wrapping arithmetic, Fermat inverses, total comparison.

use zokrates_core::field::{FieldElement, FIELD_PRIME};

fn f(n: u64) -> FieldElement {
    FieldElement::from_u64(n)
}

#[test]
fn wrapping_addition() {
    assert_eq!(f(2).add(&f(3)), f(5));
    assert_eq!(f(FIELD_PRIME - 1).add(&f(1)), f(0));
}

#[test]
fn wrapping_subtraction() {
    assert_eq!(f(3).sub(&f(2)), f(1));
    assert_eq!(f(2).sub(&f(3)).value(), FIELD_PRIME - 1);
}

#[test]
fn multiplication_and_exponentiation() {
    assert_eq!(f(3).mul(&f(2)), f(6));
    assert_eq!(f(2).pow(&f(10)), f(1024));
    assert_eq!(f(7).pow(&f(0)), f(1));
}

#[test]
fn division_by_inverse() {
    assert_eq!(f(6).div(&f(2)), f(3));
    assert_eq!(f(2).mul(&f(2).inverse()), f(1));
    // Division by zero multiplies by the Fermat inverse of zero, which is
    // zero: the operation is total.
    assert_eq!(f(5).div(&f(0)), f(0));
}

#[test]
fn total_order_on_representatives() {
    assert!(f(2).lt(&f(4)));
    assert!(!f(4).lt(&f(2)));
    assert!(f(2).le(&f(2)));
    assert!(f(0).lt(&f(FIELD_PRIME - 1)));
    assert!(f(3).eq_value(&f(3)));
    assert!(!f(3).eq_value(&f(4)));
}

#[test]
fn canonical_reduction() {
    assert_eq!(f(FIELD_PRIME), f(0));
    assert_eq!(f(FIELD_PRIME + 5), f(5));
}
