use cubic_sumcheck::field::FieldElement;

const MODULUS_LIMBS: [u64; 4] = [
    0x43e1f593f0000001,
    0x2833e84879b97091,
    0xb85045b68181585d,
    0x30644e72e131a029,
];

fn fe(x: u64) -> FieldElement {
    FieldElement::from_u64(x)
}

#[test]
fn small_sums_products_and_differences() {
    assert_eq!(fe(3).add(&fe(4)), fe(7));
    assert_eq!(fe(3).mul(&fe(4)), fe(12));
    assert_eq!(fe(9).sub(&fe(4)), fe(5));
    assert_eq!(fe(0).add(&fe(0)), FieldElement::zero());
    assert_eq!(fe(1), FieldElement::one());
}

#[test]
fn sum_differs_from_both_arguments() {
    let a = fe(5);
    let b = fe(6);
    let s = a.add(&b);
    assert_ne!(s, a);
    assert_ne!(s, b);
    let p = a.mul(&b);
    assert_ne!(p, a);
    assert_ne!(p, b);
    let d = a.sub(&b);
    assert_ne!(d, a);
    assert_ne!(d, b);
    let q = fe(30).div(&b);
    assert_ne!(q, fe(30));
    assert_ne!(q, b);
    assert_eq!(q, a);
}

#[test]
fn difference_below_zero_wraps_to_the_top() {
    let d = fe(3).sub(&fe(4));
    let mut top = MODULUS_LIMBS;
    top[0] -= 1;
    assert_eq!(d.to_limbs(), top);
    assert_eq!(d.add(&fe(1)), FieldElement::zero());
}

#[test]
fn product_is_reduced() {
    let big = fe(u64::MAX);
    let sq = big.mul(&big);
    // (2^64 - 1)^2 = 2^128 - 2^65 + 1, below the modulus
    assert_eq!(sq.to_limbs(), [1, 0xffff_ffff_ffff_fffe, 0, 0]);
    let fourth = sq.mul(&sq);
    // (2^64 - 1)^4 is above the modulus: the limbs have to be canonical
    assert!(FieldElement::from_limbs(fourth.to_limbs()).is_some());
    assert_eq!(fourth.div(&sq), sq);
}

#[test]
fn quotient_times_divisor_is_the_dividend() {
    let a = fe(1234567);
    let b = fe(89);
    let q = a.div(&b);
    assert_eq!(q.mul(&b), a);
    assert_eq!(fe(6).div(&fe(3)), fe(2));
    assert_eq!(fe(1).div(&fe(2)).mul(&fe(2)), fe(1));
}

#[test]
fn limbs_round_trip_and_bound() {
    assert_eq!(FieldElement::from_limbs([7, 0, 0, 0]), Some(fe(7)));
    assert_eq!(fe(7).to_limbs(), [7, 0, 0, 0]);
    assert_eq!(FieldElement::from_limbs(MODULUS_LIMBS), None);
    let mut below = MODULUS_LIMBS;
    below[0] -= 1;
    let top = FieldElement::from_limbs(below).unwrap();
    assert_eq!(top.to_limbs(), below);
    let mut above = MODULUS_LIMBS;
    above[0] += 1;
    assert_eq!(FieldElement::from_limbs(above), None);
    assert_eq!(FieldElement::from_limbs([0, 0, 0, u64::MAX]), None);
    assert_eq!(FieldElement::from_limbs([u64::MAX, u64::MAX, u64::MAX, 0]).map(|e| e.to_limbs()),
        Some([u64::MAX, u64::MAX, u64::MAX, 0]));
}

#[test]
fn equality_is_equality_of_values() {
    assert!(fe(5).is_equal(&fe(2).add(&fe(3))));
    assert!(!fe(5).is_equal(&fe(6)));
}
