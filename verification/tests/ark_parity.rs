use ark_bn254::Fr;
use ark_ff::{BigInt, Field, PrimeField};
use cubic_sumcheck::field::FieldElement;
use cubic_sumcheck::poly::plain::rand_vec;

fn to_ark(e: &FieldElement) -> Fr {
    Fr::from_bigint(BigInt::new(e.to_limbs())).unwrap()
}

fn from_ark(x: Fr) -> FieldElement {
    FieldElement::from_limbs(x.into_bigint().0).unwrap()
}

#[test]
fn small_integers_are_the_same_elements() {
    for x in [0u64, 1, 2, 13, 29, 1 << 32, u64::MAX] {
        let e = FieldElement::from_u64(x);
        assert_eq!(e.to_limbs(), Fr::from(x).into_bigint().0);
        assert_eq!(from_ark(Fr::from(x)), e);
    }
    assert_eq!(to_ark(&FieldElement::zero()), Fr::from(0u64));
    assert_eq!(to_ark(&FieldElement::one()), Fr::from(1u64));
}

#[test]
fn modulus_is_the_order_of_the_field() {
    let modulus = Fr::MODULUS.0;
    assert_eq!(FieldElement::from_limbs(modulus), None);
    let mut below = modulus;
    below[0] -= 1;
    let top = FieldElement::from_limbs(below).unwrap();
    assert_eq!(to_ark(&top), Fr::from(0u64) - Fr::from(1u64));
}

#[test]
fn arithmetic_is_the_arithmetic_of_the_field() {
    let xs = rand_vec(64);
    let ys = rand_vec(128);
    for i in 0..64 {
        let (a, b) = (xs[i], ys[64 + i]);
        let (x, y) = (to_ark(&a), to_ark(&b));
        assert_eq!(a.add(&b), from_ark(x + y));
        assert_eq!(a.sub(&b), from_ark(x - y));
        assert_eq!(a.mul(&b), from_ark(x * y));
        if y != Fr::from(0u64) {
            assert_eq!(a.div(&b), from_ark(x / y));
            assert_eq!(a.div(&b), a.mul(&from_ark(y.inverse().unwrap())));
        }
    }
}
