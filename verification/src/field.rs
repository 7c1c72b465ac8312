//! Elements of the BN254 scalar field, held as four canonical 64-bit limbs.
//!
//! The arithmetic itself is done by `ark-ff`; this module states what each
//! operation returns over the integers modulo [`modulus`].

use ark_bn254::Fr;
use ark_ff::{BigInt, PrimeField};
use vstd::arithmetic::div_mod::{
    lemma_add_mod_noop, lemma_mul_mod_noop_general, lemma_small_mod, lemma_sub_mod_noop,
};
use vstd::prelude::*;

verus! {

/// The order of the BN254 scalar field.
pub open spec fn modulus() -> int {
    21888242871839275222246405745257275088548364400416034343698204186575808495617int
}

/// Addition in the field, on integers.
pub open spec fn field_add(a: int, b: int) -> int {
    (a + b) % modulus()
}

/// Subtraction in the field, on integers.
pub open spec fn field_sub(a: int, b: int) -> int {
    (a - b) % modulus()
}

/// Multiplication in the field, on integers.
pub open spec fn field_mul(a: int, b: int) -> int {
    (a * b) % modulus()
}

/// `y` is the multiplicative inverse of `x` in the field.
pub open spec fn is_inverse(x: int, y: int) -> bool {
    0 <= y < modulus() && field_mul(x, y) == 1
}

/// The multiplicative inverse of `x`, where it has one.
pub open spec fn field_inv(x: int) -> int {
    choose|y: int| is_inverse(x, y)
}

/// Division in the field, on integers: `a` times the inverse of `b`.
pub open spec fn field_div(a: int, b: int) -> int {
    field_mul(a, field_inv(b))
}

/// `q` is `a` times some inverse of `b`.
pub open spec fn is_quotient(q: int, a: int, b: int) -> bool {
    exists|y: int| is_inverse(b, y) && q == field_mul(a, y)
}

/// The integer that four little-endian 64-bit limbs stand for.
pub open spec fn limbs_value(l0: u64, l1: u64, l2: u64, l3: u64) -> int {
    l0 as int + l1 as int * 0x1_0000_0000_0000_0000int
        + l2 as int * 0x1_0000_0000_0000_0000_0000_0000_0000_0000int
        + l3 as int * 0x1_0000_0000_0000_0000_0000_0000_0000_0000_0000_0000_0000_0000int
}

/// Two integers stand for the same field element.
pub open spec fn congruent(a: int, b: int) -> bool {
    a % modulus() == b % modulus()
}

/// Reducing an integer does not change the element it stands for.
pub proof fn lemma_congruent_mod(a: int)
    ensures
        congruent(a % modulus(), a),
        0 <= a % modulus() < modulus(),
{
    lemma_add_mod_noop(a, 0, modulus());
}

/// Congruent canonical representatives are equal.
pub proof fn lemma_congruent_canonical(a: int, b: int)
    requires
        congruent(a, b),
        0 <= a < modulus(),
        0 <= b < modulus(),
    ensures
        a == b,
{
    lemma_small_mod(a as nat, modulus() as nat);
    lemma_small_mod(b as nat, modulus() as nat);
}

/// Sums of congruent integers are congruent.
pub proof fn lemma_congruent_add(a: int, b: int, c: int, d: int)
    requires
        congruent(a, b),
        congruent(c, d),
    ensures
        congruent(a + c, b + d),
{
    lemma_add_mod_noop(a, c, modulus());
    lemma_add_mod_noop(b, d, modulus());
}

/// Differences of congruent integers are congruent.
pub proof fn lemma_congruent_sub(a: int, b: int, c: int, d: int)
    requires
        congruent(a, b),
        congruent(c, d),
    ensures
        congruent(a - c, b - d),
{
    lemma_sub_mod_noop(a, c, modulus());
    lemma_sub_mod_noop(b, d, modulus());
}

/// Products of congruent integers are congruent.
pub proof fn lemma_congruent_mul(a: int, b: int, c: int, d: int)
    requires
        congruent(a, b),
        congruent(c, d),
    ensures
        congruent(a * c, b * d),
{
    lemma_mul_mod_noop_general(a, c, modulus());
    lemma_mul_mod_noop_general(b, d, modulus());
}

/// A product of three factors stands for the product of what they stand for.
pub proof fn lemma_congruent_mul3(x: int, xi: int, y: int, yi: int, z: int, zi: int)
    requires
        congruent(x, xi),
        congruent(y, yi),
        congruent(z, zi),
    ensures
        (x * y * z) % modulus() == (xi * yi * zi) % modulus(),
{
    lemma_congruent_mul(x, xi, y, yi);
    lemma_congruent_mul(x * y, xi * yi, z, zi);
}

/// The field sum of representatives stands for the sum of what they stand for.
pub proof fn lemma_field_add_congruent(x: int, xi: int, y: int, yi: int)
    requires
        congruent(x, xi),
        congruent(y, yi),
    ensures
        congruent(field_add(x, y), xi + yi),
        0 <= field_add(x, y) < modulus(),
{
    lemma_congruent_mod(x + y);
    lemma_congruent_add(x, xi, y, yi);
}

/// The field sum is associative.
pub proof fn lemma_field_add_associative(a: int, b: int, c: int)
    ensures
        field_add(field_add(a, b), c) == field_add(a, field_add(b, c)),
{
    lemma_field_add_congruent(a, a, b, b);
    lemma_field_add_congruent(field_add(a, b), a + b, c, c);
    lemma_field_add_congruent(b, b, c, c);
    lemma_field_add_congruent(a, a, field_add(b, c), b + c);
    lemma_congruent_canonical(field_add(field_add(a, b), c), field_add(a, field_add(b, c)));
}

/// The field difference of representatives stands for the difference of what
/// they stand for.
pub proof fn lemma_field_sub_congruent(x: int, xi: int, y: int, yi: int)
    requires
        congruent(x, xi),
        congruent(y, yi),
    ensures
        congruent(field_sub(x, y), xi - yi),
        0 <= field_sub(x, y) < modulus(),
{
    lemma_congruent_mod(x - y);
    lemma_congruent_sub(x, xi, y, yi);
}

/// The field product of representatives stands for the product of what they
/// stand for.
pub proof fn lemma_field_mul_congruent(x: int, xi: int, y: int, yi: int)
    requires
        congruent(x, xi),
        congruent(y, yi),
    ensures
        congruent(field_mul(x, y), xi * yi),
        0 <= field_mul(x, y) < modulus(),
{
    lemma_congruent_mod(x * y);
    lemma_congruent_mul(x, xi, y, yi);
}

/// Division gives the same element for congruent dividends and congruent
/// divisors, where the divisor has an inverse.
pub proof fn lemma_field_div_congruent(a: int, ai: int, b: int, bi: int)
    requires
        congruent(a, ai),
        congruent(b, bi),
        is_inverse(b, field_inv(b)),
    ensures
        is_inverse(bi, field_inv(bi)),
        field_inv(bi) == field_inv(b),
        field_div(a, b) == field_div(ai, bi),
{
    let y = field_inv(b);
    lemma_congruent_mul(b, bi, y, y);
    assert(is_inverse(bi, y));
    lemma_inverse_unique(bi, y, field_inv(bi));
    lemma_congruent_mul(a, ai, y, y);
}

/// An element of the field has at most one inverse.
pub proof fn lemma_inverse_unique(x: int, y1: int, y2: int)
    requires
        is_inverse(x, y1),
        is_inverse(x, y2),
    ensures
        y1 == y2,
{
    // y1 = y1 * (x * y2) = (x * y1) * y2 = y2, modulo the field order
    lemma_congruent_mod(x * y2);
    lemma_congruent_mul(y1, y1, (x * y2) % modulus(), x * y2);
    lemma_congruent_mod(x * y1);
    lemma_congruent_mul((x * y1) % modulus(), x * y1, y2, y2);
    assert(y1 * (x * y2) == (x * y1) * y2) by (nonlinear_arith);
    lemma_congruent_canonical(y1, y2);
}

/// A number written as a low digit and the rest has only one such writing.
proof fn lemma_digit_split(x0: int, xh: int, y0: int, yh: int, base: int)
    requires
        0 <= x0 < base,
        0 <= y0 < base,
        x0 + base * xh == y0 + base * yh,
    ensures
        x0 == y0,
        xh == yh,
{
    assert(base * xh - base * yh == base * (xh - yh)) by (nonlinear_arith);
    assert(xh == yh) by (nonlinear_arith)
        requires
            -base < base * (xh - yh) < base,
            base > 0,
    ;
}

/// An element of the BN254 scalar field.
///
/// The limbs are little-endian and hold the canonical representative, so two
/// elements are equal exactly when their limbs are. That the limbs are
/// canonical is an invariant of the type: the constructors prove it, and
/// the functions that take an element over from `ark-ff` state it.
#[derive(Clone, Copy, Debug, PartialEq, Eq, Structural, Hash)]
pub struct FieldElement {
    pub(crate) l0: u64,
    pub(crate) l1: u64,
    pub(crate) l2: u64,
    pub(crate) l3: u64,
}

impl View for FieldElement {
    type V = int;

    closed spec fn view(&self) -> int {
        limbs_value(self.l0, self.l1, self.l2, self.l3)
    }
}

impl FieldElement {
    /// The element is the canonical representative: below the modulus.
    /// Every element that the program holds is.
    #[verifier::type_invariant]
    pub open spec fn wf(&self) -> bool {
        0 <= self@ < modulus()
    }

    /// Elements with the same value are the same element.
    pub proof fn lemma_view_injective(a: FieldElement, b: FieldElement)
        ensures
            (a@ == b@) <==> (a == b),
    {
        if a@ == b@ {
            let base = 0x1_0000_0000_0000_0000int;
            let a2 = a.l2 as int + base * (a.l3 as int);
            let b2 = b.l2 as int + base * (b.l3 as int);
            let a1 = a.l1 as int + base * a2;
            let b1 = b.l1 as int + base * b2;
            assert(a@ == a.l0 as int + base * a1) by (nonlinear_arith)
                requires
                    a@ == limbs_value(a.l0, a.l1, a.l2, a.l3),
                    base == 0x1_0000_0000_0000_0000int,
                    a2 == a.l2 as int + base * (a.l3 as int),
                    a1 == a.l1 as int + base * a2,
            ;
            assert(b@ == b.l0 as int + base * b1) by (nonlinear_arith)
                requires
                    b@ == limbs_value(b.l0, b.l1, b.l2, b.l3),
                    base == 0x1_0000_0000_0000_0000int,
                    b2 == b.l2 as int + base * (b.l3 as int),
                    b1 == b.l1 as int + base * b2,
            ;
            lemma_digit_split(a.l0 as int, a1, b.l0 as int, b1, base);
            lemma_digit_split(a.l1 as int, a2, b.l1 as int, b2, base);
            lemma_digit_split(a.l2 as int, a.l3 as int, b.l2 as int, b.l3 as int, base);
        }
    }

    /// The zero of the field.
    pub fn zero() -> (r: FieldElement)
        ensures
            r@ == 0,
    {
        FieldElement { l0: 0, l1: 0, l2: 0, l3: 0 }
    }

    /// The one of the field.
    pub fn one() -> (r: FieldElement)
        ensures
            r@ == 1,
    {
        FieldElement { l0: 1, l1: 0, l2: 0, l3: 0 }
    }

    /// The element that stands for a small integer.
    pub fn from_u64(x: u64) -> (r: FieldElement)
        ensures
            r@ == x,
    {
        FieldElement { l0: x, l1: 0, l2: 0, l3: 0 }
    }

    /// The element with the given little-endian limbs, if they are canonical.
    pub fn from_limbs(limbs: [u64; 4]) -> (r: Option<FieldElement>)
        ensures
            r.is_some() <==> limbs_value(limbs[0], limbs[1], limbs[2], limbs[3]) < modulus(),
            r matches Some(e) ==> e@ == limbs_value(
                limbs[0],
                limbs[1],
                limbs[2],
                limbs[3],
            ),
    {
        let l0: u64 = limbs[0];
        let l1: u64 = limbs[1];
        let l2: u64 = limbs[2];
        let l3: u64 = limbs[3];
        let below: bool = l3 < 0x30644e72e131a029u64 || (l3 == 0x30644e72e131a029u64 && (l2
            < 0xb85045b68181585du64 || (l2 == 0xb85045b68181585du64 && (l1 < 0x2833e84879b97091u64
            || (l1 == 0x2833e84879b97091u64 && l0 < 0x43e1f593f0000001u64)))));
        if below {
            Some(FieldElement { l0, l1, l2, l3 })
        } else {
            None
        }
    }

    /// The little-endian limbs of the canonical representative.
    pub fn to_limbs(&self) -> (r: [u64; 4])
        ensures
            limbs_value(r[0], r[1], r[2], r[3]) == self@,
    {
        [self.l0, self.l1, self.l2, self.l3]
    }

    /// Equality of two elements, as equality of their values.
    pub fn is_equal(&self, other: &FieldElement) -> (r: bool)
        ensures
            r == (self@ == other@),
    {
        proof {
            Self::lemma_view_injective(*self, *other);
        }
        *self == *other
    }

    /// Sum of two elements.
    pub fn add(&self, other: &FieldElement) -> (r: FieldElement)
        ensures
            r@ == field_add(self@, other@),
    {
        proof {
            use_type_invariant(self);
            use_type_invariant(other);
        }
        fr_add(self, other)
    }

    /// Difference of two elements.
    pub fn sub(&self, other: &FieldElement) -> (r: FieldElement)
        ensures
            r@ == field_sub(self@, other@),
    {
        proof {
            use_type_invariant(self);
            use_type_invariant(other);
        }
        fr_sub(self, other)
    }

    /// Product of two elements.
    pub fn mul(&self, other: &FieldElement) -> (r: FieldElement)
        ensures
            r@ == field_mul(self@, other@),
    {
        proof {
            use_type_invariant(self);
            use_type_invariant(other);
        }
        fr_mul(self, other)
    }

    /// Quotient of two elements; the divisor is not zero.
    pub fn div(&self, other: &FieldElement) -> (r: FieldElement)
        requires
            other@ != 0,
        ensures
            is_inverse(other@, field_inv(other@)),
            r@ == field_div(self@, other@),
    {
        proof {
            use_type_invariant(self);
            use_type_invariant(other);
        }
        let r = fr_div(self, other);
        proof {
            let y = choose|y: int| is_inverse(other@, y) && r@ == field_mul(self@, y);
            lemma_inverse_unique(other@, y, field_inv(other@));
        }
        r
    }
}

/// `Fr`'s `+`, from `ark-ff`. The limbs go in through `from_bigint`, which
/// takes an integer below the field order, and come out through
/// `into_bigint`, which gives the canonical representative: that of the sum
/// modulo the field order.
#[verifier::external_body]
fn fr_add(a: &FieldElement, b: &FieldElement) -> (r: FieldElement)
    requires
        a.wf(),
        b.wf(),
    ensures
        r.wf(),
        r@ == field_add(a@, b@),
{
    let x = Fr::from_bigint(BigInt::new([a.l0, a.l1, a.l2, a.l3])).unwrap();
    let y = Fr::from_bigint(BigInt::new([b.l0, b.l1, b.l2, b.l3])).unwrap();
    let z = (x + y).into_bigint().0;
    FieldElement { l0: z[0], l1: z[1], l2: z[2], l3: z[3] }
}

/// `Fr`'s `-`, from `ark-ff`, with `from_bigint` and `into_bigint` as for
/// the sum: the result is the canonical representative of the difference
/// modulo the field order.
#[verifier::external_body]
fn fr_sub(a: &FieldElement, b: &FieldElement) -> (r: FieldElement)
    requires
        a.wf(),
        b.wf(),
    ensures
        r.wf(),
        r@ == field_sub(a@, b@),
{
    let x = Fr::from_bigint(BigInt::new([a.l0, a.l1, a.l2, a.l3])).unwrap();
    let y = Fr::from_bigint(BigInt::new([b.l0, b.l1, b.l2, b.l3])).unwrap();
    let z = (x - y).into_bigint().0;
    FieldElement { l0: z[0], l1: z[1], l2: z[2], l3: z[3] }
}

/// `Fr`'s `*`, from `ark-ff`, with `from_bigint` and `into_bigint` as for
/// the sum: the result is the canonical representative of the product
/// modulo the field order.
#[verifier::external_body]
fn fr_mul(a: &FieldElement, b: &FieldElement) -> (r: FieldElement)
    requires
        a.wf(),
        b.wf(),
    ensures
        r.wf(),
        r@ == field_mul(a@, b@),
{
    let x = Fr::from_bigint(BigInt::new([a.l0, a.l1, a.l2, a.l3])).unwrap();
    let y = Fr::from_bigint(BigInt::new([b.l0, b.l1, b.l2, b.l3])).unwrap();
    let z = (x * y).into_bigint().0;
    FieldElement { l0: z[0], l1: z[1], l2: z[2], l3: z[3] }
}

/// `Fr`'s `/`, from `ark-ff`, with `from_bigint` and `into_bigint` as for
/// the sum. It multiplies by the inverse of the divisor and panics on a zero
/// divisor, which `requires` leaves out. The result is the canonical
/// representative of the dividend times an inverse of the divisor.
#[verifier::external_body]
fn fr_div(a: &FieldElement, b: &FieldElement) -> (r: FieldElement)
    requires
        a.wf(),
        b.wf(),
        b@ != 0,
    ensures
        r.wf(),
        is_quotient(r@, a@, b@),
{
    let x = Fr::from_bigint(BigInt::new([a.l0, a.l1, a.l2, a.l3])).unwrap();
    let y = Fr::from_bigint(BigInt::new([b.l0, b.l1, b.l2, b.l3])).unwrap();
    let z = (x / y).into_bigint().0;
    FieldElement { l0: z[0], l1: z[1], l2: z[2], l3: z[3] }
}

} // verus!
