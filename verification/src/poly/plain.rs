//! A multilinear polynomial as the table of its values on the boolean
//! hypercube, with the two ways to bind one variable.

use crate::field::{
    lemma_congruent_add, lemma_congruent_canonical, lemma_congruent_mod, lemma_congruent_mul,
    modulus, FieldElement,
};
use crate::sumcheck::SumcheckError;
use ark_bn254::Fr;
use ark_ff::{PrimeField, UniformRand};
use ark_std::test_rng;
use rayon::iter::{
    IndexedParallelIterator, IntoParallelRefIterator, IntoParallelRefMutIterator,
    ParallelIterator,
};
use vstd::prelude::*;

verus! {

/// `n` is a power of two.
pub open spec fn is_pow2(n: int) -> bool
    decreases n,
{
    if n <= 0 {
        false
    } else if n == 1 {
        true
    } else {
        n % 2 == 0 && is_pow2(n / 2)
    }
}

/// The number of times `n` can be halved before it reaches one.
pub open spec fn log2(n: int) -> nat
    decreases n,
{
    if n <= 1 {
        0
    } else {
        1 + log2(n / 2)
    }
}

/// The values of a sequence of elements.
pub open spec fn values(s: Seq<FieldElement>) -> Seq<int> {
    Seq::new(s.len(), |i: int| s[i]@)
}

/// The line through `(0, lo)` and `(1, hi)`, at `x`.
pub open spec fn line_at(lo: int, hi: int, x: int) -> int {
    lo + x * (hi - lo)
}

/// The table after its most significant variable is bound to `r`: the two
/// halves of the table are the low and the high ends of each line.
pub open spec fn bind_top_spec(v: Seq<int>, r: int) -> Seq<int> {
    Seq::new(
        (v.len() / 2) as nat,
        |i: int| line_at(v[i], v[i + v.len() / 2], r) % modulus(),
    )
}

/// The table after its least significant variable is bound to `r`: each pair
/// of neighbours is the low and the high end of a line.
pub open spec fn bind_bot_spec(v: Seq<int>, r: int) -> Seq<int> {
    Seq::new((v.len() / 2) as nat, |i: int| line_at(v[2 * i], v[2 * i + 1], r) % modulus())
}

/// Half of a power of two above one is a power of two.
pub proof fn lemma_pow2_half(n: int)
    requires
        is_pow2(n),
        n > 1,
    ensures
        is_pow2(n / 2),
        n == 2 * (n / 2),
        log2(n) == 1 + log2(n / 2),
{
}

/// A `u64` is a power of two exactly when it is not zero and shares no bit
/// with its predecessor.
proof fn lemma_pow2_bits(n: u64)
    requires
        n > 0,
    ensures
        (n & ((n - 1) as u64)) == 0 <==> is_pow2(n as int),
    decreases n,
{
    if n == 1 {
        assert((1u64 & 0u64) == 0) by (bit_vector);
    } else {
        let h: u64 = n / 2;
        lemma_pow2_bits(h);
        assert(n > 1 ==> (((n & ((n - 1) as u64)) == 0) <==> (n % 2 == 0 && ((n / 2) & ((n / 2
            - 1) as u64)) == 0))) by (bit_vector);
    }
}

/// Checks if `num` is a power of 2.
pub fn is_power_of_two(num: usize) -> (r: bool)
    ensures
        r == is_pow2(num as int),
{
    let n: u64 = num as u64;
    if n == 0 {
        false
    } else {
        proof {
            lemma_pow2_bits(n);
        }
        (n & (n - 1)) == 0
    }
}

/// The value at `r` of the line from `lo` to `hi`: `lo + r * (hi - lo)`.
pub fn bind_pair(lo: &FieldElement, hi: &FieldElement, r: &FieldElement) -> (out: FieldElement)
    ensures
        out@ == line_at(lo@, hi@, r@) % modulus(),
{
    let m = hi.sub(lo);
    let rm = r.mul(&m);
    let out = lo.add(&rm);
    proof {
        lemma_congruent_mod(hi@ - lo@);
        lemma_congruent_mul(r@, r@, m@, hi@ - lo@);
        lemma_congruent_mod(r@ * m@);
        lemma_congruent_add(lo@, lo@, rm@, r@ * (hi@ - lo@));
        lemma_congruent_mod(lo@ + rm@);
        lemma_congruent_mod(line_at(lo@, hi@, r@));
        lemma_congruent_canonical(out@, line_at(lo@, hi@, r@) % modulus());
    }
    out
}

/// Moves the low end of a line to the line's value at `r`.
pub fn bind_pair_in_place(lo: &mut FieldElement, hi: &FieldElement, r: &FieldElement)
    ensures
        final(lo)@ == line_at(old(lo)@, hi@, r@) % modulus(),
{
    let out = bind_pair(lo, hi, r);
    *lo = out;
}

/// rayon's `par_iter_mut`, `zip` and `for_each` on two slices of one
/// length: each element of `left` is paired with the element of `right` at
/// the same place and moved to the value at `r` of the line through the
/// two.
#[verifier::external_body]
fn par_bind_pairs(left: &mut [FieldElement], right: &[FieldElement], r: &FieldElement)
    requires
        old(left)@.len() == right@.len(),
    ensures
        final(left)@.len() == old(left)@.len(),
        forall|i: int|
            0 <= i < right@.len() ==> (#[trigger] final(left)@[i])@ == line_at(
                old(left)@[i]@,
                right@[i]@,
                r@,
            ) % modulus(),
{
    left.par_iter_mut().zip(right.par_iter()).for_each(|(lo, hi)| bind_pair_in_place(lo, hi, r));
}

/// ark-std's `test_rng` and ark-ff's `rand`, called `n` times on one
/// generator: `n` field elements, each the canonical representative. Which
/// elements they are is up to the generator.
#[verifier::external_body]
fn sample_elements(n: usize) -> (out: Vec<FieldElement>)
    ensures
        out@.len() == n,
        forall|i: int| 0 <= i < n ==> (#[trigger] out@[i]).wf(),
{
    let mut rng = test_rng();
    let mut out: Vec<FieldElement> = Vec::with_capacity(n);
    for _ in 0..n {
        let z = Fr::rand(&mut rng).into_bigint().0;
        out.push(FieldElement { l0: z[0], l1: z[1], l2: z[2], l3: z[3] });
    }
    out
}

/// A table of `n` field elements from the test generator; `n` is a power of
/// two.
pub fn rand_vec(n: usize) -> (result: Vec<FieldElement>)
    requires
        is_pow2(n as int),
    ensures
        result@.len() == n,
        forall|i: int| 0 <= i < n ==> (#[trigger] result@[i]).wf(),
{
    sample_elements(n)
}

/// One field element from the test generator.
pub fn rand_fr() -> (result: FieldElement)
    ensures
        result.wf(),
{
    let v = sample_elements(1);
    v[0]
}

/// A dense multilinear polynomial: its values at the points of the boolean
/// hypercube, the bits of an index being the point.
#[derive(Clone, Debug, PartialEq, Eq)]
#[allow(non_snake_case)]
pub struct DensePolynomial {
    pub Z: Vec<FieldElement>,
}

impl View for DensePolynomial {
    type V = Seq<int>;

    open spec fn view(&self) -> Seq<int> {
        values(self.Z@)
    }
}

impl DensePolynomial {
    /// The table has a power-of-two length.
    pub open spec fn wf(&self) -> bool {
        is_pow2(self.Z@.len() as int)
    }

    /// Makes a polynomial of a table of values, whose length has to be a
    /// power of two.
    pub fn new(z: Vec<FieldElement>) -> (res: Result<DensePolynomial, SumcheckError>)
        ensures
            res.is_ok() <==> is_pow2(z@.len() as int),
            res matches Ok(p) ==> p.wf() && p.Z == z,
            res matches Err(e) ==> e == SumcheckError::InvalidLength,
    {
        if is_power_of_two(z.len()) {
            Ok(DensePolynomial { Z: z })
        } else {
            Err(SumcheckError::InvalidLength)
        }
    }

    /// The number of values in the table.
    pub fn len(&self) -> (n: usize)
        ensures
            n == self@.len(),
    {
        self.Z.len()
    }

    /// The value at index `index` of the table as it now is.
    pub fn index(&self, index: usize) -> (e: &FieldElement)
        requires
            index < self@.len(),
        ensures
            *e == self.Z@[index as int],
            e@ == self@[index as int],
    {
        &self.Z[index]
    }

    /// Binds the most significant variable to `r`, which halves the table.
    pub fn bound_poly_var_top(&mut self, r: &FieldElement)
        requires
            old(self).wf(),
            old(self)@.len() > 1,
        ensures
            final(self).wf(),
            final(self)@.len() == old(self)@.len() / 2,
            final(self)@ == bind_top_spec(old(self)@, r@),
    {
        let n: usize = self.Z.len() / 2;
        proof {
            lemma_pow2_half(old(self).Z@.len() as int);
        }
        let mut i: usize = 0;
        while i < n
            invariant
                0 <= i <= n,
                self.Z@.len() == old(self).Z@.len(),
                self.Z@.len() == 2 * n,
                2 * n <= usize::MAX,
                forall|j: int| i <= j < 2 * n ==> self.Z@[j] == old(self).Z@[j],
                forall|j: int|
                    0 <= j < i ==> (#[trigger] self.Z@[j])@ == line_at(
                        old(self).Z@[j]@,
                        old(self).Z@[j + n]@,
                        r@,
                    ) % modulus(),
            decreases n - i,
        {
            let v = bind_pair(&self.Z[i], &self.Z[n + i], r);
            self.Z.set(i, v);
            i += 1;
        }
        self.Z.truncate(n);
    }

    /// Binds the most significant variable to `r` as
    /// [`bound_poly_var_top`](Self::bound_poly_var_top) does, the pairs
    /// handed to the thread pool.
    pub fn bound_poly_var_top_par(&mut self, r: &FieldElement)
        requires
            old(self).wf(),
            old(self)@.len() > 1,
        ensures
            final(self).wf(),
            final(self)@.len() == old(self)@.len() / 2,
            final(self)@ == bind_top_spec(old(self)@, r@),
    {
        let n: usize = self.Z.len() / 2;
        proof {
            lemma_pow2_half(old(self).Z@.len() as int);
        }
        let (left, right) = self.Z.as_mut_slice().split_at_mut(n);
        par_bind_pairs(left, right, r);
        self.Z.truncate(n);
    }

    /// Binds the least significant variable to `r`, which halves the table.
    pub fn bound_poly_var_bot(&mut self, r: &FieldElement)
        requires
            old(self).wf(),
            old(self)@.len() > 1,
        ensures
            final(self).wf(),
            final(self)@.len() == old(self)@.len() / 2,
            final(self)@ == bind_bot_spec(old(self)@, r@),
    {
        let n: usize = self.Z.len() / 2;
        proof {
            lemma_pow2_half(old(self).Z@.len() as int);
        }
        let mut i: usize = 0;
        while i < n
            invariant
                0 <= i <= n,
                self.Z@.len() == old(self).Z@.len(),
                self.Z@.len() == 2 * n,
                2 * n <= usize::MAX,
                forall|j: int| i <= j < 2 * n ==> self.Z@[j] == old(self).Z@[j],
                forall|j: int|
                    0 <= j < i ==> (#[trigger] self.Z@[j])@ == line_at(
                        old(self).Z@[2 * j]@,
                        old(self).Z@[2 * j + 1]@,
                        r@,
                    ) % modulus(),
            decreases n - i,
        {
            let v = bind_pair(&self.Z[2 * i], &self.Z[2 * i + 1], r);
            self.Z.set(i, v);
            i += 1;
        }
        self.Z.truncate(n);
    }
}

} // verus!
