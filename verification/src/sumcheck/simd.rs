//! The batched strategy: the tables are cut into chunks, each chunk is
//! worked on with whole-vector field operations, and the chunks are handed
//! to the thread pool.

use crate::field::{field_mul, field_sub, modulus, FieldElement};
use crate::poly::plain::{
    bind_top_spec, is_pow2, is_power_of_two, lemma_pow2_half, line_at, values,
};
use crate::sumcheck::chunks::{
    bind_chunk, chunk_items, chunk_view, eval_chunk, halves_of, lemma_fold_all_chunks,
};
use crate::sumcheck::terms::{add_round_polys, fold_rounds, zero_round};
use crate::sumcheck::{round_values, CubicSumcheck, RoundPoly, SumcheckError, Tables};
use rayon::iter::{IndexedParallelIterator, ParallelIterator};
use rayon::slice::{ParallelSlice, ParallelSliceMut};
use vstd::prelude::*;

verus! {

/// A buffer of `size` zeros.
pub fn unsafe_allocate_zero_vec(size: usize) -> (result: Vec<FieldElement>)
    ensures
        result@.len() == size,
        forall|i: int| 0 <= i < size ==> (#[trigger] result@[i])@ == 0,
{
    let mut result: Vec<FieldElement> = Vec::with_capacity(size);
    let mut i: usize = 0;
    while i < size
        invariant
            0 <= i <= size,
            result@.len() == i,
            forall|j: int| 0 <= j < i ==> (#[trigger] result@[j])@ == 0,
        decreases size - i,
    {
        result.push(FieldElement::zero());
        i += 1;
    }
    result
}

/// A buffer of `size` elements for a vector operation to write into. It
/// holds zeros until it is written.
pub fn unsafe_alloc_vec(size: usize) -> (result: Vec<FieldElement>)
    ensures
        result@.len() == size,
        forall|i: int| 0 <= i < size ==> (#[trigger] result@[i])@ == 0,
{
    unsafe_allocate_zero_vec(size)
}

/// The size of the chunks that `n` pair indices are cut into for `threads`
/// workers: `n / threads / share + 2`, and 512 at most. No workers count as
/// one.
pub open spec fn chunk_size_spec(n: int, threads: int, share: int) -> int {
    let workers = if threads == 0 {
        1
    } else {
        threads
    };
    let size = n / workers / share + 2;
    if size < 512 {
        size
    } else {
        512
    }
}

/// The size of the chunks that `n` pair indices are cut into.
pub fn chunk_size_for(n: usize, threads: usize, share: usize) -> (size: usize)
    requires
        share > 0,
    ensures
        size == chunk_size_spec(n as int, threads as int, share as int),
        2 <= size <= 512,
{
    let workers: usize = if threads == 0 {
        1
    } else {
        threads
    };
    let per_worker: usize = n / workers;
    let per_share: usize = per_worker / share;
    if per_share < 510 {
        per_share + 2
    } else {
        512
    }
}

/// `k` copies of an element.
pub fn repeated(r: &FieldElement, k: usize) -> (out: Vec<FieldElement>)
    ensures
        out@.len() == k,
        forall|i: int| 0 <= i < k ==> #[trigger] out@[i] == *r,
{
    let mut out: Vec<FieldElement> = Vec::with_capacity(k);
    let mut i: usize = 0;
    while i < k
        invariant
            0 <= i <= k,
            out@.len() == i,
            forall|j: int| 0 <= j < i ==> #[trigger] out@[j] == *r,
        decreases k - i,
    {
        out.push(*r);
        i += 1;
    }
    out
}

/// rayon's `current_num_threads`: the number of workers of the thread pool,
/// which is up to the machine and the pool.
#[verifier::external_body]
fn pool_threads() -> (threads: usize) {
    rayon::current_num_threads()
}

/// rayon's `par_chunks`, `zip`, `map` and `reduce` on six slices of one
/// length: each slice is cut into chunks of `chunk_size`, the chunks at the
/// same place are handed to [`eval_chunk`] together, and the values of the
/// chunks are combined with the place-by-place field sum, zero being the
/// identity. That sum is associative, and however a sequence is split
/// the sums of its parts add up to its sum from the left
/// ([`lemma_fold_rounds_concat`](crate::sumcheck::terms::lemma_fold_rounds_concat)),
/// so the result is the one of summing the chunks' values from the left.
/// `par_chunks` panics on a chunk size of zero, which `requires` leaves
/// out.
#[verifier::external_body]
fn par_sum_chunks(
    eq_low: &[FieldElement],
    eq_high: &[FieldElement],
    a_low: &[FieldElement],
    a_high: &[FieldElement],
    b_low: &[FieldElement],
    b_high: &[FieldElement],
    chunk_size: usize,
) -> (res: RoundPoly)
    requires
        eq_high@.len() == eq_low@.len(),
        a_low@.len() == eq_low@.len(),
        a_high@.len() == eq_low@.len(),
        b_low@.len() == eq_low@.len(),
        b_high@.len() == eq_low@.len(),
        chunk_size > 0,
    ensures
        round_values(res) == fold_rounds(
            chunk_items(
                chunk_view(eq_low@, eq_high@, a_low@, a_high@, b_low@, b_high@),
                chunk_size as int,
            ),
        ),
{
    eq_low.par_chunks(chunk_size)
        .zip(eq_high.par_chunks(chunk_size))
        .zip(a_low.par_chunks(chunk_size))
        .zip(a_high.par_chunks(chunk_size))
        .zip(b_low.par_chunks(chunk_size))
        .zip(b_high.par_chunks(chunk_size))
        .map(|(((((el, eh), al), ah), bl), bh)| eval_chunk(el, eh, al, ah, bl, bh))
        .reduce(|| zero_round(), |x, y| add_round_polys(x, y))
}

/// rayon's `par_chunks_mut`, `zip` and `for_each` on two slices of one
/// length: both are cut into chunks of `chunk_size`, and the chunks at the
/// same place are handed to [`bind_chunk`] together with `r`, which holds
/// one element `chunk_size` times. So each element of `left` is moved to
/// the value at that element of the line through it and the element of
/// `right` at the same place, and `right` is used up as [`bind_chunk`]
/// says. `par_chunks_mut` panics on a chunk size of zero, which `requires`
/// leaves out.
#[verifier::external_body]
fn par_bind_chunks(
    left: &mut [FieldElement],
    right: &mut [FieldElement],
    chunk_size: usize,
    r: &Vec<FieldElement>,
)
    requires
        old(right)@.len() == old(left)@.len(),
        chunk_size > 0,
        r@.len() == chunk_size,
        forall|j: int| 0 <= j < r@.len() ==> #[trigger] r@[j] == r@[0],
    ensures
        final(left)@.len() == old(left)@.len(),
        final(right)@.len() == old(right)@.len(),
        forall|i: int|
            0 <= i < old(left)@.len() ==> (#[trigger] final(left)@[i])@ == line_at(
                old(left)@[i]@,
                old(right)@[i]@,
                r@[0]@,
            ) % modulus(),
        forall|i: int|
            0 <= i < old(left)@.len() ==> (#[trigger] final(right)@[i])@ == field_mul(
                field_sub(old(right)@[i]@, old(left)@[i]@),
                r@[0]@,
            ),
{
    left.par_chunks_mut(chunk_size).zip(right.par_chunks_mut(chunk_size)).for_each(
        |(left_chunk, right_chunk)| bind_chunk(left_chunk, right_chunk, r),
    );
}

/// A table of values that is bound chunk by chunk.
#[derive(Clone, Debug, PartialEq, Eq)]
#[allow(non_snake_case)]
pub struct SIMDPolynomial {
    pub Z: Vec<FieldElement>,
}

impl View for SIMDPolynomial {
    type V = Seq<int>;

    open spec fn view(&self) -> Seq<int> {
        values(self.Z@)
    }
}

impl SIMDPolynomial {
    /// The table has a power-of-two length.
    pub open spec fn wf(&self) -> bool {
        is_pow2(self.Z@.len() as int)
    }

    /// Binds the most significant variable to `r`, which halves the table.
    /// The two halves are cut into chunks, which are bound by whole-vector
    /// operations on the thread pool.
    pub fn bound_poly_var_top_par(&mut self, r: &FieldElement)
        requires
            old(self).wf(),
            old(self)@.len() > 1,
        ensures
            final(self).wf(),
            final(self)@.len() == old(self)@.len() / 2,
            final(self)@ == bind_top_spec(old(self)@, r@),
    {
        let n: usize = self.Z.len() / 2;
        proof {
            lemma_pow2_half(old(self).Z@.len() as int);
        }
        let rayon_threads: usize = pool_threads();
        let chunk_size: usize = chunk_size_for(n, rayon_threads, 16);
        let r = repeated(r, chunk_size);
        let (left, right) = self.Z.as_mut_slice().split_at_mut(n);
        par_bind_chunks(left, right, chunk_size, &r);
        self.Z.truncate(n);
    }
}

/// rayon's `join`, twice: it runs the two closures it is given, maybe on
/// two workers, and returns when both are done. The closures bind the three
/// tables with [`SIMDPolynomial::bound_poly_var_top_par`], each table in a
/// closure of its own.
#[verifier::external_body]
fn join_bind(eq: &mut SIMDPolynomial, a: &mut SIMDPolynomial, b: &mut SIMDPolynomial, r: &FieldElement)
    requires
        old(eq).wf(),
        old(a).wf(),
        old(b).wf(),
        old(eq)@.len() > 1,
        old(a)@.len() > 1,
        old(b)@.len() > 1,
    ensures
        final(eq).wf(),
        final(a).wf(),
        final(b).wf(),
        final(eq)@ == bind_top_spec(old(eq)@, r@),
        final(a)@ == bind_top_spec(old(a)@, r@),
        final(b)@ == bind_top_spec(old(b)@, r@),
{
    rayon::join(
        || eq.bound_poly_var_top_par(r),
        || rayon::join(|| a.bound_poly_var_top_par(r), || b.bound_poly_var_top_par(r)),
    );
}

/// Three tables, bound and summed chunk by chunk.
pub struct SIMDSumcheck {
    eq: SIMDPolynomial,
    a: SIMDPolynomial,
    b: SIMDPolynomial,
}

impl CubicSumcheck for SIMDSumcheck {
    closed spec fn inv(&self) -> bool {
        &&& self.eq.wf()
        &&& self.a.wf()
        &&& self.b.wf()
        &&& self.a@.len() == self.eq@.len()
        &&& self.b@.len() == self.eq@.len()
    }

    closed spec fn tables(&self) -> Tables {
        Tables { eq: self.eq@, a: self.a@, b: self.b@ }
    }

    proof fn lemma_inv(&self) {
    }

    fn new(eq: Vec<FieldElement>, a: Vec<FieldElement>, b: Vec<FieldElement>) -> (res: Result<
        Self,
        SumcheckError,
    >) {
        if !is_power_of_two(eq.len()) || !is_power_of_two(a.len()) || !is_power_of_two(b.len()) {
            return Err(SumcheckError::InvalidLength);
        }
        if a.len() != eq.len() || b.len() != eq.len() {
            return Err(SumcheckError::LengthMismatch);
        }
        let eq = SIMDPolynomial { Z: eq };
        let a = SIMDPolynomial { Z: a };
        let b = SIMDPolynomial { Z: b };
        Ok(Self { eq, a, b })
    }

    fn len(&self) -> (n: usize) {
        self.eq.Z.len()
    }

    fn eval_cubic_top(&mut self) -> (res: RoundPoly) {
        let len: usize = self.eq.Z.len();
        let n: usize = len / 2;
        if n == 0 {
            proof {
                vstd::arithmetic::div_mod::lemma_small_mod(0, modulus() as nat);
            }
            return zero_round();
        }
        proof {
            lemma_pow2_half(len as int);
        }
        let (eq_low, eq_high) = self.eq.Z.as_slice().split_at(n);
        let (a_low, a_high) = self.a.Z.as_slice().split_at(n);
        let (b_low, b_high) = self.b.Z.as_slice().split_at(n);
        let rayon_threads: usize = pool_threads();
        let chunk_size: usize = chunk_size_for(n, rayon_threads, 32);
        let res = par_sum_chunks(eq_low, eq_high, a_low, a_high, b_low, b_high, chunk_size);
        proof {
            let t = self.tables();
            let h = chunk_view(eq_low@, eq_high@, a_low@, a_high@, b_low@, b_high@);
            assert(h.eq_low =~= halves_of(t).eq_low);
            assert(h.eq_high =~= halves_of(t).eq_high);
            assert(h.a_low =~= halves_of(t).a_low);
            assert(h.a_high =~= halves_of(t).a_high);
            assert(h.b_low =~= halves_of(t).b_low);
            assert(h.b_high =~= halves_of(t).b_high);
            lemma_fold_all_chunks(t, n as int, chunk_size as int);
        }
        res
    }

    fn bind_top(&mut self, r: &FieldElement) {
        join_bind(&mut self.eq, &mut self.a, &mut self.b, r);
    }
}

} // verus!
