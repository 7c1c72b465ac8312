//! The reference strategy: one field operation at a time, the sum over the
//! pair indices handed to the thread pool.

use crate::field::FieldElement;
use crate::poly::plain::DensePolynomial;
use crate::sumcheck::terms::{
    add_round_polys, cubic_term_evals, fold_rounds, lemma_fold_terms, tables_of, term_values,
    zero_round,
};
use crate::sumcheck::{
    round_values, CubicSumcheck, RoundPoly, SumcheckError, Tables,
};
use rayon::iter::{IntoParallelIterator, ParallelIterator};
use vstd::prelude::*;

verus! {

/// Three dense polynomials, bound and summed by plain field arithmetic.
pub struct PlainSumcheck {
    eq: DensePolynomial,
    a: DensePolynomial,
    b: DensePolynomial,
}

/// rayon's `into_par_iter`, `map` and `reduce` on the range of pair indices:
/// each index is mapped to its summand, and the summands are combined with
/// the place-by-place field sum, zero being the identity. That sum is
/// associative, and however a sequence is split the sums of its parts add
/// up to its sum from the left
/// ([`lemma_fold_rounds_concat`](crate::sumcheck::terms::lemma_fold_rounds_concat)),
/// so the result is the one of summing from the left, however rayon splits
/// the range.
#[verifier::external_body]
fn par_sum_terms(
    eq: &Vec<FieldElement>,
    a: &Vec<FieldElement>,
    b: &Vec<FieldElement>,
    n: usize,
) -> (res: RoundPoly)
    requires
        a@.len() == eq@.len(),
        b@.len() == eq@.len(),
        n == eq@.len() / 2,
    ensures
        round_values(res) == fold_rounds(
            Seq::new(n as nat, |i: int| term_values(tables_of(eq@, a@, b@), i)),
        ),
{
    (0..n).into_par_iter().map(|i| cubic_term_evals(eq, a, b, i)).reduce(
        || zero_round(),
        |x, y| add_round_polys(x, y),
    )
}

impl CubicSumcheck for PlainSumcheck {
    closed spec fn inv(&self) -> bool {
        &&& self.eq.wf()
        &&& self.a.wf()
        &&& self.b.wf()
        &&& self.a@.len() == self.eq@.len()
        &&& self.b@.len() == self.eq@.len()
    }

    closed spec fn tables(&self) -> Tables {
        Tables { eq: self.eq@, a: self.a@, b: self.b@ }
    }

    proof fn lemma_inv(&self) {
    }

    fn new(eq: Vec<FieldElement>, a: Vec<FieldElement>, b: Vec<FieldElement>) -> (res: Result<
        Self,
        SumcheckError,
    >) {
        let eq = match DensePolynomial::new(eq) {
            Ok(p) => p,
            Err(e) => {
                return Err(e);
            },
        };
        let a = match DensePolynomial::new(a) {
            Ok(p) => p,
            Err(e) => {
                return Err(e);
            },
        };
        let b = match DensePolynomial::new(b) {
            Ok(p) => p,
            Err(e) => {
                return Err(e);
            },
        };
        if a.len() != eq.len() || b.len() != eq.len() {
            return Err(SumcheckError::LengthMismatch);
        }
        Ok(Self { eq, a, b })
    }

    fn len(&self) -> (n: usize) {
        self.eq.len()
    }

    fn eval_cubic_top(&mut self) -> (res: RoundPoly) {
        let len: usize = self.eq.Z.len();
        let n: usize = len / 2;
        let res = par_sum_terms(&self.eq.Z, &self.a.Z, &self.b.Z, n);
        proof {
            lemma_fold_terms(self.tables(), n as nat);
        }
        res
    }

    fn bind_top(&mut self, r: &FieldElement) {
        self.eq.bound_poly_var_top(r);
        self.a.bound_poly_var_top(r);
        self.b.bound_poly_var_top(r);
    }
}

} // verus!
