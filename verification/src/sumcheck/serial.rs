//! The serial strategy: one loop over the pair indices, one field operation
//! at a time. The other strategies have to answer as this one does.

use crate::field::{modulus, FieldElement};
use crate::poly::plain::DensePolynomial;
use crate::sumcheck::terms::{
    add_round_polys, cubic_term_evals, lemma_range_values_step, range_values, zero_round,
};
use crate::sumcheck::{round_values, CubicSumcheck, RoundPoly, SumcheckError, Tables};
use vstd::prelude::*;

verus! {

/// Three dense polynomials, bound and summed in one thread.
pub struct SerialSumcheck {
    eq: DensePolynomial,
    a: DensePolynomial,
    b: DensePolynomial,
}

impl CubicSumcheck for SerialSumcheck {
    closed spec fn inv(&self) -> bool {
        &&& self.eq.wf()
        &&& self.a.wf()
        &&& self.b.wf()
        &&& self.a@.len() == self.eq@.len()
        &&& self.b@.len() == self.eq@.len()
    }

    closed spec fn tables(&self) -> Tables {
        Tables { eq: self.eq@, a: self.a@, b: self.b@ }
    }

    proof fn lemma_inv(&self) {
    }

    fn new(eq: Vec<FieldElement>, a: Vec<FieldElement>, b: Vec<FieldElement>) -> (res: Result<
        Self,
        SumcheckError,
    >) {
        let eq = match DensePolynomial::new(eq) {
            Ok(p) => p,
            Err(e) => {
                return Err(e);
            },
        };
        let a = match DensePolynomial::new(a) {
            Ok(p) => p,
            Err(e) => {
                return Err(e);
            },
        };
        let b = match DensePolynomial::new(b) {
            Ok(p) => p,
            Err(e) => {
                return Err(e);
            },
        };
        if a.len() != eq.len() || b.len() != eq.len() {
            return Err(SumcheckError::LengthMismatch);
        }
        Ok(Self { eq, a, b })
    }

    fn len(&self) -> (n: usize) {
        self.eq.len()
    }

    fn eval_cubic_top(&mut self) -> (res: RoundPoly) {
        let n: usize = self.eq.Z.len() / 2;
        let mut acc = zero_round();
        let mut i: usize = 0;
        proof {
            vstd::arithmetic::div_mod::lemma_small_mod(0, modulus() as nat);
        }
        while i < n
            invariant
                0 <= i <= n,
                n == self.eq.Z@.len() / 2,
                self.inv(),
                round_values(acc) == range_values(self.tables(), 0, i as int),
            decreases n - i,
        {
            let term = cubic_term_evals(&self.eq.Z, &self.a.Z, &self.b.Z, i);
            proof {
                lemma_range_values_step(self.tables(), 0, i as int);
            }
            acc = add_round_polys(acc, term);
            i += 1;
        }
        acc
    }

    fn bind_top(&mut self, r: &FieldElement) {
        self.eq.bound_poly_var_top(r);
        self.a.bound_poly_var_top(r);
        self.b.bound_poly_var_top(r);
    }
}

} // verus!
