//! The cubic sumcheck protocol: transcript, prover loop and verifier.

use crate::field::{
    field_add, field_div, lemma_congruent_canonical, lemma_congruent_mod,
    lemma_field_add_congruent, lemma_field_div_congruent, lemma_field_mul_congruent,
    lemma_field_sub_congruent, modulus, FieldElement,
};
use crate::poly::plain::{
    bind_top_spec, is_pow2, lemma_pow2_half, line_at, log2, values,
};
use vstd::prelude::*;

pub mod algebra;
pub mod chunks;
pub mod laws;
pub mod plain;
pub mod serial;
pub mod simd;
pub mod terms;

verus! {

/// What the library rejects.
#[derive(Clone, Copy, Debug, PartialEq, Eq, Structural)]
pub enum SumcheckError {
    /// A table of values whose length is zero or not a power of two.
    InvalidLength,
    /// Three tables that do not have one length.
    LengthMismatch,
    /// A number of rounds other than the number of variables.
    RoundCountMismatch,
    /// A round whose values at zero and one do not add up to the claim.
    ContinuityViolation { round: usize },
    /// A round whose published challenge is not the one its values give.
    ChallengeMismatch { round: usize },
}

/// The prover's message of one round: the round polynomial at 0, 1, 2 and 3.
pub type RoundPoly = (FieldElement, FieldElement, FieldElement, FieldElement);

/// The values of a round polynomial at 0, 1, 2 and 3.
pub type RoundValues = (int, int, int, int);

/// The values that a round's four elements stand for.
pub open spec fn round_values(p: RoundPoly) -> RoundValues {
    (p.0@, p.1@, p.2@, p.3@)
}

/// The three tables a sumcheck runs on, as values.
pub struct Tables {
    pub eq: Seq<int>,
    pub a: Seq<int>,
    pub b: Seq<int>,
}

/// The three tables have one power-of-two length.
pub open spec fn tables_wf(t: Tables) -> bool {
    &&& is_pow2(t.eq.len() as int)
    &&& t.a.len() == t.eq.len()
    &&& t.b.len() == t.eq.len()
}

/// The product, at `x`, of the three lines that pair index `i` gives: low
/// ends in the first half of each table, high ends in the second.
pub open spec fn cubic_term(t: Tables, i: int, x: int) -> int {
    let n = t.eq.len() / 2;
    line_at(t.eq[i], t.eq[i + n], x) * line_at(t.a[i], t.a[i + n], x) * line_at(
        t.b[i],
        t.b[i + n],
        x,
    )
}

/// The sum of the products at `x` over the pair indices from `lo` up to `hi`.
pub open spec fn cubic_sum(t: Tables, lo: int, hi: int, x: int) -> int
    decreases hi - lo,
{
    if hi <= lo {
        0
    } else {
        cubic_sum(t, lo, hi - 1, x) + cubic_term(t, hi - 1, x)
    }
}

/// The round polynomial of three tables at `x`, as a field element.
pub open spec fn round_eval_at(t: Tables, x: int) -> int {
    cubic_sum(t, 0, (t.eq.len() / 2) as int, x) % modulus()
}

/// The round polynomial of three tables at 0, 1, 2 and 3.
pub open spec fn round_evals(t: Tables) -> RoundValues {
    (round_eval_at(t, 0), round_eval_at(t, 1), round_eval_at(t, 2), round_eval_at(t, 3))
}

/// The three tables after their top variable is bound to `r`.
pub open spec fn bind_tables(t: Tables, r: int) -> Tables {
    Tables { eq: bind_top_spec(t.eq, r), a: bind_top_spec(t.a, r), b: bind_top_spec(t.b, r) }
}

/// The challenge that a round's values give: `(f0 * f1 * f2 * f3 + 13) * 29`.
pub open spec fn challenge(f: RoundValues) -> int {
    ((f.0 * f.1 * f.2 * f.3 + 13) * 29) % modulus()
}

/// The numerator of the Lagrange basis polynomial of node `j` among the
/// nodes 0, 1, 2, 3, at `r`: the product of `r - k` over the other nodes.
pub open spec fn lagrange_numerator(j: int, r: int) -> int {
    if j == 0 {
        (r - 1) * (r - 2) * (r - 3)
    } else if j == 1 {
        (r - 0) * (r - 2) * (r - 3)
    } else if j == 2 {
        (r - 0) * (r - 1) * (r - 3)
    } else {
        (r - 0) * (r - 1) * (r - 2)
    }
}

/// The denominator of the Lagrange basis polynomial of node `j`: the
/// product of `j - k` over the other nodes.
pub open spec fn lagrange_denominator(j: int) -> int {
    if j == 0 {
        (0 - 1) * (0 - 2) * (0 - 3)
    } else if j == 1 {
        (1 - 0) * (1 - 2) * (1 - 3)
    } else if j == 2 {
        (2 - 0) * (2 - 1) * (2 - 3)
    } else {
        (3 - 0) * (3 - 1) * (3 - 2)
    }
}

/// The Lagrange basis polynomial of node `j` at `r`, in the field.
pub open spec fn lagrange_basis(j: int, r: int) -> int {
    field_div(lagrange_numerator(j, r), lagrange_denominator(j))
}

/// The polynomial of degree at most three through `(0, f0)`, `(1, f1)`,
/// `(2, f2)`, `(3, f3)`, at `r`, in the field.
pub open spec fn lagrange_eval(f: RoundValues, r: int) -> int {
    (f.0 * lagrange_basis(0, r) + f.1 * lagrange_basis(1, r) + f.2 * lagrange_basis(2, r) + f.3
        * lagrange_basis(3, r)) % modulus()
}

/// A transcript as values: the rounds and the challenges.
pub struct ProofView {
    pub round_polys: Seq<RoundValues>,
    pub rs: Seq<int>,
}

/// What the verifier answers from round `i` on, the claim being `claim`
/// when it gets there.
pub open spec fn verify_from(t: ProofView, i: int, claim: int) -> Result<int, SumcheckError>
    decreases t.round_polys.len() - i,
{
    if i < 0 || i >= t.round_polys.len() {
        Ok(claim)
    } else if field_add(t.round_polys[i].0, t.round_polys[i].1) != claim {
        Err(SumcheckError::ContinuityViolation { round: i as usize })
    } else if challenge(t.round_polys[i]) != t.rs[i] {
        Err(SumcheckError::ChallengeMismatch { round: i as usize })
    } else {
        verify_from(t, i + 1, lagrange_eval(t.round_polys[i], t.rs[i]))
    }
}

/// What the verifier answers to a transcript and a claim.
pub open spec fn verify_spec(t: ProofView, claim: int) -> Result<int, SumcheckError> {
    verify_from(t, 0, claim)
}

/// The answer of the verifier, as values.
pub open spec fn verdict_view(res: Result<FieldElement, SumcheckError>) -> Result<
    int,
    SumcheckError,
> {
    match res {
        Ok(c) => Ok(c@),
        Err(e) => Err(e),
    }
}

/// The transcript of a cubic sumcheck: one round polynomial and one
/// challenge for each round.
#[derive(Clone, Debug, PartialEq, Eq)]
pub struct CubicSumcheckProof {
    pub round_polys: Vec<RoundPoly>,
    pub rs: Vec<FieldElement>,
}

impl View for CubicSumcheckProof {
    type V = ProofView;

    open spec fn view(&self) -> ProofView {
        ProofView {
            round_polys: Seq::new(
                self.round_polys@.len(),
                |i: int| round_values(self.round_polys@[i]),
            ),
            rs: Seq::new(self.rs@.len(), |i: int| self.rs@[i]@),
        }
    }
}

impl CubicSumcheckProof {
    /// There is one challenge for each round.
    pub open spec fn wf(&self) -> bool {
        self.rs@.len() == self.round_polys@.len()
    }

    /// A transcript without rounds, with room for `num_rounds` of them.
    pub fn with_capacity(num_rounds: usize) -> (p: CubicSumcheckProof)
        ensures
            p.wf(),
            p.round_polys@.len() == 0,
            p.rs@.len() == 0,
    {
        CubicSumcheckProof {
            round_polys: Vec::with_capacity(num_rounds),
            rs: Vec::with_capacity(num_rounds),
        }
    }

    /// The prover's step between the two halves of a round: takes the four
    /// values that the strategy computed, writes them and the challenge
    /// that they give to the transcript, and returns the challenge to bind
    /// the tables to.
    pub fn push_round(&mut self, evals: RoundPoly) -> (r: FieldElement)
        ensures
            final(self).round_polys@ == old(self).round_polys@.push(evals),
            final(self).rs@ == old(self).rs@.push(r),
            r@ == challenge(round_values(evals)),
    {
        self.round_polys.push(evals);
        let r = Self::fiat_shamir(evals);
        self.rs.push(r);
        r
    }

    /// Derives the challenge of a round from its four values. This is a
    /// stand-in for a cryptographic transcript: prover and verifier only
    /// have to compute the same function.
    pub fn fiat_shamir(round_poly: RoundPoly) -> (r: FieldElement)
        ensures
            r@ == challenge(round_values(round_poly)),
    {
        let p01 = round_poly.0.mul(&round_poly.1);
        let p012 = p01.mul(&round_poly.2);
        let p = p012.mul(&round_poly.3);
        let s = p.add(&FieldElement::from_u64(13));
        let r = s.mul(&FieldElement::from_u64(29));
        proof {
            let f = round_values(round_poly);
            lemma_field_mul_congruent(f.0, f.0, f.1, f.1);
            lemma_field_mul_congruent(p01@, f.0 * f.1, f.2, f.2);
            lemma_field_mul_congruent(p012@, f.0 * f.1 * f.2, f.3, f.3);
            lemma_field_add_congruent(p@, f.0 * f.1 * f.2 * f.3, 13, 13);
            lemma_field_mul_congruent(s@, f.0 * f.1 * f.2 * f.3 + 13, 29, 29);
            lemma_congruent_mod((f.0 * f.1 * f.2 * f.3 + 13) * 29);
            lemma_congruent_canonical(r@, challenge(f));
        }
        r
    }

    /// One Lagrange basis polynomial at `r`: the product of `r - k` over the
    /// three other nodes `k0`, `k1`, `k2`, divided by the product of `j - k`.
    fn basis(j: u64, k0: u64, k1: u64, k2: u64, r: &FieldElement) -> (l: FieldElement)
        requires
            0 <= j <= 3,
            0 <= k0 <= 3,
            0 <= k1 <= 3,
            0 <= k2 <= 3,
            j != k0,
            j != k1,
            j != k2,
        ensures
            l@ == field_div((r@ - k0) * (r@ - k1) * (r@ - k2), (j - k0) * (j - k1) * (j - k2)),
    {
        let fj = FieldElement::from_u64(j);
        let f0 = FieldElement::from_u64(k0);
        let f1 = FieldElement::from_u64(k1);
        let f2 = FieldElement::from_u64(k2);
        let n0 = r.sub(&f0);
        let n1 = r.sub(&f1);
        let n2 = r.sub(&f2);
        let n01 = n0.mul(&n1);
        let num = n01.mul(&n2);
        let d0 = fj.sub(&f0);
        let d1 = fj.sub(&f1);
        let d2 = fj.sub(&f2);
        let d01 = d0.mul(&d1);
        let den = d01.mul(&d2);
        proof {
            lemma_field_sub_congruent(r@, r@, k0 as int, k0 as int);
            lemma_field_sub_congruent(r@, r@, k1 as int, k1 as int);
            lemma_field_sub_congruent(r@, r@, k2 as int, k2 as int);
            lemma_field_mul_congruent(n0@, r@ - k0, n1@, r@ - k1);
            lemma_field_mul_congruent(n01@, (r@ - k0) * (r@ - k1), n2@, r@ - k2);
            lemma_field_sub_congruent(j as int, j as int, k0 as int, k0 as int);
            lemma_field_sub_congruent(j as int, j as int, k1 as int, k1 as int);
            lemma_field_sub_congruent(j as int, j as int, k2 as int, k2 as int);
            lemma_field_mul_congruent(d0@, j - k0, d1@, j - k1);
            lemma_field_mul_congruent(d01@, (j - k0) * (j - k1), d2@, j - k2);
            lemma_small_product_nonzero(j as int, k0 as int, k1 as int, k2 as int);
        }
        let l = num.div(&den);
        proof {
            lemma_field_div_congruent(
                num@,
                (r@ - k0) * (r@ - k1) * (r@ - k2),
                den@,
                (j - k0) * (j - k1) * (j - k2),
            );
        }
        l
    }

    /// Evaluates the univariate polynomial as specified by its evaluations
    /// over 0, 1, 2, 3 at a new point `r` using Lagrange interpolation.
    pub fn eval_uni(evals: RoundPoly, r: &FieldElement) -> (out: FieldElement)
        ensures
            out@ == lagrange_eval(round_values(evals), r@),
    {
        let l0 = Self::basis(0, 1, 2, 3, r);
        let l1 = Self::basis(1, 0, 2, 3, r);
        let l2 = Self::basis(2, 0, 1, 3, r);
        let l3 = Self::basis(3, 0, 1, 2, r);
        let t0 = evals.0.mul(&l0);
        let t1 = evals.1.mul(&l1);
        let t2 = evals.2.mul(&l2);
        let t3 = evals.3.mul(&l3);
        let s01 = t0.add(&t1);
        let s012 = s01.add(&t2);
        let out = s012.add(&t3);
        proof {
            let f = round_values(evals);
            lemma_field_mul_congruent(f.0, f.0, l0@, l0@);
            lemma_field_mul_congruent(f.1, f.1, l1@, l1@);
            lemma_field_mul_congruent(f.2, f.2, l2@, l2@);
            lemma_field_mul_congruent(f.3, f.3, l3@, l3@);
            lemma_field_add_congruent(t0@, f.0 * l0@, t1@, f.1 * l1@);
            lemma_field_add_congruent(s01@, f.0 * l0@ + f.1 * l1@, t2@, f.2 * l2@);
            lemma_field_add_congruent(
                s012@,
                f.0 * l0@ + f.1 * l1@ + f.2 * l2@,
                t3@,
                f.3 * l3@,
            );
            lemma_congruent_mod(f.0 * l0@ + f.1 * l1@ + f.2 * l2@ + f.3 * l3@);
            lemma_congruent_canonical(out@, lagrange_eval(f, r@));
        }
        out
    }

    /// Checks a transcript against a claim and returns the claim that is
    /// left after the last round.
    ///
    /// Round by round: the values at zero and one have to add up to the
    /// claim, the published challenge has to be the one the values give, and
    /// the next claim is the round polynomial at the challenge.
    pub fn verify(&self, claim: &FieldElement) -> (res: Result<FieldElement, SumcheckError>)
        requires
            self.wf(),
        ensures
            verdict_view(res) == verify_spec(self@, claim@),
    {
        let num_rounds: usize = self.round_polys.len();
        let mut prev_claim: FieldElement = *claim;
        let mut i: usize = 0;
        while i < num_rounds
            invariant
                0 <= i <= num_rounds,
                num_rounds == self.round_polys@.len(),
                self.wf(),
                verify_spec(self@, claim@) == verify_from(self@, i as int, prev_claim@),
            decreases num_rounds - i,
        {
            let round_poly = self.round_polys[i];
            let sum = round_poly.0.add(&round_poly.1);
            if !sum.is_equal(&prev_claim) {
                return Err(SumcheckError::ContinuityViolation { round: i });
            }
            let r = Self::fiat_shamir(round_poly);
            if !r.is_equal(&self.rs[i]) {
                return Err(SumcheckError::ChallengeMismatch { round: i });
            }
            prev_claim = Self::eval_uni(round_poly, &r);
            i += 1;
        }
        Ok(prev_claim)
    }
}

/// The tables after `k` rounds of an honest prover: each round binds the top
/// variable of all three to the challenge that the round's values give.
pub open spec fn state_after(t: Tables, k: nat) -> Tables
    decreases k,
{
    if k == 0 {
        t
    } else {
        let s = state_after(t, (k - 1) as nat);
        bind_tables(s, challenge(round_evals(s)))
    }
}

/// The transcript that an honest prover makes of three tables in `rounds`
/// rounds.
pub open spec fn transcript(t: Tables, rounds: nat) -> ProofView {
    ProofView {
        round_polys: Seq::new(rounds, |k: int| round_evals(state_after(t, k as nat))),
        rs: Seq::new(rounds, |k: int| challenge(round_evals(state_after(t, k as nat)))),
    }
}

/// Why three tables of these lengths cannot start a sumcheck, if they
/// cannot: a length that is no power of two comes before unequal lengths.
pub open spec fn new_error(eq_len: nat, a_len: nat, b_len: nat) -> Option<SumcheckError> {
    if !is_pow2(eq_len as int) || !is_pow2(a_len as int) || !is_pow2(b_len as int) {
        Some(SumcheckError::InvalidLength)
    } else if a_len != eq_len || b_len != eq_len {
        Some(SumcheckError::LengthMismatch)
    } else {
        None
    }
}

/// Binding the top variable keeps three tables well-formed.
pub proof fn lemma_bind_tables_wf(t: Tables, r: int)
    requires
        tables_wf(t),
        t.eq.len() > 1,
    ensures
        tables_wf(bind_tables(t, r)),
        bind_tables(t, r).eq.len() == t.eq.len() / 2,
        log2(t.eq.len() as int) == 1 + log2(bind_tables(t, r).eq.len() as int),
{
    lemma_pow2_half(t.eq.len() as int);
}

/// The number of times a length can be halved before it reaches one.
pub fn log2_floor(n: usize) -> (k: usize)
    ensures
        k == log2(n as int),
{
    let mut m: usize = n;
    let mut k: usize = 0;
    while m > 1
        invariant
            log2(n as int) == k + log2(m as int),
            k + m <= n || m <= 1,
        decreases m,
    {
        m = m / 2;
        k = k + 1;
    }
    k
}

/// An execution strategy for the two steps of a round: the four values of
/// the round polynomial, and the binding of the three tables. Every
/// strategy answers as the definitions [`round_evals`] and [`bind_tables`]
/// say, so all of them make the same transcript.
pub trait CubicSumcheck: Sized {
    /// What the strategy's own representation has to satisfy.
    spec fn inv(&self) -> bool;

    /// The three tables as they now are.
    spec fn tables(&self) -> Tables;

    /// A valid representation holds three well-formed tables.
    proof fn lemma_inv(&self)
        requires
            self.inv(),
        ensures
            tables_wf(self.tables()),
    ;

    /// Takes the three tables, which have to have one power-of-two length.
    fn new(eq: Vec<FieldElement>, a: Vec<FieldElement>, b: Vec<FieldElement>) -> (res: Result<
        Self,
        SumcheckError,
    >)
        ensures
            res matches Ok(s) ==> new_error(eq@.len(), a@.len(), b@.len()).is_none() && s.inv()
                && s.tables() == (Tables { eq: values(eq@), a: values(a@), b: values(b@) }),
            res matches Err(e) ==> new_error(eq@.len(), a@.len(), b@.len()) == Some(e),
    ;

    /// The length that the three tables now have.
    fn len(&self) -> (n: usize)
        requires
            self.inv(),
        ensures
            n == self.tables().eq.len(),
    ;

    /// The round polynomial of the tables at 0, 1, 2 and 3. The tables stay
    /// as they are.
    fn eval_cubic_top(&mut self) -> (res: RoundPoly)
        requires
            old(self).inv(),
        ensures
            final(self).inv(),
            final(self).tables() == old(self).tables(),
            round_values(res) == round_evals(old(self).tables()),
    ;

    /// Binds the top variable of the three tables to `r`, which halves them.
    fn bind_top(&mut self, r: &FieldElement)
        requires
            old(self).inv(),
            old(self).tables().eq.len() > 1,
        ensures
            final(self).inv(),
            final(self).tables() == bind_tables(old(self).tables(), r@),
    ;

    /// Runs the prover: in each round it publishes the round polynomial,
    /// derives the challenge from it and binds the tables to the challenge.
    /// The number of rounds has to be the number of variables; the tables
    /// are then left with one value each.
    fn sumcheck_top(&mut self, num_rounds: usize) -> (res: Result<
        CubicSumcheckProof,
        SumcheckError,
    >)
        requires
            old(self).inv(),
        ensures
            final(self).inv(),
            res.is_ok() <==> num_rounds == log2(old(self).tables().eq.len() as int),
            res matches Err(e) ==> e == SumcheckError::RoundCountMismatch && final(self).tables()
                == old(self).tables(),
            res matches Ok(p) ==> p.wf() && p@ == transcript(
                old(self).tables(),
                num_rounds as nat,
            ) && final(self).tables() == state_after(old(self).tables(), num_rounds as nat)
                && final(self).tables().eq.len() == 1,
    {
        if log2_floor(self.len()) != num_rounds {
            return Err(SumcheckError::RoundCountMismatch);
        }
        let mut proof_out = CubicSumcheckProof::with_capacity(num_rounds);
        let ghost start = self.tables();
        let mut round: usize = 0;
        while round < num_rounds
            invariant
                0 <= round <= num_rounds,
                self.inv(),
                self.tables() == state_after(start, round as nat),
                log2(self.tables().eq.len() as int) == num_rounds - round,
                proof_out.round_polys@.len() == round,
                proof_out.rs@.len() == round,
                forall|k: int|
                    0 <= k < round ==> round_values(#[trigger] proof_out.round_polys@[k])
                        == round_evals(state_after(start, k as nat)),
                forall|k: int|
                    0 <= k < round ==> (#[trigger] proof_out.rs@[k])@ == challenge(
                        round_evals(state_after(start, k as nat)),
                    ),
            decreases num_rounds - round,
        {
            let evals = self.eval_cubic_top();
            let r = proof_out.push_round(evals);
            proof {
                self.lemma_inv();
                lemma_bind_tables_wf(self.tables(), r@);
            }
            self.bind_top(&r);
            round += 1;
        }
        proof {
            self.lemma_inv();
            assert(proof_out@.round_polys =~= transcript(start, num_rounds as nat).round_polys);
            assert(proof_out@.rs =~= transcript(start, num_rounds as nat).rs);
        }
        Ok(proof_out)
    }
}

/// The product of the differences of one of the nodes 0 to 3 to the three
/// others does not stand for zero.
proof fn lemma_small_product_nonzero(j: int, k0: int, k1: int, k2: int)
    requires
        0 <= j <= 3,
        0 <= k0 <= 3,
        0 <= k1 <= 3,
        0 <= k2 <= 3,
        j != k0,
        j != k1,
        j != k2,
    ensures
        ((j - k0) * (j - k1) * (j - k2)) % modulus() != 0,
{
    let d = (j - k0) * (j - k1) * (j - k2);
    assert(-27 <= d <= 27 && d != 0) by (nonlinear_arith)
        requires
            d == (j - k0) * (j - k1) * (j - k2),
            -3 <= j - k0 <= 3,
            -3 <= j - k1 <= 3,
            -3 <= j - k2 <= 3,
            j - k0 != 0,
            j - k1 != 0,
            j - k2 != 0,
    ;
    if d > 0 {
        vstd::arithmetic::div_mod::lemma_small_mod(d as nat, modulus() as nat);
    } else {
        vstd::arithmetic::div_mod::lemma_small_mod((d + modulus()) as nat, modulus() as nat);
        vstd::arithmetic::div_mod::lemma_mod_add_multiples_vanish(d, modulus());
    }
}

} // verus!
