//! What holds of the protocol as a whole: an honest transcript verifies, a
//! changed one is rejected, and every strategy makes the same transcript.

use crate::field::{
    congruent, field_add, field_div, field_inv, is_inverse, lemma_congruent_add,
    lemma_congruent_canonical, lemma_congruent_mod, lemma_congruent_mul, lemma_congruent_sub,
    modulus,
};
use crate::poly::plain::{lemma_pow2_half, line_at, log2};
use crate::sumcheck::algebra::{
    lemma_lines_product_is_cubic, lemma_six_lagrange_of_cubic, lines_product_coefficients,
    six_lagrange,
};
use crate::field::FieldElement;
use crate::sumcheck::{
    round_values, verdict_view, CubicSumcheck, CubicSumcheckProof, RoundPoly,
};
use crate::sumcheck::{
    bind_tables, challenge, cubic_sum, cubic_term, lagrange_basis, lagrange_denominator,
    lagrange_eval, lagrange_numerator, lemma_bind_tables_wf, round_eval_at, round_evals,
    state_after, tables_wf, transcript, verify_from, verify_spec, ProofView, RoundValues,
    SumcheckError, Tables,
};
use vstd::prelude::*;

verus! {

/// The inverse of six in the field.
pub open spec fn inverse_of_six() -> int {
    18240202393199396018538671454381062573790303667013361953081836822146507079681int
}

/// The inverse of two in the field.
pub open spec fn inverse_of_two() -> int {
    10944121435919637611123202872628637544274182200208017171849102093287904247809int
}

/// An integer that is one more than a multiple of the field order stands
/// for one.
proof fn lemma_one_more_than_multiple(x: int, q: int)
    requires
        x == q * modulus() + 1,
    ensures
        x % modulus() == 1,
{
    vstd::arithmetic::div_mod::lemma_fundamental_div_mod_converse(x, modulus(), q, 1);
}

/// The denominators of the four basis polynomials have inverses.
pub proof fn lemma_denominators_invertible()
    ensures
        lagrange_denominator(0) == -6,
        lagrange_denominator(1) == 2,
        lagrange_denominator(2) == -2,
        lagrange_denominator(3) == 6,
        is_inverse(6, inverse_of_six()),
        is_inverse(-6, field_inv(-6)),
        is_inverse(2, field_inv(2)),
        is_inverse(-2, field_inv(-2)),
        is_inverse(6, field_inv(6)),
{
    lemma_one_more_than_multiple(6 * inverse_of_six(), 5);
    lemma_one_more_than_multiple(2 * inverse_of_two(), 1);
    lemma_one_more_than_multiple(-6 * (modulus() - inverse_of_six()), -1);
    lemma_one_more_than_multiple(-2 * (modulus() - inverse_of_two()), -1);
    assert(is_inverse(6, inverse_of_six()));
    assert(is_inverse(2, inverse_of_two()));
    assert(is_inverse(-6, modulus() - inverse_of_six()));
    assert(is_inverse(-2, modulus() - inverse_of_two()));
}

/// A quotient times its divisor stands for the dividend.
pub proof fn lemma_div_times_divisor(a: int, b: int)
    requires
        is_inverse(b, field_inv(b)),
    ensures
        congruent(field_div(a, b) * b, a),
{
    let y = field_inv(b);
    // (a * y % p) * b = a * (b * y) = a * 1
    lemma_congruent_mod(a * y);
    lemma_congruent_mul((a * y) % modulus(), a * y, b, b);
    assert((a * y) * b == a * (b * y)) by (nonlinear_arith);
    lemma_congruent_mod(b * y);
    lemma_congruent_mul(a, a, (b * y) % modulus(), b * y);
}

/// Six times an integer stands for the same element as six times another
/// only if the two stand for the same element.
pub proof fn lemma_cancel_six(x: int, y: int)
    requires
        congruent(6 * x, 6 * y),
    ensures
        congruent(x, y),
{
    lemma_denominators_invertible();
    let inv = inverse_of_six();
    lemma_congruent_mul(inv, inv, 6 * x, 6 * y);
    assert(inv * (6 * x) == (6 * inv) * x) by (nonlinear_arith);
    assert(inv * (6 * y) == (6 * inv) * y) by (nonlinear_arith);
    lemma_congruent_mod(6 * inv);
    lemma_congruent_mul((6 * inv) % modulus(), 6 * inv, x, x);
    lemma_congruent_mul((6 * inv) % modulus(), 6 * inv, y, y);
}

/// Six times each basis polynomial stands for a small multiple of its
/// numerator.
proof fn lemma_six_basis(r: int)
    ensures
        congruent(6 * lagrange_basis(0, r), -lagrange_numerator(0, r)),
        congruent(6 * lagrange_basis(1, r), 3 * lagrange_numerator(1, r)),
        congruent(6 * lagrange_basis(2, r), -3 * lagrange_numerator(2, r)),
        congruent(6 * lagrange_basis(3, r), lagrange_numerator(3, r)),
{
    lemma_denominators_invertible();
    let l0 = lagrange_basis(0, r);
    let l1 = lagrange_basis(1, r);
    let l2 = lagrange_basis(2, r);
    let l3 = lagrange_basis(3, r);
    lemma_div_times_divisor(lagrange_numerator(0, r), -6);
    lemma_div_times_divisor(lagrange_numerator(1, r), 2);
    lemma_div_times_divisor(lagrange_numerator(2, r), -2);
    lemma_div_times_divisor(lagrange_numerator(3, r), 6);
    assert(6 * l0 == -1 * (l0 * -6)) by (nonlinear_arith);
    lemma_congruent_mul(-1, -1, l0 * -6, lagrange_numerator(0, r));
    assert(6 * l1 == 3 * (l1 * 2)) by (nonlinear_arith);
    lemma_congruent_mul(3, 3, l1 * 2, lagrange_numerator(1, r));
    assert(6 * l2 == -3 * (l2 * -2)) by (nonlinear_arith);
    lemma_congruent_mul(-3, -3, l2 * -2, lagrange_numerator(2, r));
    assert(6 * l3 == l3 * 6) by (nonlinear_arith);
}

/// Six times the interpolated value stands for the weighted sum of the four
/// values.
pub proof fn lemma_six_lagrange_eval(f: RoundValues, r: int)
    ensures
        congruent(6 * lagrange_eval(f, r), six_lagrange(f.0, f.1, f.2, f.3, r)),
{
    let l0 = lagrange_basis(0, r);
    let l1 = lagrange_basis(1, r);
    let l2 = lagrange_basis(2, r);
    let l3 = lagrange_basis(3, r);
    let n0 = lagrange_numerator(0, r);
    let n1 = lagrange_numerator(1, r);
    let n2 = lagrange_numerator(2, r);
    let n3 = lagrange_numerator(3, r);
    let s = f.0 * l0 + f.1 * l1 + f.2 * l2 + f.3 * l3;
    lemma_six_basis(r);
    lemma_congruent_mod(s);
    lemma_congruent_mul(6, 6, s % modulus(), s);
    assert(6 * s == f.0 * (6 * l0) + f.1 * (6 * l1) + f.2 * (6 * l2) + f.3 * (6 * l3))
        by (nonlinear_arith)
        requires
            s == f.0 * l0 + f.1 * l1 + f.2 * l2 + f.3 * l3,
    ;
    lemma_congruent_mul(f.0, f.0, 6 * l0, -n0);
    lemma_congruent_mul(f.1, f.1, 6 * l1, 3 * n1);
    lemma_congruent_mul(f.2, f.2, 6 * l2, -3 * n2);
    lemma_congruent_mul(f.3, f.3, 6 * l3, n3);
    lemma_congruent_add(f.0 * (6 * l0), f.0 * (-n0), f.1 * (6 * l1), f.1 * (3 * n1));
    lemma_congruent_add(
        f.0 * (6 * l0) + f.1 * (6 * l1),
        f.0 * (-n0) + f.1 * (3 * n1),
        f.2 * (6 * l2),
        f.2 * (-3 * n2),
    );
    lemma_congruent_add(
        f.0 * (6 * l0) + f.1 * (6 * l1) + f.2 * (6 * l2),
        f.0 * (-n0) + f.1 * (3 * n1) + f.2 * (-3 * n2),
        f.3 * (6 * l3),
        f.3 * n3,
    );
    assert(f.0 * (-n0) == -(f.0 * n0)) by (nonlinear_arith);
    assert(f.1 * (3 * n1) == 3 * (f.1 * n1)) by (nonlinear_arith);
    assert(f.2 * (-3 * n2) == -3 * (f.2 * n2)) by (nonlinear_arith);
}

/// The weighted sum of congruent values is congruent.
proof fn lemma_six_lagrange_congruent(f: RoundValues, g: RoundValues, r: int)
    requires
        congruent(f.0, g.0),
        congruent(f.1, g.1),
        congruent(f.2, g.2),
        congruent(f.3, g.3),
    ensures
        congruent(six_lagrange(f.0, f.1, f.2, f.3, r), six_lagrange(g.0, g.1, g.2, g.3, r)),
{
    let n0 = lagrange_numerator(0, r);
    let n1 = lagrange_numerator(1, r);
    let n2 = lagrange_numerator(2, r);
    let n3 = lagrange_numerator(3, r);
    lemma_congruent_mul(f.0, g.0, n0, n0);
    lemma_congruent_mul(f.1, g.1, n1, n1);
    lemma_congruent_mul(f.2, g.2, n2, n2);
    lemma_congruent_mul(f.3, g.3, n3, n3);
    lemma_congruent_mul(-1, -1, f.0 * n0, g.0 * n0);
    lemma_congruent_mul(3, 3, f.1 * n1, g.1 * n1);
    lemma_congruent_mul(3, 3, f.2 * n2, g.2 * n2);
    lemma_congruent_add(-1 * (f.0 * n0), -1 * (g.0 * n0), 3 * (f.1 * n1), 3 * (g.1 * n1));
    lemma_congruent_sub(
        -1 * (f.0 * n0) + 3 * (f.1 * n1),
        -1 * (g.0 * n0) + 3 * (g.1 * n1),
        3 * (f.2 * n2),
        3 * (g.2 * n2),
    );
    lemma_congruent_add(
        -1 * (f.0 * n0) + 3 * (f.1 * n1) - 3 * (f.2 * n2),
        -1 * (g.0 * n0) + 3 * (g.1 * n1) - 3 * (g.2 * n2),
        f.3 * n3,
        g.3 * n3,
    );
}

/// The weighted sum of four values is additive in the values.
proof fn lemma_six_lagrange_additive(f: RoundValues, g: RoundValues, r: int)
    ensures
        six_lagrange(f.0 + g.0, f.1 + g.1, f.2 + g.2, f.3 + g.3, r) == six_lagrange(
            f.0,
            f.1,
            f.2,
            f.3,
            r,
        ) + six_lagrange(g.0, g.1, g.2, g.3, r),
{
    let n0 = lagrange_numerator(0, r);
    let n1 = lagrange_numerator(1, r);
    let n2 = lagrange_numerator(2, r);
    let n3 = lagrange_numerator(3, r);
    assert((f.0 + g.0) * n0 == f.0 * n0 + g.0 * n0) by (nonlinear_arith);
    assert((f.1 + g.1) * n1 == f.1 * n1 + g.1 * n1) by (nonlinear_arith);
    assert((f.2 + g.2) * n2 == f.2 * n2 + g.2 * n2) by (nonlinear_arith);
    assert((f.3 + g.3) * n3 == f.3 * n3 + g.3 * n3) by (nonlinear_arith);
}

/// Over the integers, the weighted sum of the sums at 0, 1, 2 and 3 is six
/// times the sum at `r`: each summand is a cubic.
proof fn lemma_six_lagrange_of_sum(t: Tables, k: int, r: int)
    requires
        0 <= k,
    ensures
        six_lagrange(
            cubic_sum(t, 0, k, 0),
            cubic_sum(t, 0, k, 1),
            cubic_sum(t, 0, k, 2),
            cubic_sum(t, 0, k, 3),
            r,
        ) == 6 * cubic_sum(t, 0, k, r),
    decreases k,
{
    if k == 0 {
        assert(six_lagrange(0, 0, 0, 0, r) == 0);
    } else {
        lemma_six_lagrange_of_sum(t, k - 1, r);
        let i = k - 1;
        let n = t.eq.len() / 2;
        let el = t.eq[i];
        let eh = t.eq[i + n];
        let al = t.a[i];
        let ah = t.a[i + n];
        let bl = t.b[i];
        let bh = t.b[i + n];
        let c = lines_product_coefficients(el, eh - el, al, ah - al, bl, bh - bl);
        lemma_lines_product_is_cubic(el, eh, al, ah, bl, bh, 0);
        lemma_lines_product_is_cubic(el, eh, al, ah, bl, bh, 1);
        lemma_lines_product_is_cubic(el, eh, al, ah, bl, bh, 2);
        lemma_lines_product_is_cubic(el, eh, al, ah, bl, bh, 3);
        lemma_lines_product_is_cubic(el, eh, al, ah, bl, bh, r);
        lemma_six_lagrange_of_cubic(c.0, c.1, c.2, c.3, r);
        lemma_six_lagrange_additive(
            (
                cubic_sum(t, 0, i, 0),
                cubic_sum(t, 0, i, 1),
                cubic_sum(t, 0, i, 2),
                cubic_sum(t, 0, i, 3),
            ),
            (cubic_term(t, i, 0), cubic_term(t, i, 1), cubic_term(t, i, 2), cubic_term(t, i, 3)),
            r,
        );
    }
}

/// Interpolating the four published values of a round gives the round
/// polynomial itself, at every point.
pub proof fn lemma_interpolation_is_round_polynomial(t: Tables, r: int)
    ensures
        lagrange_eval(round_evals(t), r) == round_eval_at(t, r),
{
    let n = (t.eq.len() / 2) as int;
    let f = round_evals(t);
    let g = (cubic_sum(t, 0, n, 0), cubic_sum(t, 0, n, 1), cubic_sum(t, 0, n, 2), cubic_sum(
        t,
        0,
        n,
        3,
    ));
    lemma_congruent_mod(g.0);
    lemma_congruent_mod(g.1);
    lemma_congruent_mod(g.2);
    lemma_congruent_mod(g.3);
    lemma_six_lagrange_eval(f, r);
    lemma_six_lagrange_congruent(f, g, r);
    lemma_six_lagrange_of_sum(t, n, r);
    lemma_cancel_six(lagrange_eval(f, r), cubic_sum(t, 0, n, r));
    lemma_congruent_mod(cubic_sum(t, 0, n, r));
    lemma_congruent_mod(
        f.0 * lagrange_basis(0, r) + f.1 * lagrange_basis(1, r) + f.2 * lagrange_basis(2, r) + f.3
            * lagrange_basis(3, r),
    );
    lemma_congruent_canonical(lagrange_eval(f, r), round_eval_at(t, r));
}

/// The sum of the products of the first `k` values of the three tables.
pub open spec fn product_sum(t: Tables, k: int) -> int
    decreases k,
{
    if k <= 0 {
        0
    } else {
        product_sum(t, k - 1) + t.eq[k - 1] * t.a[k - 1] * t.b[k - 1]
    }
}

/// The claim that three tables stand for: the sum of the products of their
/// values, as a field element.
pub open spec fn claim_of(t: Tables) -> int {
    product_sum(t, t.eq.len() as int) % modulus()
}

/// The claim of the bound tables is the round polynomial at the challenge.
pub proof fn lemma_bound_claim(t: Tables, r: int)
    requires
        tables_wf(t),
        t.eq.len() > 1,
    ensures
        claim_of(bind_tables(t, r)) == round_eval_at(t, r),
{
    lemma_pow2_half(t.eq.len() as int);
    lemma_bound_product_sum(t, r, (t.eq.len() / 2) as int);
}

/// The products of the first `k` bound values sum up to what the first `k`
/// summands of the round polynomial at `r` sum up to, in the field.
proof fn lemma_bound_product_sum(t: Tables, r: int, k: int)
    requires
        tables_wf(t),
        t.eq.len() > 1,
        0 <= k <= t.eq.len() / 2,
    ensures
        congruent(product_sum(bind_tables(t, r), k), cubic_sum(t, 0, k, r)),
    decreases k,
{
    if k > 0 {
        lemma_bound_product_sum(t, r, k - 1);
        let s = bind_tables(t, r);
        let i = k - 1;
        let n = t.eq.len() / 2;
        lemma_congruent_mod(line_at(t.eq[i], t.eq[i + n], r));
        lemma_congruent_mod(line_at(t.a[i], t.a[i + n], r));
        lemma_congruent_mod(line_at(t.b[i], t.b[i + n], r));
        lemma_congruent_mul(
            s.eq[i],
            line_at(t.eq[i], t.eq[i + n], r),
            s.a[i],
            line_at(t.a[i], t.a[i + n], r),
        );
        lemma_congruent_mul(
            s.eq[i] * s.a[i],
            line_at(t.eq[i], t.eq[i + n], r) * line_at(t.a[i], t.a[i + n], r),
            s.b[i],
            line_at(t.b[i], t.b[i + n], r),
        );
        lemma_congruent_add(
            product_sum(s, k - 1),
            cubic_sum(t, 0, k - 1, r),
            s.eq[i] * s.a[i] * s.b[i],
            cubic_term(t, i, r),
        );
    }
}

/// The round polynomial at zero sums the products of the first half of the
/// tables, and at one those of the second half.
proof fn lemma_ends_are_halves(t: Tables, k: int)
    requires
        0 <= k <= t.eq.len() / 2,
    ensures
        cubic_sum(t, 0, k, 0) == product_sum(t, k),
        cubic_sum(t, 0, k, 1) == product_sum(t, t.eq.len() / 2 + k) - product_sum(
            t,
            (t.eq.len() / 2) as int,
        ),
    decreases k,
{
    if k > 0 {
        lemma_ends_are_halves(t, k - 1);
    }
}

/// The values of a round at zero and at one add up to the claim that the
/// tables stand for.
pub proof fn lemma_round_continuity(t: Tables)
    requires
        tables_wf(t),
        t.eq.len() > 1,
    ensures
        field_add(round_evals(t).0, round_evals(t).1) == claim_of(t),
{
    lemma_pow2_half(t.eq.len() as int);
    let n = (t.eq.len() / 2) as int;
    lemma_ends_are_halves(t, n);
    lemma_congruent_mod(cubic_sum(t, 0, n, 0));
    lemma_congruent_mod(cubic_sum(t, 0, n, 1));
    lemma_congruent_add(
        round_evals(t).0,
        cubic_sum(t, 0, n, 0),
        round_evals(t).1,
        cubic_sum(t, 0, n, 1),
    );
}

/// The tables of an honest prover stay well-formed, and each round takes
/// one variable away.
pub proof fn lemma_state_after_wf(t: Tables, k: nat)
    requires
        tables_wf(t),
        k <= log2(t.eq.len() as int),
    ensures
        tables_wf(state_after(t, k)),
        log2(state_after(t, k).eq.len() as int) == log2(t.eq.len() as int) - k,
    decreases k,
{
    if k > 0 {
        lemma_state_after_wf(t, (k - 1) as nat);
        let s = state_after(t, (k - 1) as nat);
        lemma_bind_tables_wf(s, challenge(round_evals(s)));
    }
}

/// The claim that the verifier holds when it comes to round `k`: the claim
/// it was given, or the round polynomial before at its challenge.
pub open spec fn running_claim(p: ProofView, claim: int, k: int) -> int {
    if k <= 0 {
        claim
    } else {
        lagrange_eval(p.round_polys[k - 1], p.rs[k - 1])
    }
}

/// The claim that the verifier holds when it comes to round `k` of an honest
/// transcript is the claim of the prover's tables at that round.
proof fn lemma_running_claim_honest(t: Tables, rounds: nat, k: int)
    requires
        tables_wf(t),
        rounds == log2(t.eq.len() as int),
        0 <= k <= rounds,
    ensures
        running_claim(transcript(t, rounds), claim_of(t), k) == claim_of(
            state_after(t, k as nat),
        ),
{
    if k > 0 {
        let s = state_after(t, (k - 1) as nat);
        lemma_state_after_wf(t, (k - 1) as nat);
        let r = challenge(round_evals(s));
        lemma_interpolation_is_round_polynomial(s, r);
        lemma_bound_claim(s, r);
    }
}

/// Continuity: in every round of an honest transcript, for the claim that
/// the tables stand for, the values at zero and at one add up to the claim
/// that the verifier holds when it comes to that round.
pub proof fn lemma_honest_continuity(t: Tables, rounds: nat, k: int)
    requires
        tables_wf(t),
        rounds == log2(t.eq.len() as int),
        0 <= k < rounds,
    ensures
        ({
            let p = transcript(t, rounds);
            field_add(p.round_polys[k].0, p.round_polys[k].1) == running_claim(p, claim_of(t), k)
        }),
{
    lemma_running_claim_honest(t, rounds, k);
    lemma_state_after_wf(t, k as nat);
    lemma_round_continuity(state_after(t, k as nat));
}

/// From round `i` on, the verifier accepts an honest transcript.
proof fn lemma_verify_honest_from(t: Tables, rounds: nat, i: int)
    requires
        tables_wf(t),
        rounds == log2(t.eq.len() as int),
        0 <= i <= rounds,
    ensures
        verify_from(transcript(t, rounds), i, claim_of(state_after(t, i as nat))) == Ok::<
            int,
            SumcheckError,
        >(claim_of(state_after(t, rounds))),
    decreases rounds - i,
{
    if i < rounds {
        lemma_honest_continuity(t, rounds, i);
        lemma_running_claim_honest(t, rounds, i);
        lemma_running_claim_honest(t, rounds, i + 1);
        lemma_verify_honest_from(t, rounds, i + 1);
    }
}

/// Completeness: the verifier accepts the transcript that an honest prover
/// makes of three tables for the claim that the tables stand for, and the
/// claim it returns is the product of the three values that are left.
pub proof fn lemma_honest_transcript_verifies(t: Tables, rounds: nat)
    requires
        tables_wf(t),
        rounds == log2(t.eq.len() as int),
    ensures
        ({
            let last = state_after(t, rounds);
            &&& last.eq.len() == 1
            &&& verify_spec(transcript(t, rounds), claim_of(t)) == Ok::<int, SumcheckError>(
                (last.eq[0] * last.a[0] * last.b[0]) % modulus(),
            )
        }),
{
    lemma_verify_honest_from(t, rounds, 0);
    lemma_state_after_wf(t, rounds);
    let last = state_after(t, rounds);
    assert(product_sum(last, 1) == product_sum(last, 0) + last.eq[0] * last.a[0] * last.b[0]);
}

/// What the prover returns, the verifier accepts: the transcript that
/// `sumcheck_top` makes of a strategy's tables verifies for the claim that
/// the tables stand for.
pub proof fn lemma_sumcheck_top_verifies<S: CubicSumcheck>(
    before: S,
    num_rounds: usize,
    made: CubicSumcheckProof,
    claim: FieldElement,
)
    requires
        before.inv(),
        num_rounds == log2(before.tables().eq.len() as int),
        made@ == transcript(before.tables(), num_rounds as nat),
        claim@ == claim_of(before.tables()),
    ensures
        verify_spec(made@, claim@).is_ok(),
{
    before.lemma_inv();
    lemma_honest_transcript_verifies(before.tables(), num_rounds as nat);
}

/// The transcript has one challenge for each round and holds canonical
/// values.
pub open spec fn proof_view_wf(p: ProofView) -> bool {
    &&& p.rs.len() == p.round_polys.len()
    &&& forall|k: int|
        0 <= k < p.round_polys.len() ==> {
            let f = #[trigger] p.round_polys[k];
            &&& 0 <= f.0 < modulus()
            &&& 0 <= f.1 < modulus()
            &&& 0 <= f.2 < modulus()
            &&& 0 <= f.3 < modulus()
        }
    &&& forall|k: int| 0 <= k < p.rs.len() ==> 0 <= #[trigger] p.rs[k] < modulus()
}

/// The value of a round at node `j`.
pub open spec fn round_place(f: RoundValues, j: int) -> int {
    if j == 0 {
        f.0
    } else if j == 1 {
        f.1
    } else if j == 2 {
        f.2
    } else {
        f.3
    }
}

/// A round with its value at node `j` replaced by `v`.
pub open spec fn with_place(f: RoundValues, j: int, v: int) -> RoundValues {
    if j == 0 {
        (v, f.1, f.2, f.3)
    } else if j == 1 {
        (f.0, v, f.2, f.3)
    } else if j == 2 {
        (f.0, f.1, v, f.3)
    } else {
        (f.0, f.1, f.2, v)
    }
}

/// A transcript with the value at node `j` of round `i` replaced by `v`.
pub open spec fn with_round_value(p: ProofView, i: int, j: int, v: int) -> ProofView {
    ProofView { round_polys: p.round_polys.update(i, with_place(p.round_polys[i], j, v)), rs: p.rs }
}

/// Round `k` passes the verifier's two checks, for the claim that the
/// verifier holds when it comes to that round.
pub open spec fn round_passes(p: ProofView, claim: int, k: int) -> bool {
    &&& field_add(p.round_polys[k].0, p.round_polys[k].1) == running_claim(p, claim, k)
    &&& challenge(p.round_polys[k]) == p.rs[k]
}

/// A change that the verifier cannot see: the value at 2 or 3 of a round is
/// replaced by one that gives the same challenge and, unless the round is
/// the last, the same next claim.
pub open spec fn change_is_unseen(p: ProofView, i: int, j: int, v: int) -> bool {
    let f = p.round_polys[i];
    let g = with_place(f, j, v);
    &&& j >= 2
    &&& challenge(g) == challenge(f)
    &&& (i + 1 == p.round_polys.len() || lagrange_eval(g, p.rs[i]) == lagrange_eval(f, p.rs[i]))
}

/// While the rounds pass, the verifier goes on to the next round with the
/// running claim.
proof fn lemma_verify_prefix(p: ProofView, claim: int, k: int)
    requires
        0 <= k <= p.round_polys.len(),
        forall|m: int| 0 <= m < k ==> round_passes(p, claim, m),
    ensures
        verify_spec(p, claim) == verify_from(p, k, running_claim(p, claim, k)),
    decreases k,
{
    if k > 0 {
        lemma_verify_prefix(p, claim, k - 1);
        assert(round_passes(p, claim, k - 1));
    }
}

/// In a transcript that the verifier accepts, every round passes.
proof fn lemma_accepted_rounds_pass(p: ProofView, claim: int, k: int)
    requires
        verify_spec(p, claim).is_ok(),
        0 <= k <= p.round_polys.len(),
    ensures
        forall|m: int| 0 <= m < k ==> round_passes(p, claim, m),
    decreases k,
{
    if k > 0 {
        lemma_accepted_rounds_pass(p, claim, k - 1);
        lemma_verify_prefix(p, claim, k - 1);
    }
}

/// Different canonical values give different sums with one summand.
proof fn lemma_field_add_injective(a: int, b: int, c: int)
    requires
        0 <= a < modulus(),
        0 <= b < modulus(),
        a != b,
    ensures
        field_add(a, c) != field_add(b, c),
        field_add(c, a) != field_add(c, b),
{
    if field_add(a, c) == field_add(b, c) {
        lemma_congruent_sub(a + c, b + c, c, c);
        lemma_congruent_canonical(a, b);
    }
    if field_add(c, a) == field_add(c, b) {
        lemma_congruent_sub(c + a, c + b, c, c);
        lemma_congruent_canonical(a, b);
    }
}

/// Soundness against a changed round: take a transcript that the verifier
/// accepts and replace one of the four values of one round by another
/// value. Unless the verifier cannot see the change
/// ([`change_is_unseen`]), it rejects: a changed value at 0 or 1 breaks the
/// continuity of that round, a changed value at 2 or 3 gives another
/// challenge than the published one or breaks the continuity of the next
/// round.
pub proof fn lemma_changed_round_is_rejected(p: ProofView, claim: int, i: int, j: int, v: int)
    requires
        proof_view_wf(p),
        verify_spec(p, claim).is_ok(),
        0 <= i < p.round_polys.len(),
        0 <= j <= 3,
        0 <= v < modulus(),
        v != round_place(p.round_polys[i], j),
        !change_is_unseen(p, i, j, v),
    ensures
        ({
            let res = verify_spec(with_round_value(p, i, j, v), claim);
            &&& res.is_err()
            &&& j <= 1 ==> res == Err::<int, SumcheckError>(
                SumcheckError::ContinuityViolation { round: i as usize },
            )
            &&& j >= 2 ==> res == Err::<int, SumcheckError>(
                SumcheckError::ChallengeMismatch { round: i as usize },
            ) || res == Err::<int, SumcheckError>(
                SumcheckError::ContinuityViolation { round: (i + 1) as usize },
            )
        }),
{
    let q = with_round_value(p, i, j, v);
    let f = p.round_polys[i];
    let g = with_place(f, j, v);
    lemma_accepted_rounds_pass(p, claim, p.round_polys.len() as int);
    assert forall|m: int| 0 <= m < i implies round_passes(q, claim, m) by {
        assert(round_passes(p, claim, m));
    }
    lemma_verify_prefix(q, claim, i);
    assert(running_claim(q, claim, i) == running_claim(p, claim, i));
    assert(round_passes(p, claim, i));
    let here = running_claim(p, claim, i);
    if j == 0 {
        lemma_field_add_injective(v, f.0, f.1);
    } else if j == 1 {
        lemma_field_add_injective(v, f.1, f.0);
    } else {
        if challenge(g) == p.rs[i] {
            let next = lagrange_eval(g, p.rs[i]);
            assert(round_passes(p, claim, i + 1));
            assert(verify_from(q, i + 1, next) == Err::<int, SumcheckError>(
                SumcheckError::ContinuityViolation { round: (i + 1) as usize },
            ));
        } else {
            assert(verify_from(q, i, here) == Err::<int, SumcheckError>(
                SumcheckError::ChallengeMismatch { round: i as usize },
            ));
        }
    }
}

/// The changes left out of [`lemma_changed_round_is_rejected`] are the ones
/// that the verifier accepts: it cannot tell them from the transcript it
/// accepted.
pub proof fn lemma_unseen_change_is_accepted(p: ProofView, claim: int, i: int, j: int, v: int)
    requires
        proof_view_wf(p),
        verify_spec(p, claim).is_ok(),
        0 <= i < p.round_polys.len(),
        0 <= j <= 3,
        change_is_unseen(p, i, j, v),
    ensures
        verify_spec(with_round_value(p, i, j, v), claim).is_ok(),
{
    let q = with_round_value(p, i, j, v);
    let n = p.round_polys.len() as int;
    lemma_accepted_rounds_pass(p, claim, n);
    assert forall|m: int| 0 <= m < n implies round_passes(q, claim, m) by {
        assert(round_passes(p, claim, m));
    }
    lemma_verify_prefix(q, claim, n);
}

/// Verification has one answer: whatever `verify` may return for a
/// transcript and a claim, it returns each time.
pub proof fn lemma_verify_repeatable(
    p: CubicSumcheckProof,
    claim: FieldElement,
    first: Result<FieldElement, SumcheckError>,
    second: Result<FieldElement, SumcheckError>,
)
    requires
        p.wf(),
        verdict_view(first) == verify_spec(p@, claim@),
        verdict_view(second) == verify_spec(p@, claim@),
    ensures
        first == second,
{
    match (first, second) {
        (Ok(c), Ok(d)) => {
            FieldElement::lemma_view_injective(c, d);
        },
        _ => {},
    }
}

/// Every strategy answers alike: what two strategies that hold the same
/// tables return for a round, and the tables that they are left with after
/// binding to one challenge, are the same, and so are the transcripts.
pub proof fn lemma_strategies_agree<A: CubicSumcheck, B: CubicSumcheck>(
    a: A,
    b: B,
    a_evals: RoundPoly,
    b_evals: RoundPoly,
    a_bound: A,
    b_bound: B,
    r: FieldElement,
)
    requires
        a.inv(),
        b.inv(),
        a.tables() == b.tables(),
        round_values(a_evals) == round_evals(a.tables()),
        round_values(b_evals) == round_evals(b.tables()),
        a_bound.tables() == bind_tables(a.tables(), r@),
        b_bound.tables() == bind_tables(b.tables(), r@),
    ensures
        a_evals == b_evals,
        a_bound.tables() == b_bound.tables(),
        forall|rounds: nat| transcript(a.tables(), rounds) == transcript(b.tables(), rounds),
{
    FieldElement::lemma_view_injective(a_evals.0, b_evals.0);
    FieldElement::lemma_view_injective(a_evals.1, b_evals.1);
    FieldElement::lemma_view_injective(a_evals.2, b_evals.2);
    FieldElement::lemma_view_injective(a_evals.3, b_evals.3);
}

} // verus!
