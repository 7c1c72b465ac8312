use cubic_sumcheck::field::FieldElement;
use cubic_sumcheck::poly::plain::DensePolynomial;
use cubic_sumcheck::sumcheck::plain::PlainSumcheck;
use cubic_sumcheck::sumcheck::serial::SerialSumcheck;
use cubic_sumcheck::sumcheck::simd::SIMDSumcheck;
use cubic_sumcheck::sumcheck::{log2_floor, CubicSumcheck, CubicSumcheckProof, SumcheckError};

fn fe(x: u64) -> FieldElement {
    FieldElement::from_u64(x)
}

fn table(xs: &[u64]) -> Vec<FieldElement> {
    xs.iter().map(|x| fe(*x)).collect()
}

fn product_sum(eq: &[FieldElement], a: &[FieldElement], b: &[FieldElement]) -> FieldElement {
    let mut sum = FieldElement::zero();
    for i in 0..eq.len() {
        sum = sum.add(&eq[i].mul(&a[i]).mul(&b[i]));
    }
    sum
}

/// The value that is left of a table when it is bound to the challenges in turn.
fn fully_bound(values: &[FieldElement], rs: &[FieldElement]) -> FieldElement {
    let mut poly = DensePolynomial::new(values.to_vec()).unwrap();
    for r in rs {
        poly.bound_poly_var_top(r);
    }
    assert_eq!(poly.len(), 1);
    *poly.index(0)
}

fn three_tables(n: u64) -> (Vec<FieldElement>, Vec<FieldElement>, Vec<FieldElement>) {
    let eq = (0..n).map(|i| fe(i * i + 7)).collect();
    let a = (0..n).map(|i| fe(3 * i + 1)).collect();
    let b = (0..n).map(|i| fe(1_000_000_007 * (i + 1))).collect();
    (eq, a, b)
}

#[test]
fn plain_sumcheck() {
    let eq = table(&[12, 13, 14, 15]);
    let a = eq.clone();
    let b = eq.clone();

    let claim = product_sum(&eq, &a, &b);

    let mut plain = PlainSumcheck::new(eq, a, b).unwrap();
    let proof = plain.sumcheck_top(2).unwrap();
    assert!(proof.verify(&claim).is_ok());
}

#[test]
fn plain() {
    let eq = table(&[12, 13, 14, 15]);
    let a = eq.clone();
    let b = eq.clone();

    let claim = product_sum(&eq, &a, &b);

    let eq = DensePolynomial::new(eq).unwrap();
    let a = DensePolynomial::new(a).unwrap();
    let b = DensePolynomial::new(b).unwrap();

    let mut plain = PlainSumcheck::new(eq.Z, a.Z, b.Z).unwrap();
    let proof = plain.sumcheck_top(2).unwrap();
    assert!(proof.verify(&claim).is_ok());
}

#[test]
fn end_to_end_on_four_values() {
    let eq = table(&[12, 13, 14, 15]);
    let claim = product_sum(&eq, &eq, &eq);
    assert_eq!(claim, fe(12 * 12 * 12 + 13 * 13 * 13 + 14 * 14 * 14 + 15 * 15 * 15));

    let mut plain = PlainSumcheck::new(eq.clone(), eq.clone(), eq.clone()).unwrap();
    let proof = plain.sumcheck_top(2).unwrap();
    assert_eq!(proof.round_polys.len(), 2);
    assert_eq!(proof.rs.len(), 2);
    assert_eq!(plain.len(), 1);

    // the first round, by hand: the halves are [12, 13] and [14, 15]
    let first = proof.round_polys[0];
    assert_eq!(first.0, fe(12 * 12 * 12 + 13 * 13 * 13));
    assert_eq!(first.1, fe(14 * 14 * 14 + 15 * 15 * 15));
    assert_eq!(first.2, fe(16 * 16 * 16 + 17 * 17 * 17));
    assert_eq!(first.3, fe(18 * 18 * 18 + 19 * 19 * 19));
    assert_eq!(first.0.add(&first.1), claim);
    assert_eq!(proof.rs[0], CubicSumcheckProof::fiat_shamir(first));

    let last = proof.verify(&claim).unwrap();
    let left = fully_bound(&eq, &proof.rs);
    assert_eq!(last, left.mul(&left).mul(&left));
}

#[test]
fn honest_rounds_continue_the_claim() {
    let (eq, a, b) = three_tables(64);
    let claim = product_sum(&eq, &a, &b);
    let mut prover = SerialSumcheck::new(eq, a, b).unwrap();
    let proof = prover.sumcheck_top(6).unwrap();
    let mut prev_claim = claim;
    for i in 0..6 {
        let round = proof.round_polys[i];
        assert_eq!(round.0.add(&round.1), prev_claim);
        assert_eq!(proof.rs[i], CubicSumcheckProof::fiat_shamir(round));
        prev_claim = CubicSumcheckProof::eval_uni(round, &proof.rs[i]);
    }
    assert_eq!(proof.verify(&claim), Ok(prev_claim));
}

#[test]
fn verified_claim_is_the_product_of_what_is_left() {
    for log in 1..=8usize {
        let (eq, a, b) = three_tables(1 << log);
        let claim = product_sum(&eq, &a, &b);
        let mut prover = PlainSumcheck::new(eq.clone(), a.clone(), b.clone()).unwrap();
        let proof = prover.sumcheck_top(log).unwrap();
        let last = proof.verify(&claim).unwrap();
        let expected = fully_bound(&eq, &proof.rs)
            .mul(&fully_bound(&a, &proof.rs))
            .mul(&fully_bound(&b, &proof.rs));
        assert_eq!(last, expected);
    }
}

#[test]
fn every_strategy_makes_the_same_transcript() {
    for log in 0..=10usize {
        let (eq, a, b) = three_tables(1 << log);
        let mut serial = SerialSumcheck::new(eq.clone(), a.clone(), b.clone()).unwrap();
        let mut plain = PlainSumcheck::new(eq.clone(), a.clone(), b.clone()).unwrap();
        let mut simd = SIMDSumcheck::new(eq.clone(), a.clone(), b.clone()).unwrap();
        let serial_proof = serial.sumcheck_top(log).unwrap();
        let plain_proof = plain.sumcheck_top(log).unwrap();
        let simd_proof = simd.sumcheck_top(log).unwrap();
        assert_eq!(serial_proof.round_polys.len(), log);
        assert_eq!(serial_proof, plain_proof);
        assert_eq!(serial_proof, simd_proof);
    }
}

#[test]
fn every_strategy_gives_the_same_round_and_binding() {
    let evals = table(&[11, 12, 13, 14, 15, 16, 17, 18]);
    let mut serial = SerialSumcheck::new(evals.clone(), evals.clone(), evals.clone()).unwrap();
    let mut plain = PlainSumcheck::new(evals.clone(), evals.clone(), evals.clone()).unwrap();
    let mut simd = SIMDSumcheck::new(evals.clone(), evals.clone(), evals.clone()).unwrap();

    let expected = (
        fe(11 * 11 * 11 + 12 * 12 * 12 + 13 * 13 * 13 + 14 * 14 * 14),
        fe(15 * 15 * 15 + 16 * 16 * 16 + 17 * 17 * 17 + 18 * 18 * 18),
        fe(19 * 19 * 19 + 20 * 20 * 20 + 21 * 21 * 21 + 22 * 22 * 22),
        fe(23 * 23 * 23 + 24 * 24 * 24 + 25 * 25 * 25 + 26 * 26 * 26),
    );
    assert_eq!(serial.eval_cubic_top(), expected);
    assert_eq!(plain.eval_cubic_top(), expected);
    assert_eq!(simd.eval_cubic_top(), expected);

    let r = fe(20);
    serial.bind_top(&r);
    plain.bind_top(&r);
    simd.bind_top(&r);
    assert_eq!(serial.len(), 4);
    assert_eq!(plain.len(), 4);
    assert_eq!(simd.len(), 4);
    // bound to 20 the tables are [91, 92, 93, 94]: halves [91, 92] and [93, 94]
    let bound = (
        fe(91 * 91 * 91 + 92 * 92 * 92),
        fe(93 * 93 * 93 + 94 * 94 * 94),
        fe(95 * 95 * 95 + 96 * 96 * 96),
        fe(97 * 97 * 97 + 98 * 98 * 98),
    );
    assert_eq!(serial.eval_cubic_top(), bound);
    assert_eq!(plain.eval_cubic_top(), bound);
    assert_eq!(simd.eval_cubic_top(), bound);
}

#[test]
fn a_table_of_one_value_has_the_zero_round() {
    let one = table(&[5]);
    let zero = FieldElement::zero();
    let mut serial = SerialSumcheck::new(one.clone(), one.clone(), one.clone()).unwrap();
    let mut plain = PlainSumcheck::new(one.clone(), one.clone(), one.clone()).unwrap();
    let mut simd = SIMDSumcheck::new(one.clone(), one.clone(), one.clone()).unwrap();
    assert_eq!(serial.eval_cubic_top(), (zero, zero, zero, zero));
    assert_eq!(plain.eval_cubic_top(), (zero, zero, zero, zero));
    assert_eq!(simd.eval_cubic_top(), (zero, zero, zero, zero));
    let proof = plain.sumcheck_top(0).unwrap();
    assert!(proof.round_polys.is_empty());
    assert_eq!(proof.verify(&fe(125)), Ok(fe(125)));
}

#[test]
fn tables_have_to_have_one_power_of_two_length() {
    let two = table(&[1, 2]);
    let three = table(&[1, 2, 3]);
    let four = table(&[1, 2, 3, 4]);
    assert_eq!(
        PlainSumcheck::new(three.clone(), three.clone(), three.clone()).err(),
        Some(SumcheckError::InvalidLength)
    );
    assert_eq!(
        PlainSumcheck::new(vec![], vec![], vec![]).err(),
        Some(SumcheckError::InvalidLength)
    );
    assert_eq!(
        PlainSumcheck::new(two.clone(), three.clone(), four.clone()).err(),
        Some(SumcheckError::InvalidLength)
    );
    assert_eq!(
        PlainSumcheck::new(two.clone(), four.clone(), four.clone()).err(),
        Some(SumcheckError::LengthMismatch)
    );
    assert_eq!(
        PlainSumcheck::new(four.clone(), four.clone(), two.clone()).err(),
        Some(SumcheckError::LengthMismatch)
    );
    assert_eq!(
        SIMDSumcheck::new(two.clone(), four.clone(), four.clone()).err(),
        Some(SumcheckError::LengthMismatch)
    );
    assert_eq!(
        SIMDSumcheck::new(four.clone(), three.clone(), four.clone()).err(),
        Some(SumcheckError::InvalidLength)
    );
    assert_eq!(
        SerialSumcheck::new(four.clone(), four.clone(), three.clone()).err(),
        Some(SumcheckError::InvalidLength)
    );
    assert!(SerialSumcheck::new(four.clone(), four.clone(), four.clone()).is_ok());
}

#[test]
fn round_count_has_to_be_the_number_of_variables() {
    let eq = table(&[12, 13, 14, 15]);
    let mut plain = PlainSumcheck::new(eq.clone(), eq.clone(), eq.clone()).unwrap();
    assert_eq!(plain.sumcheck_top(3).unwrap_err(), SumcheckError::RoundCountMismatch);
    assert_eq!(plain.sumcheck_top(1).unwrap_err(), SumcheckError::RoundCountMismatch);
    assert_eq!(plain.sumcheck_top(0).unwrap_err(), SumcheckError::RoundCountMismatch);
    // a refused run leaves the tables as they were
    assert_eq!(plain.len(), 4);
    assert!(plain.sumcheck_top(2).is_ok());
    assert_eq!(plain.len(), 1);
}

#[test]
fn fiat_shamir_is_the_toy_formula() {
    let r = CubicSumcheckProof::fiat_shamir((fe(2), fe(3), fe(5), fe(7)));
    assert_eq!(r, fe((2 * 3 * 5 * 7 + 13) * 29));
    let zero = CubicSumcheckProof::fiat_shamir((fe(0), fe(3), fe(5), fe(7)));
    assert_eq!(zero, fe(13 * 29));
}

#[test]
fn interpolation_gives_the_cubic_back() {
    // f(x) = x^3 + 2x + 5 at 0, 1, 2, 3
    let evals = (fe(5), fe(8), fe(17), fe(38));
    assert_eq!(CubicSumcheckProof::eval_uni(evals, &fe(0)), fe(5));
    assert_eq!(CubicSumcheckProof::eval_uni(evals, &fe(1)), fe(8));
    assert_eq!(CubicSumcheckProof::eval_uni(evals, &fe(2)), fe(17));
    assert_eq!(CubicSumcheckProof::eval_uni(evals, &fe(3)), fe(38));
    assert_eq!(CubicSumcheckProof::eval_uni(evals, &fe(4)), fe(64 + 8 + 5));
    assert_eq!(CubicSumcheckProof::eval_uni(evals, &fe(10)), fe(1000 + 20 + 5));
    assert_eq!(CubicSumcheckProof::eval_uni(evals, &fe(1_000_000)), fe(1_000_000_000_002_000_005));
}

#[test]
fn verifier_rejects_a_wrong_claim() {
    let eq = table(&[12, 13, 14, 15]);
    let claim = product_sum(&eq, &eq, &eq);
    let mut plain = PlainSumcheck::new(eq.clone(), eq.clone(), eq.clone()).unwrap();
    let proof = plain.sumcheck_top(2).unwrap();
    assert_eq!(
        proof.verify(&claim.add(&fe(1))),
        Err(SumcheckError::ContinuityViolation { round: 0 })
    );
}

#[test]
fn verifier_rejects_a_wrong_challenge() {
    let eq = table(&[12, 13, 14, 15]);
    let claim = product_sum(&eq, &eq, &eq);
    let mut plain = PlainSumcheck::new(eq.clone(), eq.clone(), eq.clone()).unwrap();
    let proof = plain.sumcheck_top(2).unwrap();
    for i in 0..2 {
        let mut changed = proof.clone();
        changed.rs[i] = changed.rs[i].add(&fe(1));
        assert_eq!(changed.verify(&claim), Err(SumcheckError::ChallengeMismatch { round: i }));
    }
}

#[test]
fn verifier_rejects_every_changed_round_value() {
    let (eq, a, b) = three_tables(16);
    let claim = product_sum(&eq, &a, &b);
    let mut prover = SIMDSumcheck::new(eq, a, b).unwrap();
    let proof = prover.sumcheck_top(4).unwrap();
    assert!(proof.verify(&claim).is_ok());
    for i in 0..4 {
        for j in 0..4 {
            let mut changed = proof.clone();
            let round = &mut changed.round_polys[i];
            match j {
                0 => round.0 = round.0.add(&fe(1)),
                1 => round.1 = round.1.add(&fe(1)),
                2 => round.2 = round.2.add(&fe(1)),
                _ => round.3 = round.3.add(&fe(1)),
            }
            let expected = if j < 2 {
                SumcheckError::ContinuityViolation { round: i }
            } else {
                SumcheckError::ChallengeMismatch { round: i }
            };
            assert_eq!(changed.verify(&claim), Err(expected));
        }
    }
}

#[test]
fn a_change_that_keeps_the_challenge_shows_in_the_next_round() {
    // values at zero of zero: the product that the challenge is made of stays zero
    let r0 = fe(13 * 29);
    let first = (fe(0), fe(10), fe(3), fe(4));
    let next_claim = CubicSumcheckProof::eval_uni(first, &r0);
    let second = (next_claim, fe(0), fe(1), fe(2));
    let proof = CubicSumcheckProof {
        round_polys: vec![first, second],
        rs: vec![r0, CubicSumcheckProof::fiat_shamir(second)],
    };
    assert!(proof.verify(&fe(10)).is_ok());

    let mut changed = proof.clone();
    changed.round_polys[0].2 = fe(33);
    assert_eq!(changed.verify(&fe(10)), Err(SumcheckError::ContinuityViolation { round: 1 }));

    // in the last round nothing follows: the verifier accepts, with another claim
    let mut last = proof.clone();
    last.round_polys[1].2 = fe(77);
    let accepted = last.verify(&fe(10)).unwrap();
    assert_ne!(Ok(accepted), proof.verify(&fe(10)));
}

#[test]
fn verifying_twice_gives_the_same_claim() {
    let (eq, a, b) = three_tables(32);
    let claim = product_sum(&eq, &a, &b);
    let mut prover = PlainSumcheck::new(eq, a, b).unwrap();
    let proof = prover.sumcheck_top(5).unwrap();
    let first = proof.verify(&claim);
    let second = proof.verify(&claim);
    assert!(first.is_ok());
    assert_eq!(first, second);
    let wrong = fe(1);
    assert_eq!(proof.verify(&wrong), proof.verify(&wrong));
}

#[test]
fn transcript_is_built_round_by_round() {
    let mut proof = CubicSumcheckProof::with_capacity(2);
    assert!(proof.round_polys.is_empty());
    assert!(proof.rs.is_empty());
    let round = (fe(2), fe(3), fe(5), fe(7));
    let r = proof.push_round(round);
    assert_eq!(r, fe((2 * 3 * 5 * 7 + 13) * 29));
    assert_eq!(proof.round_polys, vec![round]);
    assert_eq!(proof.rs, vec![r]);
}

#[test]
fn halvings_of_a_length() {
    assert_eq!(log2_floor(0), 0);
    assert_eq!(log2_floor(1), 0);
    assert_eq!(log2_floor(2), 1);
    assert_eq!(log2_floor(3), 1);
    assert_eq!(log2_floor(4), 2);
    assert_eq!(log2_floor(1024), 10);
    assert_eq!(log2_floor(1 << 28), 28);
}
