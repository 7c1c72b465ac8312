use cubic_sumcheck::field::FieldElement;
use cubic_sumcheck::poly::plain::{is_power_of_two, rand_fr, rand_vec, DensePolynomial};
use cubic_sumcheck::sumcheck::simd::SIMDPolynomial;
use cubic_sumcheck::sumcheck::SumcheckError;

fn fe(x: u64) -> FieldElement {
    FieldElement::from_u64(x)
}

fn table(xs: &[u64]) -> Vec<FieldElement> {
    xs.iter().map(|x| fe(*x)).collect()
}

fn counting(n: u64) -> Vec<FieldElement> {
    (0..n).map(|i| fe(i * 7 + 3)).collect()
}

#[test]
fn bind_bottom_of_eight_values() {
    let mut poly = DensePolynomial::new(table(&[11, 12, 13, 14, 15, 16, 17, 18])).unwrap();
    poly.bound_poly_var_bot(&fe(20));
    assert_eq!(poly.Z, table(&[31, 33, 35, 37]));
}

#[test]
fn bind_top_of_eight_values() {
    let mut poly = DensePolynomial::new(table(&[11, 12, 13, 14, 15, 16, 17, 18])).unwrap();
    poly.bound_poly_var_top(&fe(20));
    assert_eq!(poly.Z, table(&[91, 92, 93, 94]));
}

#[test]
fn parallel_bind_top_of_eight_values() {
    let mut poly = DensePolynomial::new(table(&[11, 12, 13, 14, 15, 16, 17, 18])).unwrap();
    poly.bound_poly_var_top_par(&fe(20));
    assert_eq!(poly.Z, table(&[91, 92, 93, 94]));
}

#[test]
fn chunked_bind_top_of_eight_values() {
    let mut poly = SIMDPolynomial { Z: table(&[11, 12, 13, 14, 15, 16, 17, 18]) };
    poly.bound_poly_var_top_par(&fe(20));
    assert_eq!(poly.Z, table(&[91, 92, 93, 94]));
}

#[test]
fn bind_with_a_falling_line_wraps() {
    // 5 + 3 * (2 - 5) = -4
    let mut top = DensePolynomial::new(table(&[5, 2])).unwrap();
    top.bound_poly_var_top(&fe(3));
    assert_eq!(top.Z, vec![fe(0).sub(&fe(4))]);
    let mut bot = DensePolynomial::new(table(&[5, 2])).unwrap();
    bot.bound_poly_var_bot(&fe(3));
    assert_eq!(bot.Z, vec![fe(0).sub(&fe(4))]);
}

#[test]
fn binding_halves_the_length() {
    let mut len = 64usize;
    let mut top = DensePolynomial::new(counting(64)).unwrap();
    let mut bot = DensePolynomial::new(counting(64)).unwrap();
    let mut par = DensePolynomial::new(counting(64)).unwrap();
    while len > 1 {
        top.bound_poly_var_top(&fe(9));
        bot.bound_poly_var_bot(&fe(9));
        par.bound_poly_var_top_par(&fe(9));
        len /= 2;
        assert_eq!(top.len(), len);
        assert_eq!(bot.len(), len);
        assert_eq!(par.len(), len);
        assert_eq!(top.Z.len(), len);
    }
}

#[test]
fn all_ways_to_bind_the_top_agree() {
    for log in 1..=11u32 {
        let n = 1u64 << log;
        let r = fe(1_000_003);
        let mut serial = DensePolynomial::new(counting(n)).unwrap();
        let mut par = DensePolynomial::new(counting(n)).unwrap();
        let mut chunked = SIMDPolynomial { Z: counting(n) };
        serial.bound_poly_var_top(&r);
        par.bound_poly_var_top_par(&r);
        chunked.bound_poly_var_top_par(&r);
        assert_eq!(serial.Z, par.Z);
        assert_eq!(serial.Z, chunked.Z);
    }
}

#[test]
fn top_and_bottom_are_different_bindings() {
    let mut top = DensePolynomial::new(table(&[1, 2, 4, 8])).unwrap();
    let mut bot = DensePolynomial::new(table(&[1, 2, 4, 8])).unwrap();
    top.bound_poly_var_top(&fe(2));
    bot.bound_poly_var_bot(&fe(2));
    assert_eq!(top.Z, table(&[7, 14]));
    assert_eq!(bot.Z, table(&[3, 12]));
}

#[test]
fn index_follows_the_binding() {
    let mut poly = DensePolynomial::new(table(&[11, 12, 13, 14])).unwrap();
    assert_eq!(*poly.index(3), fe(14));
    poly.bound_poly_var_top(&fe(1));
    assert_eq!(poly.len(), 2);
    assert_eq!(*poly.index(0), fe(13));
    assert_eq!(*poly.index(1), fe(14));
}

#[test]
fn length_has_to_be_a_power_of_two() {
    assert_eq!(DensePolynomial::new(vec![]).unwrap_err(), SumcheckError::InvalidLength);
    assert_eq!(DensePolynomial::new(counting(3)).unwrap_err(), SumcheckError::InvalidLength);
    assert_eq!(DensePolynomial::new(counting(6)).unwrap_err(), SumcheckError::InvalidLength);
    assert_eq!(DensePolynomial::new(counting(1023)).unwrap_err(), SumcheckError::InvalidLength);
    for log in 0..=16u32 {
        let poly = DensePolynomial::new(counting(1 << log)).unwrap();
        assert_eq!(poly.len(), 1 << log);
    }
}

#[test]
fn power_of_two_test() {
    assert!(!is_power_of_two(0));
    assert!(is_power_of_two(1));
    assert!(is_power_of_two(2));
    assert!(!is_power_of_two(3));
    assert!(is_power_of_two(4));
    assert!(!is_power_of_two(12));
    assert!(is_power_of_two(1 << 40));
    assert!(!is_power_of_two((1 << 40) + 1));
    assert!(!is_power_of_two(usize::MAX));
}

#[test]
fn random_tables_have_the_length_asked_for() {
    for log in 0..=6u32 {
        let v = rand_vec(1 << log);
        assert_eq!(v.len(), 1 << log);
        for e in v.iter() {
            assert!(FieldElement::from_limbs(e.to_limbs()).is_some());
        }
    }
    let e = rand_fr();
    assert!(FieldElement::from_limbs(e.to_limbs()).is_some());
}
