use cubic_sumcheck::field::FieldElement;
use cubic_sumcheck::sumcheck::chunks::{bind_chunk, eval_chunk};
use cubic_sumcheck::sumcheck::simd::{
    chunk_size_for, repeated, unsafe_alloc_vec, unsafe_allocate_zero_vec,
};
use cubic_sumcheck::vectorized::{
    add_vec, add_vec_inplace, inner_product, mul_vec, mul_vec_inplace, sub_vec, sub_vec_inplace,
};

fn fe(x: u64) -> FieldElement {
    FieldElement::from_u64(x)
}

fn table(xs: &[u64]) -> Vec<FieldElement> {
    xs.iter().map(|x| fe(*x)).collect()
}

#[test]
fn buffers_hold_zeros() {
    assert_eq!(unsafe_alloc_vec(0), vec![]);
    assert_eq!(unsafe_alloc_vec(3), table(&[0, 0, 0]));
    assert_eq!(unsafe_allocate_zero_vec(0), vec![]);
    assert_eq!(unsafe_allocate_zero_vec(5), table(&[0, 0, 0, 0, 0]));
}

#[test]
fn vector_operations_work_place_by_place() {
    let a = table(&[10, 20, 30]);
    let b = table(&[1, 2, 3]);
    let mut out = unsafe_alloc_vec(3);
    add_vec(&a, &b, &mut out);
    assert_eq!(out, table(&[11, 22, 33]));
    sub_vec(&a, &b, &mut out);
    assert_eq!(out, table(&[9, 18, 27]));
    mul_vec(&a, &b, &mut out);
    assert_eq!(out, table(&[10, 40, 90]));

    let mut acc = a.clone();
    add_vec_inplace(&mut acc, &b);
    assert_eq!(acc, table(&[11, 22, 33]));
    sub_vec_inplace(&mut acc, &b);
    assert_eq!(acc, a);
    mul_vec_inplace(&mut acc, &b);
    assert_eq!(acc, table(&[10, 40, 90]));
}

#[test]
fn inner_product_sums_the_products() {
    assert_eq!(inner_product(&table(&[1, 2, 3]), &table(&[4, 5, 6])), fe(32));
    assert_eq!(inner_product(&[], &[]), fe(0));
}

#[test]
fn chunk_values_by_hand() {
    // lines 1 -> 3 and 2 -> 5 in every table
    let low = table(&[1, 2]);
    let high = table(&[3, 5]);
    let res = eval_chunk(&low, &high, &low, &high, &low, &high);
    assert_eq!(res.0, fe(1 + 8));
    assert_eq!(res.1, fe(27 + 125));
    assert_eq!(res.2, fe(5 * 5 * 5 + 8 * 8 * 8));
    assert_eq!(res.3, fe(7 * 7 * 7 + 11 * 11 * 11));
}

#[test]
fn chunk_binding_by_hand() {
    let mut left = table(&[11, 12, 13, 14]);
    let mut right = table(&[15, 16, 17, 18]);
    let r = repeated(&fe(20), 6);
    assert_eq!(r.len(), 6);
    bind_chunk(&mut left, &mut right, &r);
    assert_eq!(left, table(&[91, 92, 93, 94]));
}

#[test]
fn chunk_sizes() {
    assert_eq!(chunk_size_for(1024, 4, 16), 18);
    assert_eq!(chunk_size_for(1024, 4, 32), 10);
    assert_eq!(chunk_size_for(0, 4, 32), 2);
    assert_eq!(chunk_size_for(3, 8, 16), 2);
    assert_eq!(chunk_size_for(1 << 20, 8, 32), 512);
    assert_eq!(chunk_size_for(510 * 16, 1, 16), 512);
    assert_eq!(chunk_size_for(509 * 16, 1, 16), 511);
    // no workers count as one
    assert_eq!(chunk_size_for(1024, 0, 16), 66);
}
