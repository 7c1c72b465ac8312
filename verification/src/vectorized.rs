//! Field arithmetic on whole vectors: sums, differences and products place
//! by place, into a buffer or in place, and inner products.

use crate::field::{
    congruent, field_add, field_mul, field_sub, lemma_congruent_add, lemma_congruent_canonical,
    lemma_congruent_mod, lemma_congruent_mul, lemma_congruent_mul3, lemma_field_add_congruent,
    lemma_field_mul_congruent, modulus, FieldElement,
};
use crate::poly::plain::values;
use vstd::prelude::*;

verus! {

/// The sum of the first `k` values of a sequence.
pub open spec fn seq_sum(w: Seq<int>, k: int) -> int
    decreases k,
{
    if k <= 0 {
        0
    } else {
        seq_sum(w, k - 1) + w[k - 1]
    }
}

/// The products, place by place, of two sequences.
pub open spec fn products(u: Seq<int>, v: Seq<int>) -> Seq<int> {
    Seq::new(u.len(), |i: int| u[i] * v[i])
}

/// The products, place by place, of three sequences.
pub open spec fn triple_products(u: Seq<int>, v: Seq<int>, w: Seq<int>) -> Seq<int> {
    Seq::new(u.len(), |i: int| u[i] * v[i] * w[i])
}

/// Two sequences stand for the same field elements, place by place.
pub open spec fn seq_congruent(u: Seq<int>, ui: Seq<int>) -> bool {
    u.len() == ui.len() && forall|i: int| 0 <= i < u.len() ==> congruent(#[trigger] u[i], ui[i])
}

/// Sums of sequences whose values are congruent place by place are
/// congruent.
pub proof fn lemma_seq_sum_congruent(u: Seq<int>, w: Seq<int>, k: int)
    requires
        0 <= k <= u.len(),
        k <= w.len(),
        forall|i: int| 0 <= i < k ==> congruent(#[trigger] u[i], w[i]),
    ensures
        congruent(seq_sum(u, k), seq_sum(w, k)),
    decreases k,
{
    if k > 0 {
        lemma_seq_sum_congruent(u, w, k - 1);
        lemma_congruent_add(seq_sum(u, k - 1), seq_sum(w, k - 1), u[k - 1], w[k - 1]);
    }
}

/// The sum of the products of three sequences stands for the sum of the
/// products of what they stand for.
pub proof fn lemma_triple_sum_congruent(
    u: Seq<int>,
    v: Seq<int>,
    w: Seq<int>,
    ui: Seq<int>,
    vi: Seq<int>,
    wi: Seq<int>,
)
    requires
        v.len() == u.len(),
        w.len() == u.len(),
        seq_congruent(u, ui),
        seq_congruent(v, vi),
        seq_congruent(w, wi),
    ensures
        seq_sum(triple_products(u, v, w), u.len() as int) % modulus() == seq_sum(
            triple_products(ui, vi, wi),
            u.len() as int,
        ) % modulus(),
{
    let p = triple_products(u, v, w);
    let q = triple_products(ui, vi, wi);
    assert forall|i: int| 0 <= i < u.len() implies congruent(#[trigger] p[i], q[i]) by {
        lemma_congruent_mul3(u[i], ui[i], v[i], vi[i], w[i], wi[i]);
    }
    lemma_seq_sum_congruent(p, q, u.len() as int);
}

/// Writes the sums, place by place, of `a` and `b` to `out`.
pub fn add_vec(a: &[FieldElement], b: &[FieldElement], out: &mut [FieldElement])
    requires
        b@.len() == a@.len(),
        old(out)@.len() == a@.len(),
    ensures
        final(out)@.len() == a@.len(),
        forall|i: int|
            0 <= i < a@.len() ==> (#[trigger] final(out)@[i])@ == field_add(a@[i]@, b@[i]@),
{
    let n: usize = a.len();
    let mut i: usize = 0;
    while i < n
        invariant
            0 <= i <= n,
            n == a@.len(),
            b@.len() == n,
            out@.len() == n,
            forall|j: int|
                0 <= j < i ==> (#[trigger] out@[j])@ == field_add(a@[j]@, b@[j]@),
        decreases n - i,
    {
        out[i] = a[i].add(&b[i]);
        i += 1;
    }
}

/// Writes the differences, place by place, of `a` and `b` to `out`.
pub fn sub_vec(a: &[FieldElement], b: &[FieldElement], out: &mut [FieldElement])
    requires
        b@.len() == a@.len(),
        old(out)@.len() == a@.len(),
    ensures
        final(out)@.len() == a@.len(),
        forall|i: int|
            0 <= i < a@.len() ==> (#[trigger] final(out)@[i])@ == field_sub(a@[i]@, b@[i]@),
{
    let n: usize = a.len();
    let mut i: usize = 0;
    while i < n
        invariant
            0 <= i <= n,
            n == a@.len(),
            b@.len() == n,
            out@.len() == n,
            forall|j: int|
                0 <= j < i ==> (#[trigger] out@[j])@ == field_sub(a@[j]@, b@[j]@),
        decreases n - i,
    {
        out[i] = a[i].sub(&b[i]);
        i += 1;
    }
}

/// Writes the products, place by place, of `a` and `b` to `out`.
pub fn mul_vec(a: &[FieldElement], b: &[FieldElement], out: &mut [FieldElement])
    requires
        b@.len() == a@.len(),
        old(out)@.len() == a@.len(),
    ensures
        final(out)@.len() == a@.len(),
        forall|i: int|
            0 <= i < a@.len() ==> (#[trigger] final(out)@[i])@ == field_mul(a@[i]@, b@[i]@),
{
    let n: usize = a.len();
    let mut i: usize = 0;
    while i < n
        invariant
            0 <= i <= n,
            n == a@.len(),
            b@.len() == n,
            out@.len() == n,
            forall|j: int|
                0 <= j < i ==> (#[trigger] out@[j])@ == field_mul(a@[j]@, b@[j]@),
        decreases n - i,
    {
        out[i] = a[i].mul(&b[i]);
        i += 1;
    }
}

/// Replaces each element of `a` by its sum with the element of `b` at the
/// same place.
pub fn add_vec_inplace(a: &mut [FieldElement], b: &[FieldElement])
    requires
        b@.len() == old(a)@.len(),
    ensures
        final(a)@.len() == old(a)@.len(),
        forall|i: int|
            0 <= i < old(a)@.len() ==> (#[trigger] final(a)@[i])@ == field_add(
                old(a)@[i]@,
                b@[i]@,
            ),
{
    let n: usize = a.len();
    let mut i: usize = 0;
    while i < n
        invariant
            0 <= i <= n,
            n == old(a)@.len(),
            b@.len() == n,
            a@.len() == n,
            forall|j: int| i <= j < n ==> a@[j] == old(a)@[j],
            forall|j: int|
                0 <= j < i ==> (#[trigger] a@[j])@ == field_add(old(a)@[j]@, b@[j]@),
        decreases n - i,
    {
        a[i] = a[i].add(&b[i]);
        i += 1;
    }
}

/// Replaces each element of `a` by its difference to the element of `b` at the
/// same place.
pub fn sub_vec_inplace(a: &mut [FieldElement], b: &[FieldElement])
    requires
        b@.len() == old(a)@.len(),
    ensures
        final(a)@.len() == old(a)@.len(),
        forall|i: int|
            0 <= i < old(a)@.len() ==> (#[trigger] final(a)@[i])@ == field_sub(
                old(a)@[i]@,
                b@[i]@,
            ),
{
    let n: usize = a.len();
    let mut i: usize = 0;
    while i < n
        invariant
            0 <= i <= n,
            n == old(a)@.len(),
            b@.len() == n,
            a@.len() == n,
            forall|j: int| i <= j < n ==> a@[j] == old(a)@[j],
            forall|j: int|
                0 <= j < i ==> (#[trigger] a@[j])@ == field_sub(old(a)@[j]@, b@[j]@),
        decreases n - i,
    {
        a[i] = a[i].sub(&b[i]);
        i += 1;
    }
}

/// Replaces each element of `a` by its product with the element of `b` at the
/// same place.
pub fn mul_vec_inplace(a: &mut [FieldElement], b: &[FieldElement])
    requires
        b@.len() == old(a)@.len(),
    ensures
        final(a)@.len() == old(a)@.len(),
        forall|i: int|
            0 <= i < old(a)@.len() ==> (#[trigger] final(a)@[i])@ == field_mul(
                old(a)@[i]@,
                b@[i]@,
            ),
{
    let n: usize = a.len();
    let mut i: usize = 0;
    while i < n
        invariant
            0 <= i <= n,
            n == old(a)@.len(),
            b@.len() == n,
            a@.len() == n,
            forall|j: int| i <= j < n ==> a@[j] == old(a)@[j],
            forall|j: int|
                0 <= j < i ==> (#[trigger] a@[j])@ == field_mul(old(a)@[j]@, b@[j]@),
        decreases n - i,
    {
        a[i] = a[i].mul(&b[i]);
        i += 1;
    }
}

/// The inner product of `a` and `b`: the sum of the products place by place.
pub fn inner_product(a: &[FieldElement], b: &[FieldElement]) -> (res: FieldElement)
    requires
        b@.len() == a@.len(),
    ensures
        res@ == seq_sum(products(values(a@), values(b@)), a@.len() as int) % modulus(),
{
    let n: usize = a.len();
    let mut acc = FieldElement::zero();
    let ghost p = products(values(a@), values(b@));
    let mut i: usize = 0;
    proof {
        lemma_congruent_mod(0);
    }
    while i < n
        invariant
            0 <= i <= n,
            n == a@.len(),
            b@.len() == n,
            p == products(values(a@), values(b@)),
            congruent(acc@, seq_sum(p, i as int)),
        decreases n - i,
    {
        let t = a[i].mul(&b[i]);
        let next = acc.add(&t);
        proof {
            lemma_congruent_mod(a@[i as int]@ * b@[i as int]@);
            lemma_field_add_congruent(acc@, seq_sum(p, i as int), t@, p[i as int]);
        }
        acc = next;
        i += 1;
    }
    proof {
        use_type_invariant(&acc);
        lemma_congruent_mod(seq_sum(p, n as int));
        lemma_congruent_canonical(acc@, seq_sum(p, n as int) % modulus());
    }
    acc
}

/// The sum of the products, place by place, of three vectors. `buff` is
/// written over.
pub fn product_sum(
    u: &[FieldElement],
    v: &[FieldElement],
    w: &[FieldElement],
    buff: &mut [FieldElement],
) -> (res: FieldElement)
    requires
        v@.len() == u@.len(),
        w@.len() == u@.len(),
        old(buff)@.len() == u@.len(),
    ensures
        final(buff)@.len() == u@.len(),
        forall|i: int|
            0 <= i < u@.len() ==> (#[trigger] final(buff)@[i])@ == field_mul(u@[i]@, v@[i]@),
        res@ == seq_sum(triple_products(values(u@), values(v@), values(w@)), u@.len() as int)
            % modulus(),
{
    mul_vec(u, v, buff);
    let res = inner_product(buff, w);
    proof {
        let p = products(values(buff@), values(w@));
        let q = triple_products(values(u@), values(v@), values(w@));
        assert forall|i: int| 0 <= i < u@.len() implies congruent(#[trigger] p[i], q[i]) by {
            lemma_field_mul_congruent(u@[i]@, u@[i]@, v@[i]@, v@[i]@);
            lemma_congruent_mul(buff@[i]@, u@[i]@ * v@[i]@, w@[i]@, w@[i]@);
        }
        lemma_seq_sum_congruent(p, q, u@.len() as int);
    }
    res
}

/// The sum of the products, place by place, of three vectors, the first of
/// which is written over.
pub fn product_sum_inplace(u: &mut [FieldElement], v: &[FieldElement], w: &[FieldElement]) -> (res:
    FieldElement)
    requires
        v@.len() == old(u)@.len(),
        w@.len() == old(u)@.len(),
    ensures
        final(u)@.len() == old(u)@.len(),
        forall|i: int|
            0 <= i < old(u)@.len() ==> (#[trigger] final(u)@[i])@ == field_mul(
                old(u)@[i]@,
                v@[i]@,
            ),
        res@ == seq_sum(
            triple_products(values(old(u)@), values(v@), values(w@)),
            old(u)@.len() as int,
        ) % modulus(),
{
    let ghost u0 = u@;
    mul_vec_inplace(u, v);
    let res = inner_product(u, w);
    proof {
        let p = products(values(u@), values(w@));
        let q = triple_products(values(u0), values(v@), values(w@));
        assert forall|i: int| 0 <= i < u0.len() implies congruent(#[trigger] p[i], q[i]) by {
            lemma_field_mul_congruent(u0[i]@, u0[i]@, v@[i]@, v@[i]@);
            lemma_congruent_mul(u@[i]@, u0[i]@ * v@[i]@, w@[i]@, w@[i]@);
        }
        lemma_seq_sum_congruent(p, q, u0.len() as int);
    }
    res
}

} // verus!
