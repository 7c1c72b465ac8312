//! The summands of a round polynomial and how partial sums combine.

use crate::field::{
    field_add, lemma_congruent_canonical, lemma_field_add_associative, lemma_congruent_mod, lemma_congruent_mul3,
    lemma_field_add_congruent, lemma_field_mul_congruent, lemma_field_sub_congruent, modulus,
    FieldElement,
};
use crate::poly::plain::{line_at, values};
use crate::sumcheck::{
    cubic_sum, cubic_term, round_values, RoundPoly, RoundValues, Tables,
};
use vstd::prelude::*;

verus! {

/// The three tables that three sequences of elements stand for.
pub open spec fn tables_of(
    eq: Seq<FieldElement>,
    a: Seq<FieldElement>,
    b: Seq<FieldElement>,
) -> Tables {
    Tables { eq: values(eq), a: values(a), b: values(b) }
}

/// The sums over the pair indices from `lo` up to `hi` at 0, 1, 2 and 3, as
/// field elements.
pub open spec fn range_values(t: Tables, lo: int, hi: int) -> RoundValues {
    (
        cubic_sum(t, lo, hi, 0) % modulus(),
        cubic_sum(t, lo, hi, 1) % modulus(),
        cubic_sum(t, lo, hi, 2) % modulus(),
        cubic_sum(t, lo, hi, 3) % modulus(),
    )
}

/// The summand of pair index `i` at 0, 1, 2 and 3, as field elements.
pub open spec fn term_values(t: Tables, i: int) -> RoundValues {
    (
        cubic_term(t, i, 0) % modulus(),
        cubic_term(t, i, 1) % modulus(),
        cubic_term(t, i, 2) % modulus(),
        cubic_term(t, i, 3) % modulus(),
    )
}

/// The sum of two rounds' values, place by place.
pub open spec fn add_rounds(x: RoundValues, y: RoundValues) -> RoundValues {
    (field_add(x.0, y.0), field_add(x.1, y.1), field_add(x.2, y.2), field_add(x.3, y.3))
}

/// The place-by-place sum is associative: however the summands of a round
/// are grouped, they add up to the same values.
pub proof fn lemma_add_rounds_associative(x: RoundValues, y: RoundValues, z: RoundValues)
    ensures
        add_rounds(add_rounds(x, y), z) == add_rounds(x, add_rounds(y, z)),
{
    lemma_field_add_associative(x.0, y.0, z.0);
    lemma_field_add_associative(x.1, y.1, z.1);
    lemma_field_add_associative(x.2, y.2, z.2);
    lemma_field_add_associative(x.3, y.3, z.3);
}

/// Zero in every place is the identity of the place-by-place sum on
/// canonical values.
pub proof fn lemma_add_rounds_identity(x: RoundValues)
    requires
        0 <= x.0 < modulus(),
        0 <= x.1 < modulus(),
        0 <= x.2 < modulus(),
        0 <= x.3 < modulus(),
    ensures
        add_rounds((0, 0, 0, 0), x) == x,
        add_rounds(x, (0, 0, 0, 0)) == x,
{
    vstd::arithmetic::div_mod::lemma_small_mod(x.0 as nat, modulus() as nat);
    vstd::arithmetic::div_mod::lemma_small_mod(x.1 as nat, modulus() as nat);
    vstd::arithmetic::div_mod::lemma_small_mod(x.2 as nat, modulus() as nat);
    vstd::arithmetic::div_mod::lemma_small_mod(x.3 as nat, modulus() as nat);
}

/// The sum of a sequence of rounds' values, place by place, from the left.
pub open spec fn fold_rounds(items: Seq<RoundValues>) -> RoundValues
    decreases items.len(),
{
    if items.len() == 0 {
        (0, 0, 0, 0)
    } else {
        add_rounds(fold_rounds(items.drop_last()), items.last())
    }
}

/// The sum of a sequence from the left holds canonical values.
pub proof fn lemma_fold_rounds_canonical(items: Seq<RoundValues>)
    ensures
        ({
            let f = fold_rounds(items);
            &&& 0 <= f.0 < modulus()
            &&& 0 <= f.1 < modulus()
            &&& 0 <= f.2 < modulus()
            &&& 0 <= f.3 < modulus()
        }),
{
    if items.len() > 0 {
        let f = fold_rounds(items.drop_last());
        let x = items.last();
        lemma_congruent_mod(f.0 + x.0);
        lemma_congruent_mod(f.1 + x.1);
        lemma_congruent_mod(f.2 + x.2);
        lemma_congruent_mod(f.3 + x.3);
    }
}

/// However a sequence is split in two, the sums of the two parts add up to
/// the sum of the whole from the left. This is why a sum that is worked out
/// part by part, in any grouping, is the sum from the left.
pub proof fn lemma_fold_rounds_concat(a: Seq<RoundValues>, b: Seq<RoundValues>)
    ensures
        fold_rounds(a + b) == add_rounds(fold_rounds(a), fold_rounds(b)),
    decreases b.len(),
{
    if b.len() == 0 {
        assert(a + b =~= a);
        lemma_fold_rounds_canonical(a);
        lemma_add_rounds_identity(fold_rounds(a));
    } else {
        lemma_fold_rounds_concat(a, b.drop_last());
        assert((a + b).drop_last() =~= a + b.drop_last());
        assert((a + b).last() == b.last());
        lemma_add_rounds_associative(fold_rounds(a), fold_rounds(b.drop_last()), b.last());
    }
}

/// The end of chunk `k` when `n` indices are cut into chunks of `c`.
pub open spec fn chunk_end(n: int, c: int, k: int) -> int {
    if (k + 1) * c < n {
        (k + 1) * c
    } else {
        n
    }
}

/// The number of chunks of `c` that `n` indices are cut into.
pub open spec fn chunk_count(n: int, c: int) -> int {
    (n + c - 1) / c
}

/// A sum over a range is the sum over its two parts.
pub proof fn lemma_cubic_sum_split(t: Tables, lo: int, mid: int, hi: int, x: int)
    requires
        lo <= mid <= hi,
    ensures
        cubic_sum(t, lo, hi, x) == cubic_sum(t, lo, mid, x) + cubic_sum(t, mid, hi, x),
    decreases hi - mid,
{
    if mid < hi {
        lemma_cubic_sum_split(t, lo, mid, hi - 1, x);
    }
}

/// The values of two neighbouring ranges add up to the values of their
/// union.
pub proof fn lemma_range_values_join(t: Tables, lo: int, mid: int, hi: int)
    requires
        lo <= mid <= hi,
    ensures
        add_rounds(range_values(t, lo, mid), range_values(t, mid, hi)) == range_values(
            t,
            lo,
            hi,
        ),
{
    lemma_cubic_sum_split(t, lo, mid, hi, 0);
    lemma_cubic_sum_split(t, lo, mid, hi, 1);
    lemma_cubic_sum_split(t, lo, mid, hi, 2);
    lemma_cubic_sum_split(t, lo, mid, hi, 3);
    vstd::arithmetic::div_mod::lemma_add_mod_noop(
        cubic_sum(t, lo, mid, 0),
        cubic_sum(t, mid, hi, 0),
        modulus(),
    );
    vstd::arithmetic::div_mod::lemma_add_mod_noop(
        cubic_sum(t, lo, mid, 1),
        cubic_sum(t, mid, hi, 1),
        modulus(),
    );
    vstd::arithmetic::div_mod::lemma_add_mod_noop(
        cubic_sum(t, lo, mid, 2),
        cubic_sum(t, mid, hi, 2),
        modulus(),
    );
    vstd::arithmetic::div_mod::lemma_add_mod_noop(
        cubic_sum(t, lo, mid, 3),
        cubic_sum(t, mid, hi, 3),
        modulus(),
    );
}

/// The values of a range and the summand of the next pair index add up to
/// the values of the range with that index.
pub proof fn lemma_range_values_step(t: Tables, lo: int, hi: int)
    requires
        lo <= hi,
    ensures
        add_rounds(range_values(t, lo, hi), term_values(t, hi)) == range_values(t, lo, hi + 1),
{
    assert(cubic_sum(t, hi, hi + 1, 0) == cubic_term(t, hi, 0)) by {
        assert(cubic_sum(t, hi, hi, 0) == 0);
    }
    assert(cubic_sum(t, hi, hi + 1, 1) == cubic_term(t, hi, 1)) by {
        assert(cubic_sum(t, hi, hi, 1) == 0);
    }
    assert(cubic_sum(t, hi, hi + 1, 2) == cubic_term(t, hi, 2)) by {
        assert(cubic_sum(t, hi, hi, 2) == 0);
    }
    assert(cubic_sum(t, hi, hi + 1, 3) == cubic_term(t, hi, 3)) by {
        assert(cubic_sum(t, hi, hi, 3) == 0);
    }
    lemma_range_values_join(t, lo, hi, hi + 1);
}

/// Summing the summands of the first `k` pair indices one by one gives the
/// values of the range from zero to `k`.
pub proof fn lemma_fold_terms(t: Tables, k: nat)
    ensures
        fold_rounds(Seq::new(k, |i: int| term_values(t, i))) == range_values(t, 0, k as int),
    decreases k,
{
    let items = Seq::new(k, |i: int| term_values(t, i));
    if k == 0 {
        vstd::arithmetic::div_mod::lemma_small_mod(0, modulus() as nat);
    } else {
        lemma_fold_terms(t, (k - 1) as nat);
        assert(items.drop_last() =~= Seq::new((k - 1) as nat, |i: int| term_values(t, i)));
        lemma_range_values_step(t, 0, k - 1);
    }
}

/// The zero of every place.
pub fn zero_round() -> (res: RoundPoly)
    ensures
        round_values(res) == (0int, 0int, 0int, 0int),
{
    (FieldElement::zero(), FieldElement::zero(), FieldElement::zero(), FieldElement::zero())
}

/// The sum of two rounds' values, place by place.
pub fn add_round_polys(x: RoundPoly, y: RoundPoly) -> (res: RoundPoly)
    ensures
        round_values(res) == add_rounds(round_values(x), round_values(y)),
{
    (x.0.add(&y.0), x.1.add(&y.1), x.2.add(&y.2), x.3.add(&y.3))
}

/// The product of three elements.
pub fn product3(x: &FieldElement, y: &FieldElement, z: &FieldElement) -> (res: FieldElement)
    ensures
        res@ == (x@ * y@ * z@) % modulus(),
{
    let xy = x.mul(y);
    let res = xy.mul(z);
    proof {
        lemma_field_mul_congruent(x@, x@, y@, y@);
        lemma_field_mul_congruent(xy@, x@ * y@, z@, z@);
        lemma_congruent_mod(x@ * y@ * z@);
        lemma_congruent_canonical(res@, (x@ * y@ * z@) % modulus());
    }
    res
}

/// The line from `lo` to `hi`, carried on past `hi`: its values at 2 and 3.
pub fn extend_line(lo: &FieldElement, hi: &FieldElement) -> (res: (FieldElement, FieldElement))
    ensures
        res.0@ == line_at(lo@, hi@, 2) % modulus(),
        res.1@ == line_at(lo@, hi@, 3) % modulus(),
{
    let m = hi.sub(lo);
    let v2 = hi.add(&m);
    let v3 = v2.add(&m);
    proof {
        lemma_field_sub_congruent(hi@, hi@, lo@, lo@);
        lemma_field_add_congruent(hi@, hi@, m@, hi@ - lo@);
        lemma_field_add_congruent(v2@, hi@ + (hi@ - lo@), m@, hi@ - lo@);
        lemma_congruent_mod(line_at(lo@, hi@, 2));
        lemma_congruent_mod(line_at(lo@, hi@, 3));
        lemma_congruent_canonical(v2@, line_at(lo@, hi@, 2) % modulus());
        lemma_congruent_canonical(v3@, line_at(lo@, hi@, 3) % modulus());
    }
    (v2, v3)
}

/// The summand of pair index `i`: the products of the three lines at 0, 1,
/// 2 and 3.
pub fn cubic_term_evals(
    eq: &Vec<FieldElement>,
    a: &Vec<FieldElement>,
    b: &Vec<FieldElement>,
    i: usize,
) -> (res: RoundPoly)
    requires
        a@.len() == eq@.len(),
        b@.len() == eq@.len(),
        i < eq@.len() / 2,
    ensures
        round_values(res) == term_values(tables_of(eq@, a@, b@), i as int),
{
    let n: usize = eq.len() / 2;
    let low: usize = i;
    let high: usize = n + i;
    let eval_0 = product3(&eq[low], &a[low], &b[low]);
    let eval_1 = product3(&eq[high], &a[high], &b[high]);
    let (eq_2, eq_3) = extend_line(&eq[low], &eq[high]);
    let (a_2, a_3) = extend_line(&a[low], &a[high]);
    let (b_2, b_3) = extend_line(&b[low], &b[high]);
    let eval_2 = product3(&eq_2, &a_2, &b_2);
    let eval_3 = product3(&eq_3, &a_3, &b_3);
    proof {
        let el = eq@[low as int]@;
        let eh = eq@[high as int]@;
        let al = a@[low as int]@;
        let ah = a@[high as int]@;
        let bl = b@[low as int]@;
        let bh = b@[high as int]@;
        lemma_congruent_mod(line_at(el, eh, 2));
        lemma_congruent_mod(line_at(al, ah, 2));
        lemma_congruent_mod(line_at(bl, bh, 2));
        lemma_congruent_mul3(
            eq_2@,
            line_at(el, eh, 2),
            a_2@,
            line_at(al, ah, 2),
            b_2@,
            line_at(bl, bh, 2),
        );
        lemma_congruent_mod(line_at(el, eh, 3));
        lemma_congruent_mod(line_at(al, ah, 3));
        lemma_congruent_mod(line_at(bl, bh, 3));
        lemma_congruent_mul3(
            eq_3@,
            line_at(el, eh, 3),
            a_3@,
            line_at(al, ah, 3),
            b_3@,
            line_at(bl, bh, 3),
        );
    }
    (eval_0, eval_1, eval_2, eval_3)
}

} // verus!
