//! The work on one chunk of pair indices, by whole-vector operations, and
//! how the chunks of a table add up to the whole.

use crate::field::{
    congruent, field_add, field_mul, field_sub, lemma_congruent_canonical, lemma_congruent_mod,
    lemma_field_add_congruent, lemma_field_mul_congruent, lemma_field_sub_congruent, modulus,
    FieldElement,
};
use crate::poly::plain::{line_at, values};
use crate::sumcheck::simd::unsafe_alloc_vec;
use crate::sumcheck::terms::{
    chunk_count, chunk_end, fold_rounds, lemma_range_values_join, range_values,
};
use crate::sumcheck::{cubic_sum, round_evals, round_values, RoundPoly, RoundValues, Tables};
use crate::vectorized::{
    add_vec, add_vec_inplace, lemma_triple_sum_congruent, mul_vec_inplace, product_sum,
    product_sum_inplace, seq_congruent, seq_sum, sub_vec, sub_vec_inplace, triple_products,
};
use vstd::prelude::*;
use vstd::slice::slice_subrange;

verus! {

/// The low and the high ends of the lines of one chunk of pair indices,
/// for each of the three tables.
pub struct ChunkView {
    pub eq_low: Seq<int>,
    pub eq_high: Seq<int>,
    pub a_low: Seq<int>,
    pub a_high: Seq<int>,
    pub b_low: Seq<int>,
    pub b_high: Seq<int>,
}

/// The values at `x` of the lines from each low end to the high end at the
/// same place.
pub open spec fn lines_at(lo: Seq<int>, hi: Seq<int>, x: int) -> Seq<int> {
    Seq::new(lo.len(), |i: int| line_at(lo[i], hi[i], x))
}

/// The products of the chunk's three lines at `x`, one for each of its pair
/// indices.
pub open spec fn chunk_terms(c: ChunkView, x: int) -> Seq<int> {
    triple_products(
        lines_at(c.eq_low, c.eq_high, x),
        lines_at(c.a_low, c.a_high, x),
        lines_at(c.b_low, c.b_high, x),
    )
}

/// The sums of the chunk's products at 0, 1, 2 and 3, as field elements.
pub open spec fn chunk_values(c: ChunkView) -> RoundValues {
    (
        seq_sum(chunk_terms(c, 0), c.eq_low.len() as int) % modulus(),
        seq_sum(chunk_terms(c, 1), c.eq_low.len() as int) % modulus(),
        seq_sum(chunk_terms(c, 2), c.eq_low.len() as int) % modulus(),
        seq_sum(chunk_terms(c, 3), c.eq_low.len() as int) % modulus(),
    )
}

/// A high end plus the step of the line stands for the line at 2, and one
/// more step for the line at 3.
pub proof fn lemma_line_steps(lo: int, hi: int)
    ensures
        congruent(field_add(hi, field_sub(hi, lo)), line_at(lo, hi, 2)),
        congruent(
            field_add(field_add(hi, field_sub(hi, lo)), field_sub(hi, lo)),
            line_at(lo, hi, 3),
        ),
{
    lemma_field_sub_congruent(hi, hi, lo, lo);
    lemma_field_add_congruent(hi, hi, field_sub(hi, lo), hi - lo);
    lemma_field_add_congruent(
        field_add(hi, field_sub(hi, lo)),
        hi + (hi - lo),
        field_sub(hi, lo),
        hi - lo,
    );
}

/// Writes the step of each line to `step` and the line's value at 2 to
/// `second`.
pub fn second_points(
    low: &[FieldElement],
    high: &[FieldElement],
    step: &mut [FieldElement],
    second: &mut [FieldElement],
)
    requires
        high@.len() == low@.len(),
        old(step)@.len() == low@.len(),
        old(second)@.len() == low@.len(),
    ensures
        final(step)@.len() == low@.len(),
        final(second)@.len() == low@.len(),
        forall|i: int|
            0 <= i < low@.len() ==> (#[trigger] final(step)@[i])@ == field_sub(
                high@[i]@,
                low@[i]@,
            ),
        forall|i: int|
            0 <= i < low@.len() ==> (#[trigger] final(second)@[i])@ == field_add(
                high@[i]@,
                final(step)@[i]@,
            ),
        seq_congruent(values(final(second)@), lines_at(values(low@), values(high@), 2)),
        forall|i: int|
            0 <= i < low@.len() ==> congruent(
                field_add((#[trigger] final(second)@[i])@, final(step)@[i]@),
                line_at(low@[i]@, high@[i]@, 3),
            ),
{
    sub_vec(high, low, step);
    add_vec(high, step, second);
    proof {
        assert forall|i: int| 0 <= i < low@.len() implies congruent(
            #[trigger] values(second@)[i],
            lines_at(values(low@), values(high@), 2)[i],
        ) by {
            lemma_line_steps(low@[i]@, high@[i]@);
        }
        assert forall|i: int| 0 <= i < low@.len() implies congruent(
            field_add((#[trigger] second@[i])@, step@[i]@),
            line_at(low@[i]@, high@[i]@, 3),
        ) by {
            lemma_line_steps(low@[i]@, high@[i]@);
        }
    }
}

/// Elements that are one step short of the lines' values at 3 stand for
/// those values once the step is added.
proof fn lemma_third_points(
    second: Seq<FieldElement>,
    step: Seq<FieldElement>,
    third: Seq<FieldElement>,
    lo: Seq<int>,
    hi: Seq<int>,
)
    requires
        step.len() == second.len(),
        third.len() == second.len(),
        lo.len() == second.len(),
        hi.len() == second.len(),
        forall|i: int|
            0 <= i < second.len() ==> congruent(
                field_add((#[trigger] second[i])@, step[i]@),
                line_at(lo[i], hi[i], 3),
            ),
        forall|i: int|
            0 <= i < second.len() ==> (#[trigger] third[i])@ == field_add(second[i]@, step[i]@),
    ensures
        seq_congruent(values(third), lines_at(lo, hi, 3)),
{
    assert forall|i: int| 0 <= i < second.len() implies congruent(
        #[trigger] values(third)[i],
        lines_at(lo, hi, 3)[i],
    ) by {}
}

/// The values of one chunk of pair indices: the sums of the products of its
/// three lines at 0, 1, 2 and 3, by whole-vector operations.
pub fn eval_chunk(
    eq_low: &[FieldElement],
    eq_high: &[FieldElement],
    a_low: &[FieldElement],
    a_high: &[FieldElement],
    b_low: &[FieldElement],
    b_high: &[FieldElement],
) -> (res: RoundPoly)
    requires
        eq_high@.len() == eq_low@.len(),
        a_low@.len() == eq_low@.len(),
        a_high@.len() == eq_low@.len(),
        b_low@.len() == eq_low@.len(),
        b_high@.len() == eq_low@.len(),
    ensures
        round_values(res) == chunk_values(
            chunk_view(eq_low@, eq_high@, a_low@, a_high@, b_low@, b_high@),
        ),
{
    let chunk_size: usize = eq_low.len();
    let ghost c = chunk_view(eq_low@, eq_high@, a_low@, a_high@, b_low@, b_high@);
    let mut buff = unsafe_alloc_vec(chunk_size);
    let eval_0 = product_sum(eq_low, a_low, b_low, buff.as_mut_slice());
    let eval_1 = product_sum(eq_high, a_high, b_high, buff.as_mut_slice());
    proof {
        assert(chunk_terms(c, 0) =~= triple_products(c.eq_low, c.a_low, c.b_low));
        assert(chunk_terms(c, 1) =~= triple_products(c.eq_high, c.a_high, c.b_high));
    }
    let mut eq_m = unsafe_alloc_vec(chunk_size);
    let mut a_m = unsafe_alloc_vec(chunk_size);
    let mut b_m = unsafe_alloc_vec(chunk_size);
    let mut eq_2 = unsafe_alloc_vec(chunk_size);
    let mut a_2 = unsafe_alloc_vec(chunk_size);
    let mut b_2 = unsafe_alloc_vec(chunk_size);
    second_points(eq_low, eq_high, eq_m.as_mut_slice(), eq_2.as_mut_slice());
    second_points(a_low, a_high, a_m.as_mut_slice(), a_2.as_mut_slice());
    second_points(b_low, b_high, b_m.as_mut_slice(), b_2.as_mut_slice());
    let eval_2 = product_sum(eq_2.as_slice(), a_2.as_slice(), b_2.as_slice(), buff.as_mut_slice());
    proof {
        lemma_triple_sum_congruent(
            values(eq_2@),
            values(a_2@),
            values(b_2@),
            lines_at(c.eq_low, c.eq_high, 2),
            lines_at(c.a_low, c.a_high, 2),
            lines_at(c.b_low, c.b_high, 2),
        );
    }
    let ghost eq_second = eq_2@;
    let ghost a_second = a_2@;
    let ghost b_second = b_2@;
    add_vec_inplace(eq_2.as_mut_slice(), eq_m.as_slice());
    add_vec_inplace(a_2.as_mut_slice(), a_m.as_slice());
    add_vec_inplace(b_2.as_mut_slice(), b_m.as_slice());
    proof {
        lemma_third_points(eq_second, eq_m@, eq_2@, c.eq_low, c.eq_high);
        lemma_third_points(a_second, a_m@, a_2@, c.a_low, c.a_high);
        lemma_third_points(b_second, b_m@, b_2@, c.b_low, c.b_high);
        lemma_triple_sum_congruent(
            values(eq_2@),
            values(a_2@),
            values(b_2@),
            lines_at(c.eq_low, c.eq_high, 3),
            lines_at(c.a_low, c.a_high, 3),
            lines_at(c.b_low, c.b_high, 3),
        );
    }
    let eval_3 = product_sum_inplace(eq_2.as_mut_slice(), a_2.as_slice(), b_2.as_slice());
    (eval_0, eval_1, eval_2, eval_3)
}

/// Binds one chunk of lines: each low end is moved to the value of its line
/// at the element of `r` at the same place. The high ends are used up.
pub fn bind_chunk(left: &mut [FieldElement], right: &mut [FieldElement], r: &[FieldElement])
    requires
        old(right)@.len() == old(left)@.len(),
        old(left)@.len() <= r@.len(),
    ensures
        final(left)@.len() == old(left)@.len(),
        final(right)@.len() == old(right)@.len(),
        forall|i: int|
            0 <= i < old(left)@.len() ==> (#[trigger] final(right)@[i])@ == field_mul(
                field_sub(old(right)@[i]@, old(left)@[i]@),
                r@[i]@,
            ),
        forall|i: int|
            0 <= i < old(left)@.len() ==> (#[trigger] final(left)@[i])@ == line_at(
                old(left)@[i]@,
                old(right)@[i]@,
                r@[i]@,
            ) % modulus(),
{
    let chunk_size: usize = left.len();
    let ghost lo = left@;
    let ghost hi = right@;
    sub_vec_inplace(right, left);
    let head = slice_subrange(r, 0, chunk_size);
    mul_vec_inplace(right, head);
    add_vec_inplace(left, right);
    proof {
        assert forall|i: int| 0 <= i < chunk_size implies (#[trigger] left@[i])@ == line_at(
            lo[i]@,
            hi[i]@,
            r@[i]@,
        ) % modulus() by {
            let step = field_sub(hi[i]@, lo[i]@);
            lemma_field_sub_congruent(hi[i]@, hi[i]@, lo[i]@, lo[i]@);
            lemma_field_mul_congruent(step, hi[i]@ - lo[i]@, r@[i]@, r@[i]@);
            lemma_field_add_congruent(lo[i]@, lo[i]@, right@[i]@, (hi[i]@ - lo[i]@) * r@[i]@);
            assert((hi[i]@ - lo[i]@) * r@[i]@ == r@[i]@ * (hi[i]@ - lo[i]@)) by (nonlinear_arith);
            lemma_congruent_mod(line_at(lo[i]@, hi[i]@, r@[i]@));
            lemma_congruent_canonical(left@[i]@, line_at(lo[i]@, hi[i]@, r@[i]@) % modulus());
        }
    }
}

/// The six sequences of values that one chunk's slices stand for.
pub open spec fn chunk_view(
    eq_low: Seq<FieldElement>,
    eq_high: Seq<FieldElement>,
    a_low: Seq<FieldElement>,
    a_high: Seq<FieldElement>,
    b_low: Seq<FieldElement>,
    b_high: Seq<FieldElement>,
) -> ChunkView {
    ChunkView {
        eq_low: values(eq_low),
        eq_high: values(eq_high),
        a_low: values(a_low),
        a_high: values(a_high),
        b_low: values(b_low),
        b_high: values(b_high),
    }
}

/// The two halves of each of the three tables: the low ends of all lines
/// and, at the same places, their high ends.
pub open spec fn halves_of(t: Tables) -> ChunkView {
    let n = (t.eq.len() / 2) as int;
    ChunkView {
        eq_low: t.eq.subrange(0, n),
        eq_high: t.eq.subrange(n, 2 * n),
        a_low: t.a.subrange(0, n),
        a_high: t.a.subrange(n, 2 * n),
        b_low: t.b.subrange(0, n),
        b_high: t.b.subrange(n, 2 * n),
    }
}

/// The places from `lo` up to `hi` of each of the six sequences.
pub open spec fn chunk_range(h: ChunkView, lo: int, hi: int) -> ChunkView {
    ChunkView {
        eq_low: h.eq_low.subrange(lo, hi),
        eq_high: h.eq_high.subrange(lo, hi),
        a_low: h.a_low.subrange(lo, hi),
        a_high: h.a_high.subrange(lo, hi),
        b_low: h.b_low.subrange(lo, hi),
        b_high: h.b_high.subrange(lo, hi),
    }
}

/// Chunk `k` of six sequences of one length that are cut into chunks of
/// `c`.
pub open spec fn chunk_of(h: ChunkView, c: int, k: int) -> ChunkView {
    chunk_range(h, k * c, chunk_end(h.eq_low.len() as int, c, k))
}

/// The values of the chunks, one after the other.
pub open spec fn chunk_items(h: ChunkView, c: int) -> Seq<RoundValues> {
    Seq::new(
        chunk_count(h.eq_low.len() as int, c) as nat,
        |k: int| chunk_values(chunk_of(h, c, k)),
    )
}

/// The chunks that `n` indices are cut into start below `n`, and the last
/// one ends at `n`.
pub proof fn lemma_chunk_bounds(n: int, c: int, k: int)
    requires
        0 <= n,
        0 < c,
        0 <= k < chunk_count(n, c),
    ensures
        0 <= k * c < n,
        k * c < chunk_end(n, c, k) <= n,
        k + 1 < chunk_count(n, c) ==> chunk_end(n, c, k) == (k + 1) * c,
        k + 1 == chunk_count(n, c) ==> chunk_end(n, c, k) == n,
{
    let count = chunk_count(n, c);
    vstd::arithmetic::div_mod::lemma_fundamental_div_mod(n + c - 1, c);
    vstd::arithmetic::div_mod::lemma_mod_bound(n + c - 1, c);
    assert(k * c <= (count - 1) * c) by (nonlinear_arith)
        requires
            0 <= k <= count - 1,
            0 < c,
    ;
    assert((count - 1) * c == c * count - c) by (nonlinear_arith);
    assert(0 <= k * c) by (nonlinear_arith)
        requires
            0 <= k,
            0 < c,
    ;
    assert((k + 1) * c == k * c + c) by (nonlinear_arith);
    if k + 1 < count {
        assert((k + 1) * c <= (count - 1) * c) by (nonlinear_arith)
            requires
                0 <= k + 1 <= count - 1,
                0 < c,
        ;
    }
}

/// The values of the chunk of pair indices from `lo` up to `hi` are the
/// values of that range of the tables.
pub proof fn lemma_chunk_is_range(t: Tables, n: int, lo: int, hi: int)
    requires
        t.eq.len() / 2 == n,
        t.a.len() == t.eq.len(),
        t.b.len() == t.eq.len(),
        0 <= lo <= hi <= n,
    ensures
        chunk_values(chunk_range(halves_of(t), lo, hi)) == range_values(t, lo, hi),
{
    let c = chunk_range(halves_of(t), lo, hi);
    lemma_chunk_sum_is_range(t, n, lo, hi, c, 0, hi - lo);
    lemma_chunk_sum_is_range(t, n, lo, hi, c, 1, hi - lo);
    lemma_chunk_sum_is_range(t, n, lo, hi, c, 2, hi - lo);
    lemma_chunk_sum_is_range(t, n, lo, hi, c, 3, hi - lo);
}

/// The sum of the first `j` products of a chunk is the sum over the first
/// `j` pair indices of its range.
proof fn lemma_chunk_sum_is_range(t: Tables, n: int, lo: int, hi: int, c: ChunkView, x: int, j: int)
    requires
        t.eq.len() / 2 == n,
        t.a.len() == t.eq.len(),
        t.b.len() == t.eq.len(),
        0 <= lo <= hi <= n,
        0 <= j <= hi - lo,
        c == chunk_range(halves_of(t), lo, hi),
    ensures
        seq_sum(chunk_terms(c, x), j) == cubic_sum(t, lo, lo + j, x),
    decreases j,
{
    if j > 0 {
        lemma_chunk_sum_is_range(t, n, lo, hi, c, x, j - 1);
        let i = j - 1;
        assert(c.eq_low[i] == t.eq[lo + i] && c.eq_high[i] == t.eq[n + lo + i]);
        assert(c.a_low[i] == t.a[lo + i] && c.a_high[i] == t.a[n + lo + i]);
        assert(c.b_low[i] == t.b[lo + i] && c.b_high[i] == t.b[n + lo + i]);
    }
}

/// Summing the values of the first `m` chunks from the left gives the
/// values of the range that they cover.
pub proof fn lemma_fold_chunks(t: Tables, n: int, c: int, m: int)
    requires
        t.eq.len() / 2 == n,
        t.a.len() == t.eq.len(),
        t.b.len() == t.eq.len(),
        0 < c,
        0 <= m <= chunk_count(n, c),
    ensures
        fold_rounds(chunk_items(halves_of(t), c).subrange(0, m)) == range_values(
            t,
            0,
            if m == 0 {
                0
            } else {
                chunk_end(n, c, m - 1)
            },
        ),
    decreases m,
{
    let items = chunk_items(halves_of(t), c).subrange(0, m);
    if m == 0 {
        vstd::arithmetic::div_mod::lemma_small_mod(0, modulus() as nat);
    } else {
        lemma_fold_chunks(t, n, c, m - 1);
        lemma_chunk_bounds(n, c, m - 1);
        if m - 1 > 0 {
            lemma_chunk_bounds(n, c, m - 2);
        }
        assert(items.drop_last() =~= chunk_items(halves_of(t), c).subrange(0, m - 1));
        assert(items.last() == chunk_values(chunk_of(halves_of(t), c, m - 1)));
        lemma_chunk_is_range(t, n, (m - 1) * c, chunk_end(n, c, m - 1));
        lemma_range_values_join(t, 0, (m - 1) * c, chunk_end(n, c, m - 1));
    }
}

/// Summing the values of all chunks of the halves of three tables from the
/// left gives the round polynomial at 0, 1, 2 and 3.
pub proof fn lemma_fold_all_chunks(t: Tables, n: int, c: int)
    requires
        t.eq.len() / 2 == n,
        t.a.len() == t.eq.len(),
        t.b.len() == t.eq.len(),
        0 < c,
    ensures
        fold_rounds(chunk_items(halves_of(t), c)) == round_evals(t),
{
    let count = chunk_count(n, c);
    vstd::arithmetic::div_mod::lemma_fundamental_div_mod(n + c - 1, c);
    vstd::arithmetic::div_mod::lemma_mod_bound(n + c - 1, c);
    assert(count >= 0 && (n > 0 ==> count > 0)) by (nonlinear_arith)
        requires
            n + c - 1 == c * count + (n + c - 1) % c,
            0 <= (n + c - 1) % c < c,
            n >= 0,
            c > 0,
    ;
    lemma_fold_chunks(t, n, c, count);
    assert(chunk_items(halves_of(t), c).subrange(0, count) =~= chunk_items(halves_of(t), c));
    if count > 0 {
        lemma_chunk_bounds(n, c, count - 1);
    } else {
        assert(n == 0);
    }
}

} // verus!
