//! Identities of polynomials over the integers that the laws of the
//! protocol rest on.

use crate::poly::plain::line_at;
use crate::sumcheck::lagrange_numerator;
use vstd::prelude::*;

verus! {

/// A cubic polynomial with the coefficients `k0` to `k3`, at `x`.
pub open spec fn cubic_at(k0: int, k1: int, k2: int, k3: int, x: int) -> int {
    k0 + k1 * x + k2 * (x * x) + k3 * (x * x * x)
}

/// The weighted sum of four values that is six times the value at `r` of the
/// cubic through them at 0, 1, 2 and 3.
pub open spec fn six_lagrange(f0: int, f1: int, f2: int, f3: int, r: int) -> int {
    -(f0 * lagrange_numerator(0, r)) + 3 * (f1 * lagrange_numerator(1, r)) - 3 * (f2
        * lagrange_numerator(2, r)) + f3 * lagrange_numerator(3, r)
}

/// A polynomial of degree two times a line, coefficient by coefficient.
proof fn lemma_quadratic_times_line(c0: int, c1: int, c2: int, b0: int, b1: int, x: int)
    ensures
        (c0 + c1 * x + c2 * (x * x)) * (b0 + b1 * x) == cubic_at(
            c0 * b0,
            c1 * b0 + c0 * b1,
            c2 * b0 + c1 * b1,
            c2 * b1,
            x,
        ),
{
    let x2 = x * x;
    let x3 = x * x * x;
    let c = c0 + c1 * x + c2 * x2;
    let bx = b1 * x;
    assert(c * (b0 + bx) == c * b0 + c * bx) by (nonlinear_arith);
    assert(c * b0 == c0 * b0 + (c1 * x) * b0 + (c2 * x2) * b0) by (nonlinear_arith)
        requires
            c == c0 + c1 * x + c2 * x2,
    ;
    assert(c * bx == c0 * bx + (c1 * x) * bx + (c2 * x2) * bx) by (nonlinear_arith)
        requires
            c == c0 + c1 * x + c2 * x2,
    ;
    assert((c1 * x) * b0 == (c1 * b0) * x) by (nonlinear_arith);
    assert((c2 * x2) * b0 == (c2 * b0) * x2) by (nonlinear_arith);
    assert(c0 * bx == (c0 * b1) * x) by (nonlinear_arith)
        requires
            bx == b1 * x,
    ;
    assert((c1 * x) * bx == (c1 * b1) * x2) by (nonlinear_arith)
        requires
            bx == b1 * x,
            x2 == x * x,
    ;
    assert((c2 * x2) * bx == (c2 * b1) * x3) by (nonlinear_arith)
        requires
            bx == b1 * x,
            x2 == x * x,
            x3 == x * x * x,
    ;
    assert((c1 * b0 + c0 * b1) * x == (c1 * b0) * x + (c0 * b1) * x) by (nonlinear_arith);
    assert((c2 * b0 + c1 * b1) * x2 == (c2 * b0) * x2 + (c1 * b1) * x2) by (nonlinear_arith);
}

/// The coefficients of the product of three lines, each given by its
/// value at zero and its step.
pub open spec fn lines_product_coefficients(
    e0: int,
    e1: int,
    a0: int,
    a1: int,
    b0: int,
    b1: int,
) -> (int, int, int, int) {
    let q0 = e0 * a0;
    let q1 = e1 * a0 + e0 * a1;
    let q2 = e1 * a1;
    (q0 * b0, q1 * b0 + q0 * b1, q2 * b0 + q1 * b1, q2 * b1)
}

/// The product of three lines is a cubic.
pub proof fn lemma_lines_product_is_cubic(
    el: int,
    eh: int,
    al: int,
    ah: int,
    bl: int,
    bh: int,
    x: int,
)
    ensures
        ({
            let k = lines_product_coefficients(el, eh - el, al, ah - al, bl, bh - bl);
            line_at(el, eh, x) * line_at(al, ah, x) * line_at(bl, bh, x) == cubic_at(
                k.0,
                k.1,
                k.2,
                k.3,
                x,
            )
        }),
{
    let e1 = eh - el;
    let a1 = ah - al;
    let b1 = bh - bl;
    let x2 = x * x;
    let q0 = el * al;
    let q1 = e1 * al + el * a1;
    let q2 = e1 * a1;
    assert(x * e1 == e1 * x && x * a1 == a1 * x && x * b1 == b1 * x) by (nonlinear_arith);
    assert(0 * x2 == 0 && 0 * al == 0 && 0 * a1 == 0);
    lemma_quadratic_times_line(el, e1, 0, al, a1, x);
    assert(cubic_at(q0, q1, 0 * al + q2, 0 * a1, x) == q0 + q1 * x + q2 * x2) by {
        assert(0 * (x * x * x) == 0);
    }
    assert(line_at(el, eh, x) * line_at(al, ah, x) == q0 + q1 * x + q2 * x2);
    lemma_quadratic_times_line(q0, q1, q2, bl, b1, x);
}

/// The weighted sum of the four node values of a cubic is six times the
/// cubic: interpolation through 0, 1, 2 and 3 gives the cubic back.
pub proof fn lemma_six_lagrange_of_cubic(k0: int, k1: int, k2: int, k3: int, r: int)
    ensures
        six_lagrange(
            cubic_at(k0, k1, k2, k3, 0),
            cubic_at(k0, k1, k2, k3, 1),
            cubic_at(k0, k1, k2, k3, 2),
            cubic_at(k0, k1, k2, k3, 3),
            r,
        ) == 6 * cubic_at(k0, k1, k2, k3, r),
{
    let n0 = lagrange_numerator(0, r);
    let n1 = lagrange_numerator(1, r);
    let n2 = lagrange_numerator(2, r);
    let n3 = lagrange_numerator(3, r);
    let r2 = r * r;
    let r3 = r * r * r;
    assert(n0 == r3 - 6 * r2 + 11 * r - 6) by (nonlinear_arith)
        requires
            n0 == (r - 1) * (r - 2) * (r - 3),
            r2 == r * r,
            r3 == r * r * r,
    ;
    assert(n1 == r3 - 5 * r2 + 6 * r) by (nonlinear_arith)
        requires
            n1 == (r - 0) * (r - 2) * (r - 3),
            r2 == r * r,
            r3 == r * r * r,
    ;
    assert(n2 == r3 - 4 * r2 + 3 * r) by (nonlinear_arith)
        requires
            n2 == (r - 0) * (r - 1) * (r - 3),
            r2 == r * r,
            r3 == r * r * r,
    ;
    assert(n3 == r3 - 3 * r2 + 2 * r) by (nonlinear_arith)
        requires
            n3 == (r - 0) * (r - 1) * (r - 2),
            r2 == r * r,
            r3 == r * r * r,
    ;
    let f0 = cubic_at(k0, k1, k2, k3, 0);
    let f1 = cubic_at(k0, k1, k2, k3, 1);
    let f2 = cubic_at(k0, k1, k2, k3, 2);
    let f3 = cubic_at(k0, k1, k2, k3, 3);
    assert(k1 * 0 == 0 && k2 * (0 * 0) == 0 && k3 * (0 * 0 * 0) == 0) by (nonlinear_arith);
    assert(k1 * 1 == k1 && k2 * (1 * 1) == k2 && k3 * (1 * 1 * 1) == k3) by (nonlinear_arith);
    assert(k1 * 2 == 2 * k1 && k2 * (2 * 2) == 4 * k2 && k3 * (2 * 2 * 2) == 8 * k3)
        by (nonlinear_arith);
    assert(k1 * 3 == 3 * k1 && k2 * (3 * 3) == 9 * k2 && k3 * (3 * 3 * 3) == 27 * k3)
        by (nonlinear_arith);
    assert(f0 == k0);
    assert(f1 == k0 + k1 + k2 + k3);
    assert(f2 == k0 + 2 * k1 + 4 * k2 + 8 * k3);
    assert(f3 == k0 + 3 * k1 + 9 * k2 + 27 * k3);
    // each product, spread over the coefficients
    assert(f1 * n1 == k0 * n1 + k1 * n1 + k2 * n1 + k3 * n1) by (nonlinear_arith)
        requires
            f1 == k0 + k1 + k2 + k3,
    ;
    assert(f2 * n2 == k0 * n2 + 2 * (k1 * n2) + 4 * (k2 * n2) + 8 * (k3 * n2))
        by (nonlinear_arith)
        requires
            f2 == k0 + 2 * k1 + 4 * k2 + 8 * k3,
    ;
    assert(f3 * n3 == k0 * n3 + 3 * (k1 * n3) + 9 * (k2 * n3) + 27 * (k3 * n3))
        by (nonlinear_arith)
        requires
            f3 == k0 + 3 * k1 + 9 * k2 + 27 * k3,
    ;
    // each coefficient's share of the weighted sum
    assert(k0 * 6 == -(k0 * n0) + 3 * (k0 * n1) - 3 * (k0 * n2) + k0 * n3) by (nonlinear_arith)
        requires
            6 == -n0 + 3 * n1 - 3 * n2 + n3,
    ;
    assert(k1 * (6 * r) == 3 * (k1 * n1) - 6 * (k1 * n2) + 3 * (k1 * n3)) by (nonlinear_arith)
        requires
            6 * r == 3 * n1 - 6 * n2 + 3 * n3,
    ;
    assert(k2 * (6 * r2) == 3 * (k2 * n1) - 12 * (k2 * n2) + 9 * (k2 * n3)) by (nonlinear_arith)
        requires
            6 * r2 == 3 * n1 - 12 * n2 + 9 * n3,
    ;
    assert(k3 * (6 * r3) == 3 * (k3 * n1) - 24 * (k3 * n2) + 27 * (k3 * n3)) by (nonlinear_arith)
        requires
            6 * r3 == 3 * n1 - 24 * n2 + 27 * n3,
    ;
    assert(k1 * (6 * r) == 6 * (k1 * r)) by (nonlinear_arith);
    assert(k2 * (6 * r2) == 6 * (k2 * r2)) by (nonlinear_arith);
    assert(k3 * (6 * r3) == 6 * (k3 * r3)) by (nonlinear_arith);
}

} // verus!
