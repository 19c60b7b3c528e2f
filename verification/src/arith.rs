//! Facts of integer arithmetic about row-major image layouts.

use vstd::prelude::*;

verus! {

/// Two positions of a row-major layout of width `w` are the same exactly
/// when their columns and rows are.
pub proof fn lemma_row_major_unique(w: int, x1: int, y1: int, x2: int, y2: int)
    requires
        0 <= x1 < w,
        0 <= x2 < w,
        0 <= y1,
        0 <= y2,
        y1 * w + x1 == y2 * w + x2,
    ensures
        x1 == x2,
        y1 == y2,
{
    if y1 < y2 {
        assert(y1 * w + w <= y2 * w) by (nonlinear_arith)
            requires
                y1 < y2,
                0 < w,
        ;
    } else if y2 < y1 {
        assert(y2 * w + w <= y1 * w) by (nonlinear_arith)
            requires
                y2 < y1,
                0 < w,
        ;
    }
}

/// A pixel `(x, y)` inside a `w` by `h` image lies before `w * h` in its
/// row-major layout.
pub proof fn lemma_row_major_bound(w: int, h: int, x: int, y: int)
    requires
        0 <= x < w,
        0 <= y < h,
    ensures
        0 <= y * w + x < w * h,
        y * w + x + 1 <= w * h,
{
    assert(0 <= y * w) by (nonlinear_arith)
        requires
            0 <= y,
            0 <= w,
    ;
    assert(y * w + w <= h * w) by (nonlinear_arith)
        requires
            y < h,
            0 <= w,
    ;
    assert(h * w == w * h) by (nonlinear_arith);
}

/// Multiplication by a non-negative factor is monotone.
pub proof fn lemma_mul_le(a: int, b: int, c: int)
    requires
        0 <= a <= b,
        0 <= c,
    ensures
        a * c <= b * c,
        c * a <= c * b,
{
    assert(a * c <= b * c) by (nonlinear_arith)
        requires
            0 <= a <= b,
            0 <= c,
    ;
    assert(c * a <= c * b) by (nonlinear_arith)
        requires
            0 <= a <= b,
            0 <= c,
    ;
}

/// `w * (h + k)` spelt out.
pub proof fn lemma_mul_add(w: int, h: int, k: int)
    ensures
        w * (h + k) == w * h + w * k,
        (h + k) * w == h * w + k * w,
        w * h == h * w,
{
    assert(w * (h + k) == w * h + w * k) by (nonlinear_arith);
    assert((h + k) * w == h * w + k * w) by (nonlinear_arith);
    assert(w * h == h * w) by (nonlinear_arith);
}

} // verus!
