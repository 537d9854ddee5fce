//! The inner-product kernel and the insert-time normalization.
//!
//! The hot-path inner product is structured as eight independent
//! accumulators, each fed one lane of an eight-wide chunk per iteration,
//! with a remainder loop over the final `len mod 8` elements; this breaks
//! the serial dependency chain through a single accumulator. The exact
//! accumulation order is pinned down by the spec functions below, and the
//! executable kernels are proved to compute precisely those folds.

use vstd::prelude::*;
use crate::arith::{add_bits, mul_bits, div_bits, sqrt_bits, add32, mul32, div32, sqrt32};
use crate::ieee::{gt_bits, gt32, ONE_BITS, NORM_FLOOR_BITS};

verus! {

/// Partial sum of lane `lane` after `k` eight-wide chunks: the fold
/// `acc = acc + a[8*c + lane] * b[8*c + lane]` for `c` in `0..k`,
/// starting from the zero bit pattern.
pub open spec fn mac_lane(a: Seq<u32>, b: Seq<u32>, lane: int, k: int) -> u32
    decreases k,
{
    if k <= 0 {
        0u32
    } else {
        add_bits(
            mac_lane(a, b, lane, k - 1),
            mul_bits(a[(k - 1) * 8 + lane], b[(k - 1) * 8 + lane]),
        )
    }
}

/// Horizontal reduction of the eight lane accumulators after `k` chunks,
/// summed left to right.
pub open spec fn lane_total(a: Seq<u32>, b: Seq<u32>, k: int) -> u32 {
    add_bits(
        add_bits(
            add_bits(
                add_bits(
                    add_bits(
                        add_bits(
                            add_bits(mac_lane(a, b, 0, k), mac_lane(a, b, 1, k)),
                            mac_lane(a, b, 2, k),
                        ),
                        mac_lane(a, b, 3, k),
                    ),
                    mac_lane(a, b, 4, k),
                ),
                mac_lane(a, b, 5, k),
            ),
            mac_lane(a, b, 6, k),
        ),
        mac_lane(a, b, 7, k),
    )
}

/// Sequential fold `acc = acc + a[i] * b[i]` for `i` in `from..to`,
/// starting from `init`.
pub open spec fn fold_dot(a: Seq<u32>, b: Seq<u32>, from: int, to: int, init: u32) -> u32
    decreases to - from,
{
    if to <= from {
        init
    } else {
        add_bits(fold_dot(a, b, from, to - 1, init), mul_bits(a[to - 1], b[to - 1]))
    }
}

/// The inner product as the unrolled kernel accumulates it: eight lane
/// sums over the full chunks, reduced left to right, then the remainder
/// elements folded in sequentially.
pub open spec fn dot_bits(a: Seq<u32>, b: Seq<u32>) -> u32 {
    let chunks = a.len() as int / 8;
    fold_dot(a, b, chunks * 8, a.len() as int, lane_total(a, b, chunks))
}

/// The inner product as a plain left-to-right fold from the zero bit
/// pattern, the accumulation order of the naive baseline.
pub open spec fn dot_seq_bits(a: Seq<u32>, b: Seq<u32>) -> u32 {
    fold_dot(a, b, 0, a.len() as int, 0u32)
}

/// Sum of squares of `v`, folded left to right from the zero bit pattern.
pub open spec fn sumsq_bits(v: Seq<u32>, n: int) -> u32
    decreases n,
{
    if n <= 0 {
        0u32
    } else {
        add_bits(sumsq_bits(v, n - 1), mul_bits(v[n - 1], v[n - 1]))
    }
}

/// The L2 norm of `v`: the rounded square root of the rounded sum of
/// squares.
pub open spec fn norm_bits(v: Seq<u32>) -> u32 {
    sqrt_bits(sumsq_bits(v, v.len() as int))
}

/// The factor multiplied into every component on the way into storage:
/// the reciprocal of the norm when the norm is strictly above the floor,
/// otherwise one (so near-zero vectors are stored unchanged).
pub open spec fn inv_norm_bits(v: Seq<u32>) -> u32 {
    if gt_bits(norm_bits(v), NORM_FLOOR_BITS) {
        div_bits(ONE_BITS, norm_bits(v))
    } else {
        ONE_BITS
    }
}

/// The stored image of an inserted vector: each component multiplied by
/// the inverse-norm factor.
pub open spec fn normalize_bits(v: Seq<u32>) -> Seq<u32> {
    Seq::new(v.len(), |i: int| mul_bits(v[i], inv_norm_bits(v)))
}

/// Hand-unrolled inner product over binary32 bit patterns: eight
/// independent accumulators over the full eight-wide chunks, a horizontal
/// reduction, then a remainder loop. Computes exactly `dot_bits`.
pub fn dot_product_unrolled(a: &[u32], b: &[u32]) -> (r: u32)
    requires
        a@.len() == b@.len(),
    ensures
        r == dot_bits(a@, b@),
{
    let len: usize = a.len();
    let chunks: usize = len / 8;

    let mut acc0: u32 = 0;
    let mut acc1: u32 = 0;
    let mut acc2: u32 = 0;
    let mut acc3: u32 = 0;
    let mut acc4: u32 = 0;
    let mut acc5: u32 = 0;
    let mut acc6: u32 = 0;
    let mut acc7: u32 = 0;

    let mut i: usize = 0;
    while i < chunks
        invariant
            i <= chunks,
            len == a@.len(),
            a@.len() == b@.len(),
            chunks == len / 8,
            acc0 == mac_lane(a@, b@, 0, i as int),
            acc1 == mac_lane(a@, b@, 1, i as int),
            acc2 == mac_lane(a@, b@, 2, i as int),
            acc3 == mac_lane(a@, b@, 3, i as int),
            acc4 == mac_lane(a@, b@, 4, i as int),
            acc5 == mac_lane(a@, b@, 5, i as int),
            acc6 == mac_lane(a@, b@, 6, i as int),
            acc7 == mac_lane(a@, b@, 7, i as int),
        decreases chunks - i,
    {
        let base: usize = i * 8;
        assert(base + 8 <= len);
        acc0 = add32(acc0, mul32(a[base], b[base]));
        acc1 = add32(acc1, mul32(a[base + 1], b[base + 1]));
        acc2 = add32(acc2, mul32(a[base + 2], b[base + 2]));
        acc3 = add32(acc3, mul32(a[base + 3], b[base + 3]));
        acc4 = add32(acc4, mul32(a[base + 4], b[base + 4]));
        acc5 = add32(acc5, mul32(a[base + 5], b[base + 5]));
        acc6 = add32(acc6, mul32(a[base + 6], b[base + 6]));
        acc7 = add32(acc7, mul32(a[base + 7], b[base + 7]));
        i = i + 1;
    }

    let mut result: u32 = add32(
        add32(
            add32(
                add32(add32(add32(add32(acc0, acc1), acc2), acc3), acc4),
                acc5,
            ),
            acc6,
        ),
        acc7,
    );
    assert(result == lane_total(a@, b@, chunks as int));

    let mut j: usize = chunks * 8;
    while j < len
        invariant
            chunks * 8 <= j <= len,
            len == a@.len(),
            a@.len() == b@.len(),
            chunks == len / 8,
            result == fold_dot(a@, b@, chunks * 8, j as int, lane_total(a@, b@, chunks as int)),
        decreases len - j,
    {
        result = add32(result, mul32(a[j], b[j]));
        j = j + 1;
    }
    result
}

/// Naive inner product: a single left-to-right fold, no unrolling.
/// Computes exactly `dot_seq_bits`.
pub fn dot_product_simple(a: &[u32], b: &[u32]) -> (r: u32)
    requires
        a@.len() == b@.len(),
    ensures
        r == dot_seq_bits(a@, b@),
{
    let len: usize = a.len();
    let mut result: u32 = 0;
    let mut j: usize = 0;
    while j < len
        invariant
            j <= len,
            len == a@.len(),
            a@.len() == b@.len(),
            result == fold_dot(a@, b@, 0, j as int, 0u32),
        decreases len - j,
    {
        result = add32(result, mul32(a[j], b[j]));
        j = j + 1;
    }
    result
}

/// The L2 norm of a vector of bit patterns. Computes exactly `norm_bits`.
pub fn l2_norm(v: &[u32]) -> (r: u32)
    ensures
        r == norm_bits(v@),
{
    let len: usize = v.len();
    let mut sum: u32 = 0;
    let mut j: usize = 0;
    while j < len
        invariant
            j <= len,
            len == v@.len(),
            sum == sumsq_bits(v@, j as int),
        decreases len - j,
    {
        sum = add32(sum, mul32(v[j], v[j]));
        j = j + 1;
    }
    sqrt32(sum)
}

/// Normalize a vector of bit patterns, returning a new owned vector.
/// Computes exactly `normalize_bits`.
pub fn normalize_vec(v: &[u32]) -> (out: Vec<u32>)
    ensures
        out@ == normalize_bits(v@),
{
    let len: usize = v.len();
    let norm: u32 = l2_norm(v);
    let inv: u32 = if gt32(norm, NORM_FLOOR_BITS) {
        div32(ONE_BITS, norm)
    } else {
        ONE_BITS
    };
    assert(inv == inv_norm_bits(v@));
    let mut out: Vec<u32> = Vec::with_capacity(len);
    let mut j: usize = 0;
    while j < len
        invariant
            j <= len,
            len == v@.len(),
            inv == inv_norm_bits(v@),
            out@ == normalize_bits(v@).subrange(0, j as int),
        decreases len - j,
    {
        out.push(mul32(v[j], inv));
        assert(out@ =~= normalize_bits(v@).subrange(0, j + 1));
        j = j + 1;
    }
    assert(out@ =~= normalize_bits(v@));
    out
}

} // verus!
