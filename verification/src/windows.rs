//! Window algebra of the bucket-method multiexp.
//!
//! A scalar is processed in `w`-bit windows; window `k` covers bits
//! `[k*w, k*w + w)`. When `w` does not divide the scalar bit length, the
//! final (most-significant) window carries the remaining, shorter bit
//! count. This module proves that the windows reconstruct each scalar and
//! that the per-window partial sums, combined with their weights,
//! reproduce the plain multi-scalar multiplication.

use vstd::prelude::*;

verus! {

use vstd::arithmetic::div_mod::lemma_breakdown;
use vstd::arithmetic::div_mod::lemma_small_mod;
use vstd::arithmetic::power2::lemma_pow2_adds;
use vstd::arithmetic::power2::lemma_pow2_pos;
use vstd::arithmetic::power2::lemma_pow2_strictly_increases;
use vstd::arithmetic::power2::pow2;
use crate::group::msm;

/// The k-th w-bit window of a scalar value: bits [k*w, k*w + w).
pub open spec fn window_of(e: int, k: nat, w: nat) -> int {
    (e / pow2(k * w) as int) % pow2(w) as int
}

/// The first j windows of a scalar, each weighted into its bit position.
pub open spec fn windows_value(e: int, w: nat, j: nat) -> int
    decreases j,
{
    if j == 0 {
        0
    } else {
        let j1 = (j - 1) as nat;
        windows_value(e, w, j1) + pow2(j1 * w) as int * window_of(e, j1, w)
    }
}

/// The windows at positions [j, nw), each weighted into its bit position.
pub open spec fn windows_value_range(e: int, w: nat, j: nat, nw: nat) -> int
    decreases nw - j,
{
    if j >= nw {
        0
    } else {
        pow2(j * w) as int * window_of(e, j, w) + windows_value_range(e, w, (j + 1) as nat, nw)
    }
}

proof fn lemma_windows_value_range_as_prefix(e: int, w: nat, j: nat, nw: nat)
    requires
        j <= nw,
    ensures
        windows_value_range(e, w, j, nw) == windows_value(e, w, nw) - windows_value(e, w, j),
    decreases nw - j,
{
    if j < nw {
        lemma_windows_value_range_as_prefix(e, w, (j + 1) as nat, nw);
    }
}

/// The first j windows hold exactly the low `j*w` bits of the scalar.
proof fn lemma_windows_value_prefix(e: int, w: nat, j: nat)
    requires
        0 <= e,
        1 <= w,
    ensures
        windows_value(e, w, j) == e % pow2(j * w) as int,
    decreases j,
{
    if j == 0 {
        vstd::arithmetic::power2::lemma2_to64();
    } else {
        let j1 = (j - 1) as nat;
        lemma_windows_value_prefix(e, w, j1);
        let y = pow2(j1 * w) as int;
        let z = pow2(w) as int;
        lemma_pow2_pos(j1 * w);
        lemma_pow2_pos(w);
        lemma_pow2_adds(j1 * w, w);
        assert(j * w == j1 * w + w) by (nonlinear_arith)
            requires
                j1 == j - 1,
                1 <= j,
        ;
        lemma_breakdown(e, y, z);
    }
}

/// The w-bit windows of a scalar of at most `bits` bits
/// reconstruct the scalar exactly, also when w does not divide `bits` (the
/// final, most-significant window then carries fewer bits).
pub proof fn lemma_windows_reconstruct(e: int, w: nat, bits: nat, nw: nat)
    requires
        0 <= e < pow2(bits),
        1 <= w,
        bits <= nw * w,
    ensures
        windows_value(e, w, nw) == e,
{
    lemma_windows_value_prefix(e, w, nw);
    if bits < nw * w {
        lemma_pow2_strictly_increases(bits, nw * w);
    }
    lemma_small_mod(e as nat, pow2(nw * w));
}

/// The window-k partial sum over a run of pairs: the sum of
/// `window_of(es[i], k, w) * bs[i]`.
pub open spec fn win_sum(bs: Seq<int>, es: Seq<int>, k: nat, w: nat) -> int
    decreases bs.len(),
{
    if bs.len() == 0 || es.len() == 0 {
        0
    } else {
        win_sum(bs.drop_last(), es.drop_last(), k, w) + window_of(es.last(), k, w) * bs.last()
    }
}

/// Window partial sums of contiguous parts add up.
pub proof fn lemma_win_sum_split(bs: Seq<int>, es: Seq<int>, k: nat, w: nat, m: int)
    requires
        bs.len() == es.len(),
        0 <= m <= bs.len(),
    ensures
        win_sum(bs, es, k, w) == win_sum(bs.subrange(0, m), es.subrange(0, m), k, w) + win_sum(
            bs.subrange(m, bs.len() as int),
            es.subrange(m, es.len() as int),
            k,
            w,
        ),
    decreases bs.len(),
{
    let n = bs.len() as int;
    if m == n {
        assert(bs.subrange(0, m) =~= bs);
        assert(es.subrange(0, m) =~= es);
        assert(bs.subrange(m, n).len() == 0);
    } else {
        let bh = bs.drop_last();
        let eh = es.drop_last();
        lemma_win_sum_split(bh, eh, k, w, m);
        assert(bh.subrange(0, m) =~= bs.subrange(0, m));
        assert(eh.subrange(0, m) =~= es.subrange(0, m));
        assert(bh.subrange(m, n - 1) =~= bs.subrange(m, n).drop_last());
        assert(eh.subrange(m, n - 1) =~= es.subrange(m, n).drop_last());
        assert(bs.subrange(m, n).last() == bs.last());
        assert(es.subrange(m, n).last() == es.last());
    }
}

/// One more pair extends a window partial sum by its term.
pub proof fn lemma_win_sum_extend(bs: Seq<int>, es: Seq<int>, k: nat, w: nat, i: int)
    requires
        bs.len() == es.len(),
        0 <= i < bs.len(),
    ensures
        win_sum(bs.subrange(0, i + 1), es.subrange(0, i + 1), k, w) == win_sum(
            bs.subrange(0, i),
            es.subrange(0, i),
            k,
            w,
        ) + window_of(es[i], k, w) * bs[i],
{
    assert(bs.subrange(0, i + 1).drop_last() =~= bs.subrange(0, i));
    assert(es.subrange(0, i + 1).drop_last() =~= es.subrange(0, i));
}

/// All window partial sums of a run of pairs, lowest window first.
pub open spec fn window_sums(bs: Seq<int>, es: Seq<int>, w: nat, nw: nat) -> Seq<int> {
    Seq::new(nw, |k: int| win_sum(bs, es, k as nat, w))
}

/// The host combination: windows processed most significant first, the
/// accumulator doubled w times before each window's sums are added
/// (Horner form). `combined(sums, j, w)` is the accumulator after the
/// windows at positions [j, nw) have been processed.
pub open spec fn combined(sums: Seq<int>, j: nat, w: nat) -> int
    decreases sums.len() - j,
{
    if j >= sums.len() {
        0
    } else {
        pow2(w) as int * combined(sums, (j + 1) as nat, w) + sums[j as int]
    }
}

/// The same combination written with absolute window weights.
pub open spec fn weighted_tail(sums: Seq<int>, j: nat, w: nat) -> int
    decreases sums.len() - j,
{
    if j >= sums.len() {
        0
    } else {
        pow2(j * w) as int * sums[j as int] + weighted_tail(sums, (j + 1) as nat, w)
    }
}

/// Horner combination and absolute weighting agree.
pub proof fn lemma_combined_weighted(sums: Seq<int>, j: nat, w: nat)
    ensures
        pow2(j * w) as int * combined(sums, j, w) == weighted_tail(sums, j, w),
    decreases sums.len() - j,
{
    let a = pow2(j * w) as int;
    if j >= sums.len() {
        assert(a * 0 == 0) by (nonlinear_arith);
    } else {
        let j1 = (j + 1) as nat;
        lemma_combined_weighted(sums, j1, w);
        let p = pow2(w) as int;
        let c1 = combined(sums, j1, w);
        let s0 = sums[j as int];
        lemma_pow2_adds(j * w, w);
        assert(j1 * w == j * w + w) by (nonlinear_arith)
            requires
                j1 == j + 1,
        ;
        assert(a * (p * c1 + s0) == (a * p) * c1 + a * s0) by (nonlinear_arith);
        assert((a * p) * c1 == pow2(j1 * w) as int * c1) by (nonlinear_arith)
            requires
                a * p == pow2(j1 * w) as int,
        ;
    }
}

proof fn lemma_weighted_tail_zero(sums: Seq<int>, j: nat, w: nat)
    requires
        forall|k: int| 0 <= k < sums.len() ==> sums[k] == 0,
    ensures
        weighted_tail(sums, j, w) == 0,
    decreases sums.len() - j,
{
    if j < sums.len() {
        lemma_weighted_tail_zero(sums, (j + 1) as nat, w);
        assert(pow2(j * w) as int * 0 == 0) by (nonlinear_arith);
    }
}

proof fn lemma_weighted_tail_drop(bs: Seq<int>, es: Seq<int>, w: nat, nw: nat, j: nat)
    requires
        bs.len() == es.len(),
        1 <= bs.len(),
        j <= nw,
    ensures
        weighted_tail(window_sums(bs, es, w, nw), j, w) == weighted_tail(
            window_sums(bs.drop_last(), es.drop_last(), w, nw),
            j,
            w,
        ) + bs.last() * windows_value_range(es.last(), w, j, nw),
    decreases nw - j,
{
    let full = window_sums(bs, es, w, nw);
    let dropped = window_sums(bs.drop_last(), es.drop_last(), w, nw);
    let b = bs.last();
    let e = es.last();
    if j >= nw {
        assert(b * 0 == 0) by (nonlinear_arith);
    } else {
        lemma_weighted_tail_drop(bs, es, w, nw, (j + 1) as nat);
        let a = pow2(j * w) as int;
        let sd = win_sum(bs.drop_last(), es.drop_last(), j, w);
        let wj = window_of(e, j, w);
        assert(full[j as int] == sd + wj * b);
        assert(a * (sd + wj * b) + (weighted_tail(dropped, (j + 1) as nat, w) + b
            * windows_value_range(e, w, (j + 1) as nat, nw)) == (a * sd + weighted_tail(
            dropped,
            (j + 1) as nat,
            w,
        )) + b * (a * wj + windows_value_range(e, w, (j + 1) as nat, nw))) by (nonlinear_arith);
    }
}

/// The bucket method's accounting: every window's partial sum, weighted
/// into its bit position, adds up to the plain multiexp — for any window
/// width whose windows cover the scalars' bit range.
pub proof fn lemma_window_sums_msm(bs: Seq<int>, es: Seq<int>, w: nat, bits: nat, nw: nat)
    requires
        bs.len() == es.len(),
        1 <= w,
        bits <= nw * w,
        forall|i: int| 0 <= i < es.len() ==> 0 <= #[trigger] es[i] < pow2(bits),
    ensures
        weighted_tail(window_sums(bs, es, w, nw), 0, w) == msm(bs, es),
    decreases bs.len(),
{
    if bs.len() == 0 {
        lemma_weighted_tail_zero(window_sums(bs, es, w, nw), 0, w);
    } else {
        let bh = bs.drop_last();
        let eh = es.drop_last();
        let b = bs.last();
        let e = es.last();
        assert(forall|i: int| 0 <= i < eh.len() ==> 0 <= #[trigger] eh[i] < pow2(bits));
        lemma_window_sums_msm(bh, eh, w, bits, nw);
        lemma_weighted_tail_drop(bs, es, w, nw, 0);
        lemma_windows_value_range_as_prefix(e, w, 0, nw);
        lemma_windows_reconstruct(e, w, bits, nw);
        assert(b * e == e * b) by (nonlinear_arith);
    }
}

} // verus!
