//! Device kernels and the multi-device scheduler.
//!
//! A `SingleMultiexpKernel` is bound to one device and a fixed maximum
//! batch; its dispatch reduces a batch to one partial sum per (partition
//! group, window) and the host combination walks the windows most
//! significant first. A `MultiexpKernel` owns one kernel per device,
//! splits a request between the CPU worker pool and the devices by the
//! throughput model, and adds every partial result into one element.

use vstd::prelude::*;

verus! {

use vstd::arithmetic::div_mod::lemma_add_mod_noop;
use vstd::arithmetic::div_mod::lemma_mul_mod_noop_right;
use vstd::arithmetic::power2::lemma2_to64;
use vstd::arithmetic::power2::lemma2_to64_rest;
use vstd::arithmetic::power2::lemma_pow2_adds;
use vstd::arithmetic::power2::lemma_pow2_pos;
use vstd::arithmetic::power2::lemma_pow2_strictly_increases;
use vstd::arithmetic::power2::pow2;
use crate::error::GPUError;
use crate::error::GPUResult;
use crate::group::group_modulus;
use crate::group::msm;
use crate::group::points_value;
use crate::group::scalars_value;
use crate::group::Point;
use crate::group::Scalar;
use crate::group::SCALAR_BITS;
use crate::split::ceil_div;
use crate::split::compute_cpu_n;
use crate::split::device_chunk;
use crate::split::lemma_ceil_div_bounds;
use crate::split::lemma_chunk_bounds_tile;
use crate::split::spec_ceil_div;
use crate::split::spec_chunk_bound;
use crate::split::spec_cpu_n;
use crate::windows::combined;
use crate::windows::lemma_combined_weighted;
use crate::windows::lemma_win_sum_extend;
use crate::windows::lemma_win_sum_split;
use crate::windows::lemma_window_sums_msm;
use crate::windows::win_sum;
use crate::windows::window_of;
use crate::windows::window_sums;
use crate::group::lemma_msm_extend;
use crate::group::lemma_sum_permutation;
use crate::group::sum_ints;
use crate::group::lemma_msm_split;
use crate::group::lemma_points_value_subrange;
use crate::group::lemma_scalars_value_subrange;

/// Empirical speedup of one device over the whole CPU worker pool, as the
/// ratio SPEEDUP_NUM / SPEEDUP_DEN (a calibration constant).
pub const SPEEDUP_NUM: usize = 31;

/// Denominator of the speedup ratio.
pub const SPEEDUP_DEN: usize = 10;

/// Which of the two configured curve groups a request multiplies in,
/// decided statically at the call site, never inferred from sizes.
#[derive(Debug, Clone, Copy, PartialEq, Eq, Structural)]
pub enum CurveGroup {
    Primary,
    Secondary,
}

/// Configuration of one device: buffer capacity, window geometry, which
/// group buffer sets are built, and whether the underlying dispatch fails
/// (the model's stand-in for a driver error).
#[derive(Debug, Clone, Copy, PartialEq, Eq, Structural)]
pub struct DeviceConfig {
    /// Largest element count the device buffers hold at once.
    pub max_batch: usize,
    /// Window width in bits.
    pub window_size: usize,
    /// Number of partition groups the device reduces over.
    pub num_groups: usize,
    /// Whether buffers for the primary group are built.
    pub has_primary: bool,
    /// Whether buffers for the secondary group are built.
    pub has_secondary: bool,
    /// A device whose every dispatch fails with a driver error.
    pub faulty: bool,
}

/// A buildable buffer geometry: something to hold, window widths whose
/// buckets fit the scalar representation, and a bounded number of
/// partition groups (the bucket and result buffers are sized from it).
pub open spec fn spec_config_valid(c: DeviceConfig) -> bool {
    &&& 1 <= c.max_batch
    &&& 1 <= c.window_size <= 63
    &&& 1 <= c.num_groups <= 65536
}

/// Whether a kernel built from `c` accepts requests in group `g`.
pub open spec fn spec_supports(c: DeviceConfig, g: CurveGroup) -> bool {
    match g {
        CurveGroup::Primary => c.has_primary,
        CurveGroup::Secondary => c.has_secondary,
    }
}

/// 2^e for exponents that fit a u64.
fn pow2_u64(e: usize) -> (r: u64)
    requires
        e <= 63,
    ensures
        r == pow2(e as nat),
        1 <= r,
{
    proof {
        lemma_pow2_pos(e as nat);
    }
    let mut r: u64 = 1;
    let mut i: usize = 0;
    proof {
        lemma2_to64();
    }
    while i < e
        invariant
            i <= e <= 63,
            r == pow2(i as nat),
        decreases e - i,
    {
        proof {
            lemma_pow2_strictly_increases(i as nat, 63);
            lemma2_to64_rest();
            lemma_pow2_adds(i as nat, 1);
            lemma2_to64();
        }
        r = r * 2;
        i = i + 1;
    }
    r
}

/// The k-th w-bit window of a scalar representation.
fn window_value(e: u64, k: usize, w: usize) -> (r: u64)
    requires
        1 <= w <= 63,
        k * w <= 63,
    ensures
        r as int == window_of(e as int, k as nat, w as nat),
{
    let div = pow2_u64(k * w);
    let m = pow2_u64(w);
    (e / div) % m
}

/// Handle to the CPU worker pool. The pool's internal parallelism is an
/// external concern; what it computes is the reference summation.
pub struct Worker {}

impl Worker {
    /// A fresh handle.
    pub fn new() -> Worker {
        Worker {  }
    }

    /// The CPU fallback path: multiexp over the `n` pairs
    /// `(bases[b_from + i], exps[e_from + i])`, by direct summation.
    pub fn multiexp(
        &self,
        bases: &Vec<Point>,
        b_from: usize,
        exps: &Vec<Scalar>,
        e_from: usize,
        n: usize,
    ) -> (r: Point)
        requires
            b_from + n <= bases.len(),
            e_from + n <= exps.len(),
        ensures
            r@ == msm(
                points_value(bases@.subrange(b_from as int, b_from + n)),
                scalars_value(exps@.subrange(e_from as int, e_from + n)),
            ) % group_modulus(),
    {
        let ghost bsv = points_value(bases@.subrange(b_from as int, b_from + n));
        let ghost esv = scalars_value(exps@.subrange(e_from as int, e_from + n));
        let mut acc = Point::zero();
        let mut i: usize = 0;
        proof {
            assert(bsv.subrange(0, 0).len() == 0);
        }
        while i < n
        invariant
            i <= n,
            b_from + n <= bases.len(),
            e_from + n <= exps.len(),
            bsv == points_value(bases@.subrange(b_from as int, b_from + n)),
            esv == scalars_value(exps@.subrange(e_from as int, e_from + n)),
            acc@ == msm(bsv.subrange(0, i as int), esv.subrange(0, i as int)) % group_modulus(),
        decreases n - i,
        {
            let term = bases[b_from + i].scale(&exps[e_from + i]);
            proof {
                let ghost x = msm(bsv.subrange(0, i as int), esv.subrange(0, i as int));
                lemma_msm_extend(bsv, esv, i as int);
                assert(bsv[i as int] == bases@[b_from + i]@);
                assert(esv[i as int] == exps@[e_from + i]@);
                lemma_add_mod_noop(x, esv[i as int] * bsv[i as int], group_modulus());
            }
            acc = acc.add(&term);
            i = i + 1;
        }
        proof {
            assert(bsv.subrange(0, n as int) =~= bsv);
            assert(esv.subrange(0, n as int) =~= esv);
        }
        acc
    }
}

/// The value the device reduces for (partition group `g`, window `k`):
/// the window-k partial sum over group g's contiguous share of the batch.
pub open spec fn spec_partial(
    bases: Seq<Point>,
    b_from: int,
    exps: Seq<Scalar>,
    e_from: int,
    n: int,
    num_groups: int,
    w: nat,
    g: int,
    k: nat,
) -> int {
    let lo = spec_chunk_bound(n, num_groups, g);
    let hi = spec_chunk_bound(n, num_groups, g + 1);
    win_sum(
        points_value(bases.subrange(b_from + lo, b_from + hi)),
        scalars_value(exps.subrange(e_from + lo, e_from + hi)),
        k,
        w,
    )
}

/// The device-side reduction, simulated in place of a real dispatch: one
/// partial sum per (partition group, window) over the group's contiguous
/// share of the batch, laid out flat at index `g * nw + k`.
#[verifier::loop_isolation(false)]
fn simulate_dispatch(
    bases: &Vec<Point>,
    b_from: usize,
    exps: &Vec<Scalar>,
    e_from: usize,
    n: usize,
    num_groups: usize,
    nw: usize,
    w: usize,
) -> (r: Vec<Point>)
    requires
        1 <= w <= 63,
        1 <= num_groups <= 65536,
        1 <= nw <= 64,
        (nw - 1) * w <= 63,
        b_from + n <= bases.len(),
        e_from + n <= exps.len(),
    ensures
        r.len() == num_groups * nw,
        forall|g: int, k: nat|
            0 <= g < num_groups && k < nw ==> r@[g * nw + k]@ == #[trigger] spec_partial(
                bases@,
                b_from as int,
                exps@,
                e_from as int,
                n as int,
                num_groups as int,
                w as nat,
                g,
                k,
            ) % group_modulus(),
{
    let ghost gm = group_modulus();
    let mut out: Vec<Point> = Vec::new();
    let mut g: usize = 0;
    while g < num_groups
        invariant
            g <= num_groups,
            out.len() == g * nw,
            forall|g2: int, k2: nat|
                0 <= g2 < g && k2 < nw ==> out@[g2 * nw + k2]@ == #[trigger] spec_partial(
                    bases@,
                    b_from as int,
                    exps@,
                    e_from as int,
                    n as int,
                    num_groups as int,
                    w as nat,
                    g2,
                    k2,
                ) % gm,
        decreases num_groups - g,
    {
        let (lo, hi) = device_chunk(n, num_groups, g);
        let mut k: usize = 0;
        while k < nw
            invariant
                k <= nw,
                g < num_groups,
                lo == spec_chunk_bound(n as int, num_groups as int, g as int),
                hi == spec_chunk_bound(n as int, num_groups as int, g as int + 1),
                lo <= hi <= n,
                out.len() == g * nw + k,
                forall|g2: int, k2: nat|
                    0 <= g2 < g && k2 < nw ==> out@[g2 * nw + k2]@ == #[trigger] spec_partial(
                        bases@,
                        b_from as int,
                        exps@,
                        e_from as int,
                        n as int,
                        num_groups as int,
                        w as nat,
                        g2,
                        k2,
                    ) % gm,
                forall|k2: nat|
                    k2 < k ==> out@[g * nw + k2]@ == #[trigger] spec_partial(
                        bases@,
                        b_from as int,
                        exps@,
                        e_from as int,
                        n as int,
                        num_groups as int,
                        w as nat,
                        g as int,
                        k2,
                    ) % gm,
            decreases nw - k,
        {
            let ghost blv = points_value(bases@.subrange(b_from + lo, b_from + hi));
            let ghost elv = scalars_value(exps@.subrange(e_from + lo, e_from + hi));
            proof {
                assert(k * w <= 63) by (nonlinear_arith)
                    requires
                        k < nw,
                        (nw - 1) * w <= 63,
                        0 <= w,
                ;
            }
            let mut acc = Point::zero();
            let mut i: usize = lo;
            while i < hi
                invariant
                    lo <= i <= hi,
                    acc@ == win_sum(
                        points_value(bases@.subrange(b_from + lo, b_from + i)),
                        scalars_value(exps@.subrange(e_from + lo, e_from + i)),
                        k as nat,
                        w as nat,
                    ) % gm,
                decreases hi - i,
            {
                let wv = window_value(exps[e_from + i].v, k, w);
                let term = bases[b_from + i].scale(&Scalar { v: wv });
                proof {
                    let o = i - lo;
                    let x = win_sum(
                        points_value(bases@.subrange(b_from + lo, b_from + i)),
                        scalars_value(exps@.subrange(e_from + lo, e_from + i)),
                        k as nat,
                        w as nat,
                    );
                    lemma_win_sum_extend(blv, elv, k as nat, w as nat, o);
                    lemma_points_value_subrange(bases@, b_from + lo, b_from + hi, 0, o);
                    lemma_points_value_subrange(bases@, b_from + lo, b_from + hi, 0, o + 1);
                    lemma_scalars_value_subrange(exps@, e_from + lo, e_from + hi, 0, o);
                    lemma_scalars_value_subrange(exps@, e_from + lo, e_from + hi, 0, o + 1);
                    assert(blv[o] == bases@[b_from + i]@);
                    assert(elv[o] == exps@[e_from + i]@);
                    lemma_add_mod_noop(x, window_of(elv[o], k as nat, w as nat) * blv[o], gm);
                }
                acc = acc.add(&term);
                i = i + 1;
            }
            proof {
                assert(points_value(bases@.subrange(b_from + lo, b_from + hi)) == blv);
                assert(acc@ == spec_partial(
                    bases@,
                    b_from as int,
                    exps@,
                    e_from as int,
                    n as int,
                    num_groups as int,
                    w as nat,
                    g as int,
                    k as nat,
                ) % gm);
            }
            out.push(acc);
            k = k + 1;
            proof {
                assert forall|g2: int, k2: nat| 0 <= g2 < g && k2 < nw implies out@[g2 * nw + k2]@
                    == #[trigger] spec_partial(
                    bases@,
                    b_from as int,
                    exps@,
                    e_from as int,
                    n as int,
                    num_groups as int,
                    w as nat,
                    g2,
                    k2,
                ) % gm by {
                    assert(g2 * nw + k2 < g * nw) by (nonlinear_arith)
                        requires
                            0 <= g2,
                            g2 < g,
                            0 <= k2 < nw,
                    ;
                }
            }
        }
        g = g + 1;
        proof {
            assert(out.len() == g * nw) by (nonlinear_arith)
                requires
                    out.len() == (g - 1) * nw + nw,
            ;
            assert forall|g2: int, k2: nat| 0 <= g2 < g && k2 < nw implies out@[g2 * nw + k2]@
                == #[trigger] spec_partial(
                bases@,
                b_from as int,
                exps@,
                e_from as int,
                n as int,
                num_groups as int,
                w as nat,
                g2,
                k2,
            ) % gm by {
                assert(g2 * nw + k2 < g * nw) by (nonlinear_arith)
                    requires
                        0 <= g2,
                        g2 < g,
                        0 <= k2 < nw,
                ;
            }
        }
    }
    out
}

/// The host-side combination: walk the windows most significant first;
/// for each, double the accumulator once per bit of the window (the
/// final, most-significant window carries the remaining, shorter bit
/// count), then add every partition group's partial sum for it.
#[verifier::loop_isolation(false)]
fn combine_windows(
    partials: &Vec<Point>,
    bases: &Vec<Point>,
    b_from: usize,
    exps: &Vec<Scalar>,
    e_from: usize,
    n: usize,
    num_groups: usize,
    nw: usize,
    w: usize,
) -> (r: Point)
    requires
        1 <= w <= 63,
        1 <= num_groups <= 65536,
        1 <= nw <= 64,
        nw == spec_ceil_div(SCALAR_BITS as int, w as int),
        (nw - 1) * w <= 63,
        b_from + n <= bases.len(),
        e_from + n <= exps.len(),
        partials.len() == num_groups * nw,
        forall|g: int, k: nat|
            0 <= g < num_groups && k < nw ==> partials@[g * nw + k]@ == #[trigger] spec_partial(
                bases@,
                b_from as int,
                exps@,
                e_from as int,
                n as int,
                num_groups as int,
                w as nat,
                g,
                k,
            ) % group_modulus(),
    ensures
        r@ == msm(
            points_value(bases@.subrange(b_from as int, b_from + n)),
            scalars_value(exps@.subrange(e_from as int, e_from + n)),
        ) % group_modulus(),
{
    let ghost gm = group_modulus();
    let ghost bsv = points_value(bases@.subrange(b_from as int, b_from + n));
    let ghost esv = scalars_value(exps@.subrange(e_from as int, e_from + n));
    let ghost ws = window_sums(bsv, esv, w as nat, nw as nat);
    proof {
        lemma_ceil_div_bounds(SCALAR_BITS as int, w as int);
        lemma2_to64();
        lemma2_to64_rest();
    }
    let mut acc = Point::zero();
    let mut j: usize = nw;
    while j > 0
        invariant
            j <= nw,
            acc@ == combined(ws, j as nat, w as nat) % gm,
        decreases j,
    {
        j = j - 1;
        let ghost c_up = combined(ws, (j + 1) as nat, w as nat);
        proof {
            assert(j * w <= 63) by (nonlinear_arith)
                requires
                    j < nw,
                    0 <= w,
                    (nw - 1) * w <= 63,
            ;
        }
        let jw = j * w;
        let short = SCALAR_BITS - jw;
        let d = if short < w {
            short
        } else {
            w
        };
        let mut t: usize = 0;
        while t < d
            invariant
                t <= d,
                acc@ == (pow2(t as nat) * c_up) % gm,
            decreases d - t,
        {
            proof {
                lemma_mul_mod_noop_right(2, pow2(t as nat) as int * c_up, gm);
                lemma_pow2_adds(t as nat, 1);
                assert(2 * (pow2(t as nat) as int * c_up) == pow2((t + 1) as nat) as int * c_up)
                    by (nonlinear_arith)
                    requires
                        pow2((t + 1) as nat) == pow2(t as nat) * pow2(1),
                        pow2(1) == 2,
                ;
            }
            acc = acc.double();
            t = t + 1;
        }
        proof {
            // After the doublings the accumulator is the upper windows'
            // combination shifted by one window, whatever d was: for the
            // most-significant window the upper combination is zero.
            if j + 1 < nw {
                assert((j + 1) * w <= SCALAR_BITS && (j + 1) * w == j * w + w)
                    by (nonlinear_arith)
                    requires
                        j + 1 < nw,
                        1 <= w,
                        (nw - 1) * w <= 63,
                ;
                assert(d == w);
            } else {
                assert(c_up == 0);
                assert(pow2(d as nat) as int * 0 == 0) by (nonlinear_arith);
                assert(pow2(w as nat) as int * 0 == 0) by (nonlinear_arith);
            }
            assert(acc@ == (pow2(w as nat) * c_up) % gm);
            lemma_chunk_bounds_tile(n as int, num_groups as int, 0);
        }
        let mut g: usize = 0;
        while g < num_groups
            invariant
                g <= num_groups,
                j < nw,
                acc@ == (pow2(w as nat) * combined(ws, (j + 1) as nat, w as nat) + win_sum(
                    points_value(
                        bases@.subrange(
                            b_from as int,
                            b_from + spec_chunk_bound(n as int, num_groups as int, g as int),
                        ),
                    ),
                    scalars_value(
                        exps@.subrange(
                            e_from as int,
                            e_from + spec_chunk_bound(n as int, num_groups as int, g as int),
                        ),
                    ),
                    j as nat,
                    w as nat,
                )) % gm,
            decreases num_groups - g,
        {
            let ghost lo = spec_chunk_bound(n as int, num_groups as int, g as int);
            let ghost hi = spec_chunk_bound(n as int, num_groups as int, g as int + 1);
            proof {
                assert(g * nw + j < num_groups * nw) by (nonlinear_arith)
                    requires
                        0 <= g < num_groups,
                        0 <= j < nw,
                ;
                lemma_chunk_bounds_tile(n as int, num_groups as int, g as int);
                lemma_chunk_bounds_tile(n as int, num_groups as int, g as int + 1);
            }
            let idx = g * nw + j;
            let p = partials[idx];
            proof {
                assert(p@ == spec_partial(
                    bases@,
                    b_from as int,
                    exps@,
                    e_from as int,
                    n as int,
                    num_groups as int,
                    w as nat,
                    g as int,
                    j as nat,
                ) % gm);
                let xb = points_value(bases@.subrange(b_from as int, b_from + hi));
                let xe = scalars_value(exps@.subrange(e_from as int, e_from + hi));
                lemma_win_sum_split(xb, xe, j as nat, w as nat, lo);
                lemma_points_value_subrange(bases@, b_from as int, b_from + hi, 0, lo);
                lemma_points_value_subrange(bases@, b_from as int, b_from + hi, lo, hi);
                lemma_scalars_value_subrange(exps@, e_from as int, e_from + hi, 0, lo);
                lemma_scalars_value_subrange(exps@, e_from as int, e_from + hi, lo, hi);
                let a = pow2(w as nat) * combined(ws, (j + 1) as nat, w as nat) + win_sum(
                    points_value(bases@.subrange(b_from as int, b_from + lo)),
                    scalars_value(exps@.subrange(e_from as int, e_from + lo)),
                    j as nat,
                    w as nat,
                );
                let b = win_sum(
                    points_value(bases@.subrange(b_from + lo, b_from + hi)),
                    scalars_value(exps@.subrange(e_from + lo, e_from + hi)),
                    j as nat,
                    w as nat,
                );
                lemma_add_mod_noop(a, b, gm);
            }
            acc = acc.add(&p);
            g = g + 1;
        }
        proof {
            lemma_chunk_bounds_tile(n as int, num_groups as int, num_groups as int);
            assert(bases@.subrange(b_from as int, b_from + n) =~= bases@.subrange(
                b_from as int,
                b_from + spec_chunk_bound(n as int, num_groups as int, num_groups as int),
            ));
            assert(exps@.subrange(e_from as int, e_from + n) =~= exps@.subrange(
                e_from as int,
                e_from + spec_chunk_bound(n as int, num_groups as int, num_groups as int),
            ));
            assert(ws[j as int] == win_sum(bsv, esv, j as nat, w as nat));
        }
    }
    proof {
        lemma_combined_weighted(ws, 0, w as nat);
        assert(1 * combined(ws, 0, w as nat) == combined(ws, 0, w as nat)) by (nonlinear_arith);
        assert(forall|i: int|
            0 <= i < esv.len() ==> 0 <= #[trigger] esv[i] < pow2(SCALAR_BITS as nat));
        assert((w as int) * (nw as int) == (nw as int) * (w as int)) by (nonlinear_arith);
        lemma_window_sums_msm(bsv, esv, w as nat, SCALAR_BITS as nat, nw as nat);
    }
    acc
}

/// Multiexp kernel bound to one device, with buffers for a fixed maximum
/// batch; releasing and reopening device buffers is expensive, so a kernel
/// is built at most once per device per scheduler lifetime.
pub struct SingleMultiexpKernel {
    config: DeviceConfig,
}

impl SingleMultiexpKernel {
    /// The validated configuration the kernel was built with.
    pub closed spec fn spec_config(&self) -> DeviceConfig {
        self.config
    }

    /// A kernel holds a buildable geometry.
    pub open spec fn wf(&self) -> bool {
        spec_config_valid(self.spec_config())
    }

    /// Build the kernel for one device: buffer sets are sized from the
    /// maximum batch and the window geometry. An unbuildable geometry is a
    /// build failure, reported as an error, never a panic.
    pub fn create(config: DeviceConfig) -> (r: GPUResult<SingleMultiexpKernel>)
        ensures
            r is Ok <==> spec_config_valid(config),
            r matches Ok(k) ==> k.spec_config() == config,
    {
        if config.max_batch >= 1 && config.window_size >= 1 && config.window_size <= 63
            && config.num_groups >= 1 && config.num_groups <= 65536 {
            Ok(SingleMultiexpKernel { config })
        } else {
            Err(GPUError::Msg("Could not build device buffers!".to_owned()))
        }
    }

    /// Exact element capacity of the device buffers.
    pub fn max_batch(&self) -> (r: usize)
        ensures
            r == self.spec_config().max_batch,
    {
        self.config.max_batch
    }

    /// One dispatch: multiexp over the `n` pairs `(bases[b_from + i],
    /// exps[e_from + i])`, `n` at most the buffer capacity. Succeeds
    /// exactly when the requested group has a buffer set here and the
    /// device dispatch goes through; the result is then the batch's
    /// multiexp in the model group.
    pub fn multiexp(
        &self,
        bases: &Vec<Point>,
        b_from: usize,
        exps: &Vec<Scalar>,
        e_from: usize,
        n: usize,
        group: CurveGroup,
    ) -> (r: GPUResult<Point>)
        requires
            self.wf(),
            n <= self.spec_config().max_batch,
            b_from + n <= bases.len(),
            e_from + n <= exps.len(),
        ensures
            r is Ok <==> spec_supports(self.spec_config(), group) && !self.spec_config().faulty,
            r matches Ok(p) ==> p@ == msm(
                points_value(bases@.subrange(b_from as int, b_from + n)),
                scalars_value(exps@.subrange(e_from as int, e_from + n)),
            ) % group_modulus(),
    {
        let supported = match group {
            CurveGroup::Primary => self.config.has_primary,
            CurveGroup::Secondary => self.config.has_secondary,
        };
        if !supported {
            return Err(
                GPUError::Msg("Requested curve group has no buffer set on this device!".to_owned()),
            );
        }
        if self.config.faulty {
            return Err(GPUError::Msg("Device dispatch failed!".to_owned()));
        }
        let w = self.config.window_size;
        let nw = ceil_div(SCALAR_BITS, w);
        proof {
            lemma_ceil_div_bounds(SCALAR_BITS as int, w as int);
            assert((nw - 1) * w <= 63) by (nonlinear_arith)
                requires
                    nw == spec_ceil_div(SCALAR_BITS as int, w as int),
                    (w as int) * (nw as int) <= SCALAR_BITS + w - 1,
                    1 <= w,
            ;
        }
        let partials = simulate_dispatch(
            bases,
            b_from,
            exps,
            e_from,
            n,
            self.config.num_groups,
            nw,
            w,
        );
        let acc = combine_windows(
            &partials,
            bases,
            b_from,
            exps,
            e_from,
            n,
            self.config.num_groups,
            nw,
            w,
        );
        Ok(acc)
    }
}

/// Whether a kernel can carry out a dispatch in group `g`.
pub open spec fn spec_kernel_works(k: SingleMultiexpKernel, g: CurveGroup) -> bool {
    spec_supports(k.spec_config(), g) && !k.spec_config().faulty
}

/// Whether every device that is dealt a non-empty chunk of the `gpu_n`
/// GPU-side pairs can carry out its dispatches in group `g`. When it
/// fails, the whole request fails: a dropped partial sum would silently
/// corrupt the result.
pub open spec fn spec_dispatch_ok(
    ks: Seq<SingleMultiexpKernel>,
    g: CurveGroup,
    gpu_n: int,
) -> bool {
    forall|i: int|
        0 <= i < ks.len() && spec_chunk_bound(gpu_n, ks.len() as int, i) < spec_chunk_bound(
            gpu_n,
            ks.len() as int,
            i + 1,
        ) ==> spec_kernel_works(#[trigger] ks[i], g)
}

/// Whether a set of device configurations yields a scheduler: at least
/// one device, each with a buildable geometry.
pub open spec fn spec_create_ok(cs: Seq<DeviceConfig>) -> bool {
    cs.len() >= 1 && forall|i: int| 0 <= i < cs.len() ==> spec_config_valid(#[trigger] cs[i])
}

/// The GPU-side share of a request of `n` pairs over `d` devices.
pub open spec fn spec_gpu_n(n: int, d: int) -> int {
    n - spec_cpu_n(n, d, SPEEDUP_NUM as int, SPEEDUP_DEN as int)
}

/// The multiexp of each device's contiguous chunk of a segment, in deal
/// order.
pub open spec fn spec_chunk_msms(bs: Seq<int>, es: Seq<int>, d: int) -> Seq<int> {
    Seq::new(
        d as nat,
        |i: int|
            msm(
                bs.subrange(
                    spec_chunk_bound(bs.len() as int, d, i),
                    spec_chunk_bound(bs.len() as int, d, i + 1),
                ),
                es.subrange(
                    spec_chunk_bound(bs.len() as int, d, i),
                    spec_chunk_bound(bs.len() as int, d, i + 1),
                ),
            ),
    )
}

proof fn lemma_chunk_msms_prefix(bs: Seq<int>, es: Seq<int>, d: int, j: int)
    requires
        bs.len() == es.len(),
        1 <= d,
        0 <= j <= d,
    ensures
        sum_ints(spec_chunk_msms(bs, es, d).subrange(0, j)) == msm(
            bs.subrange(0, spec_chunk_bound(bs.len() as int, d, j)),
            es.subrange(0, spec_chunk_bound(bs.len() as int, d, j)),
        ),
    decreases j,
{
    let n = bs.len() as int;
    let cm = spec_chunk_msms(bs, es, d);
    if j == 0 {
        lemma_chunk_bounds_tile(n, d, 0);
        assert(cm.subrange(0, 0).len() == 0);
        assert(bs.subrange(0, 0).len() == 0);
    } else {
        lemma_chunk_msms_prefix(bs, es, d, j - 1);
        lemma_chunk_bounds_tile(n, d, j - 1);
        lemma_chunk_bounds_tile(n, d, j);
        let lo = spec_chunk_bound(n, d, j - 1);
        let hi = spec_chunk_bound(n, d, j);
        assert(cm.subrange(0, j).drop_last() =~= cm.subrange(0, j - 1));
        assert(cm.subrange(0, j).last() == cm[j - 1]);
        lemma_msm_split(bs.subrange(0, hi), es.subrange(0, hi), lo);
        assert(bs.subrange(0, hi).subrange(0, lo) =~= bs.subrange(0, lo));
        assert(es.subrange(0, hi).subrange(0, lo) =~= es.subrange(0, lo));
        assert(bs.subrange(0, hi).subrange(lo, hi) =~= bs.subrange(lo, hi));
        assert(es.subrange(0, hi).subrange(lo, hi) =~= es.subrange(lo, hi));
    }
}

/// Law: dealing a segment into the per-device contiguous chunks loses
/// nothing, and the chunks' partial results may be collected in any
/// arrival order — every shuffle of them sums to the segment's multiexp.
pub proof fn lemma_chunk_reordering(bs: Seq<int>, es: Seq<int>, d: int, shuffled: Seq<int>)
    requires
        bs.len() == es.len(),
        1 <= d,
        shuffled.to_multiset() == spec_chunk_msms(bs, es, d).to_multiset(),
    ensures
        sum_ints(shuffled) == msm(bs, es),
{
    let n = bs.len() as int;
    lemma_chunk_msms_prefix(bs, es, d, d);
    lemma_chunk_bounds_tile(n, d, d);
    assert(spec_chunk_msms(bs, es, d).subrange(0, d) =~= spec_chunk_msms(bs, es, d));
    assert(bs.subrange(0, n) =~= bs);
    assert(es.subrange(0, n) =~= es);
    lemma_sum_permutation(shuffled, spec_chunk_msms(bs, es, d));
}

/// The multi-device scheduler: one multiexp kernel per device, plus the
/// CPU worker pool as a concurrent partner that takes a fixed share of
/// every request. With no devices the whole request runs on the pool.
pub struct MultiexpKernel {
    kernels: Vec<SingleMultiexpKernel>,
}

impl MultiexpKernel {
    /// The kernels, one per device.
    pub closed spec fn spec_kernels(&self) -> Seq<SingleMultiexpKernel> {
        self.kernels@
    }

    /// Every kernel holds a buildable geometry.
    pub open spec fn wf(&self) -> bool {
        forall|i: int|
            0 <= i < self.spec_kernels().len() ==> (#[trigger] self.spec_kernels()[i]).wf()
    }

    /// How many devices the scheduler drives.
    pub fn device_count(&self) -> (r: usize)
        ensures
            r == self.spec_kernels().len(),
    {
        self.kernels.len()
    }

    /// Build one kernel per configured device. Fails when no device is
    /// configured or some device's buffers cannot be built; the resource
    /// cache's factory turns that failure into an absent kernel and the
    /// computation proceeds on the CPU path.
    #[verifier::loop_isolation(false)]
    pub fn create(configs: &Vec<DeviceConfig>) -> (r: GPUResult<MultiexpKernel>)
        ensures
            r is Ok <==> spec_create_ok(configs@),
            r matches Ok(k) ==> k.wf() && k.spec_kernels().len() == configs@.len() && forall|
                i: int,
            |
                0 <= i < configs@.len() ==> (#[trigger] k.spec_kernels()[i]).spec_config()
                    == configs@[i],
    {
        if configs.len() == 0 {
            return Err(GPUError::Msg("No working GPUs found!".to_owned()));
        }
        let mut kernels: Vec<SingleMultiexpKernel> = Vec::new();
        let mut i: usize = 0;
        while i < configs.len()
            invariant
                i <= configs.len(),
                kernels.len() == i,
                forall|j: int| 0 <= j < i ==> spec_config_valid(#[trigger] configs@[j]),
                forall|j: int|
                    0 <= j < i ==> (#[trigger] kernels@[j]).spec_config() == configs@[j],
            decreases configs.len() - i,
        {
            let c = configs[i];
            match SingleMultiexpKernel::create(c) {
                Ok(k) => {
                    kernels.push(k);
                },
                Err(e) => {
                    return Err(e);
                },
            }
            i = i + 1;
        }
        let r = MultiexpKernel { kernels };
        proof {
            assert forall|j: int| 0 <= j < r.spec_kernels().len() implies (#[trigger] r
                .spec_kernels()[j]).wf() by {
                assert(r.spec_kernels()[j].spec_config() == configs@[j]);
            }
        }
        Ok(r)
    }

    /// Schedule one multiexp request: the pool takes `cpu_n` pairs per
    /// the throughput model, the remaining `gpu_n` are dealt to the
    /// devices in contiguous chunks, each device looping over its chunk
    /// in sub-batches of its buffer capacity; every partial result is
    /// added into one element. Bases are read from `skip` on, exponents
    /// from the start. Fails exactly when some device with a non-empty
    /// chunk cannot dispatch — a dropped partial would corrupt the sum —
    /// and otherwise returns the whole request's multiexp.
    #[verifier::loop_isolation(false)]
    #[verifier::rlimit(60)]
    pub fn multiexp(
        &self,
        pool: &Worker,
        bases: &Vec<Point>,
        exps: &Vec<Scalar>,
        group: CurveGroup,
        skip: usize,
        n: usize,
    ) -> (r: GPUResult<Point>)
        requires
            self.wf(),
            skip + n <= bases.len(),
            n <= exps.len(),
        ensures
            r is Ok <==> spec_dispatch_ok(
                self.spec_kernels(),
                group,
                spec_gpu_n(n as int, self.spec_kernels().len() as int),
            ),
            r matches Ok(p) ==> p@ == msm(
                points_value(bases@.subrange(skip as int, skip + n)),
                scalars_value(exps@.subrange(0, n as int)),
            ) % group_modulus(),
    {
        let ghost gm = group_modulus();
        let ghost ks = self.spec_kernels();
        let d = self.kernels.len();
        let cpu_n = compute_cpu_n(n, d, SPEEDUP_NUM, SPEEDUP_DEN);
        let gpu_n = n - cpu_n;
        let mut acc = pool.multiexp(bases, skip, exps, 0, cpu_n);
        if d == 0 {
            proof {
                assert(bases@.subrange(skip as int, skip + cpu_n) =~= bases@.subrange(
                    skip as int,
                    skip + n,
                ));
                assert(exps@.subrange(0, cpu_n as int) =~= exps@.subrange(0, n as int));
            }
            return Ok(acc);
        }
        proof {
            lemma_chunk_bounds_tile(gpu_n as int, d as int, 0);
        }
        let mut i: usize = 0;
        while i < d
            invariant
                i <= d,
                acc@ == msm(
                    points_value(
                        bases@.subrange(
                            skip as int,
                            skip + cpu_n + spec_chunk_bound(gpu_n as int, d as int, i as int),
                        ),
                    ),
                    scalars_value(
                        exps@.subrange(
                            0,
                            cpu_n + spec_chunk_bound(gpu_n as int, d as int, i as int),
                        ),
                    ),
                ) % gm,
                forall|i2: int|
                    0 <= i2 < i && spec_chunk_bound(gpu_n as int, d as int, i2) < spec_chunk_bound(
                        gpu_n as int,
                        d as int,
                        i2 + 1,
                    ) ==> spec_kernel_works(#[trigger] ks[i2], group),
            decreases d - i,
        {
            let (lo, hi) = device_chunk(gpu_n, d, i);
            if lo < hi {
                proof {
                    assert(self.spec_kernels()[i as int].wf());
                }
                let kern = &self.kernels[i];
                let cap = kern.max_batch();
                let mut j = lo;
                while j < hi
                    invariant
                        lo <= j <= hi,
                        lo < j ==> spec_kernel_works(ks[i as int], group),
                        acc@ == msm(
                            points_value(bases@.subrange(skip as int, skip + cpu_n + j)),
                            scalars_value(exps@.subrange(0, cpu_n + j as int)),
                        ) % gm,
                    decreases hi - j,
                {
                    let m = if hi - j > cap {
                        cap
                    } else {
                        hi - j
                    };
                    match kern.multiexp(bases, skip + cpu_n + j, exps, cpu_n + j, m, group) {
                        Ok(p) => {
                            proof {
                                let pre = (cpu_n + j) as int;
                                let x = msm(
                                    points_value(bases@.subrange(skip as int, skip + pre)),
                                    scalars_value(exps@.subrange(0, pre)),
                                );
                                let y = msm(
                                    points_value(
                                        bases@.subrange(skip + pre, skip + pre + m),
                                    ),
                                    scalars_value(exps@.subrange(pre, pre + m)),
                                );
                                lemma_msm_split(
                                    points_value(bases@.subrange(skip as int, skip + pre + m)),
                                    scalars_value(exps@.subrange(0, pre + m)),
                                    pre,
                                );
                                lemma_points_value_subrange(bases@, skip as int, skip + pre + m, 0, pre);
                                lemma_points_value_subrange(
                                    bases@,
                                    skip as int,
                                    skip + pre + m,
                                    pre,
                                    pre + m,
                                );
                                lemma_scalars_value_subrange(exps@, 0, pre + m, 0, pre);
                                lemma_scalars_value_subrange(exps@, 0, pre + m, pre, pre + m);
                                assert(exps@.subrange(0, pre + m).subrange(pre, pre + m)
                                    =~= exps@.subrange(pre, pre + m));
                                assert(exps@.subrange(0, pre + m).subrange(0, pre)
                                    =~= exps@.subrange(0, pre));
                                lemma_add_mod_noop(x, y, gm);
                            }
                            acc = acc.add(&p);
                        },
                        Err(e) => {
                            proof {
                                assert(!spec_kernel_works(ks[i as int], group));
                                assert(!spec_dispatch_ok(
                                    ks,
                                    group,
                                    spec_gpu_n(n as int, ks.len() as int),
                                ));
                            }
                            return Err(e);
                        },
                    }
                    j = j + m;
                }
            }
            i = i + 1;
        }
        proof {
            lemma_chunk_bounds_tile(gpu_n as int, d as int, d as int);
            assert(bases@.subrange(skip as int, skip + cpu_n + gpu_n) =~= bases@.subrange(
                skip as int,
                skip + n,
            ));
            assert(exps@.subrange(0, (cpu_n + gpu_n) as int) =~= exps@.subrange(0, n as int));
        }
        Ok(acc)
    }
}

} // verus!
