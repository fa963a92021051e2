//! The CPU/GPU work split and the per-device chunking.
//!
//! A request of `n` pairs is divided according to a throughput model: with
//! `d` devices, each `s_num / s_den` times as fast as the CPU worker pool,
//! the pool takes `ceil(n / (d * s_num / s_den + 1))` pairs and the rest is
//! dealt to the devices in contiguous chunks of `ceil(gpu_n / d)`.

use vstd::prelude::*;

verus! {

use vstd::arithmetic::div_mod::lemma_basic_div;
use vstd::arithmetic::div_mod::lemma_div_is_ordered;
use vstd::arithmetic::div_mod::lemma_div_multiples_vanish_fancy;
use vstd::arithmetic::div_mod::lemma_div_plus_one;
use vstd::arithmetic::div_mod::lemma_fundamental_div_mod;
use vstd::arithmetic::mul::lemma_mul_is_distributive_add_other_way;

/// Ceiling division over the integers.
pub open spec fn spec_ceil_div(a: int, b: int) -> int {
    (a + b - 1) / b
}

/// The CPU share of a request of `n` pairs over `d` devices:
/// `ceil(n / (d * S + 1))` with the speedup `S` as the ratio `s_num / s_den`.
pub open spec fn spec_cpu_n(n: int, d: int, s_num: int, s_den: int) -> int {
    spec_ceil_div(n * s_den, d * s_num + s_den)
}

/// Basic bounds of ceiling division.
pub proof fn lemma_ceil_div_bounds(a: int, b: int)
    requires
        0 <= a,
        1 <= b,
    ensures
        0 <= spec_ceil_div(a, b) <= a,
        a <= b * spec_ceil_div(a, b) <= a + b - 1,
        1 <= a ==> 1 <= spec_ceil_div(a, b),
        a == 0 ==> spec_ceil_div(a, b) == 0,
{
    let q = spec_ceil_div(a, b);
    let r = (a + b - 1) % b;
    lemma_fundamental_div_mod(a + b - 1, b);
    assert(a + b - 1 == b * q + r);
    assert(0 <= r < b);
    if a == 0 {
        lemma_basic_div(b - 1, b);
    }
    assert(q >= 0 && b * q >= a) by (nonlinear_arith)
        requires
            a + b - 1 == b * q + r,
            0 <= r < b,
            0 <= a,
            1 <= b,
    ;
    assert(b * q <= a + b - 1);
    assert(q <= a && (1 <= a ==> 1 <= q)) by (nonlinear_arith)
        requires
            a + b - 1 == b * q + r,
            0 <= r < b,
            0 <= a,
            1 <= b,
            0 <= q,
    ;
}

/// Ceiling division is monotone in the numerator, and exact on multiples.
pub proof fn lemma_ceil_div_le_factor(a: int, b: int, n: int)
    requires
        0 <= a,
        1 <= b,
        0 <= n,
        a <= n * b,
    ensures
        spec_ceil_div(a, b) <= n,
        a == n * b ==> spec_ceil_div(a, b) == n,
{
    lemma_div_is_ordered(a + b - 1, n * b + b - 1, b);
    assert(n * b + b - 1 == b * n + (b - 1)) by (nonlinear_arith);
    lemma_div_multiples_vanish_fancy(n, b - 1, b);
    if a == n * b {
        lemma_ceil_div_bounds(a, b);
        assert(b * spec_ceil_div(a, b) >= n * b);
        assert(spec_ceil_div(a, b) >= n) by (nonlinear_arith)
            requires
                b * spec_ceil_div(a, b) >= n * b,
                1 <= b,
        ;
    }
}

/// Ceiling division.
pub fn ceil_div(a: usize, b: usize) -> (r: usize)
    requires
        1 <= b,
    ensures
        r == spec_ceil_div(a as int, b as int),
        r <= a,
        1 <= a ==> 1 <= r,
{
    proof {
        lemma_ceil_div_bounds(a as int, b as int);
    }
    if a == 0 {
        0
    } else {
        let q = (a - 1) / b;
        proof {
            lemma_div_plus_one(a - 1, b as int);
            lemma_div_is_ordered(a - 1, a as int, b as int);
        }
        q + 1
    }
}

/// How many of the `n` pairs the CPU worker pool takes, per the throughput
/// model: `cpu_n = ceil(n / (d * s_num / s_den + 1))`. The whole request
/// stays accounted for: the devices take exactly `n - cpu_n`; the pool
/// always takes at least one pair of a non-empty request; and with no
/// devices the pool takes everything.
pub fn compute_cpu_n(n: usize, num_devices: usize, s_num: usize, s_den: usize) -> (r: usize)
    requires
        1 <= s_den,
    ensures
        r == spec_cpu_n(n as int, num_devices as int, s_num as int, s_den as int),
        r <= n,
        1 <= n ==> 1 <= r,
        num_devices == 0 ==> r == n,
{
    proof {
        assert((n as int) * (s_den as int) < 0x1_0000_0000_0000_0000_0000_0000_0000_0000
            && (num_devices as int) * (s_num as int) + (s_den as int)
                < 0x1_0000_0000_0000_0000_0000_0000_0000_0000) by (nonlinear_arith)
            requires
                (n as int) < 0x1_0000_0000_0000_0000,
                (s_den as int) < 0x1_0000_0000_0000_0000,
                (num_devices as int) < 0x1_0000_0000_0000_0000,
                (s_num as int) < 0x1_0000_0000_0000_0000,
                0 <= n as int,
                0 <= s_den as int,
                0 <= num_devices as int,
                0 <= s_num as int,
        ;
    }
    let a: u128 = (n as u128) * (s_den as u128);
    let b: u128 = (num_devices as u128) * (s_num as u128) + (s_den as u128);
    let ghost ai = a as int;
    let ghost bi = b as int;
    proof {
        lemma_ceil_div_bounds(ai, bi);
        assert(ai <= n as int * bi && (num_devices == 0 ==> ai == n as int * bi))
            by (nonlinear_arith)
            requires
                ai == n as int * s_den as int,
                bi == num_devices as int * s_num as int + s_den as int,
                0 <= n as int,
                0 <= num_devices as int,
                0 <= s_num as int,
                1 <= s_den as int,
        ;
        lemma_ceil_div_le_factor(ai, bi, n as int);
        if n >= 1 {
            assert(1 <= ai) by (nonlinear_arith)
                requires
                    ai == n as int * s_den as int,
                    1 <= n as int,
                    1 <= s_den as int,
            ;
        }
    }
    let r: u128 = if a == 0 {
        0
    } else {
        let q = (a - 1) / b;
        proof {
            lemma_div_plus_one(ai - 1, bi);
            lemma_div_is_ordered(ai - 1, ai, bi);
        }
        q + 1
    };
    r as usize
}

/// Where the contiguous chunk of device `i` begins within the GPU segment
/// of `gpu_n` pairs dealt to `d` devices (clamped to the segment's end).
pub open spec fn spec_chunk_bound(gpu_n: int, d: int, i: int) -> int {
    let c = spec_ceil_div(gpu_n, d);
    if i * c > gpu_n {
        gpu_n
    } else {
        i * c
    }
}

/// The chunk bounds tile the GPU segment: they start at zero, end at
/// `gpu_n`, and each device's chunk follows the previous one contiguously.
pub proof fn lemma_chunk_bounds_tile(gpu_n: int, d: int, i: int)
    requires
        0 <= gpu_n,
        1 <= d,
        0 <= i <= d,
    ensures
        spec_chunk_bound(gpu_n, d, 0) == 0,
        spec_chunk_bound(gpu_n, d, d) == gpu_n,
        0 <= spec_chunk_bound(gpu_n, d, i) <= gpu_n,
        i < d ==> spec_chunk_bound(gpu_n, d, i) <= spec_chunk_bound(gpu_n, d, i + 1),
{
    let c = spec_ceil_div(gpu_n, d);
    lemma_ceil_div_bounds(gpu_n, d);
    assert(0 * c == 0) by (nonlinear_arith);
    assert(d * c == c * d && gpu_n <= d * c) by (nonlinear_arith)
        requires
            gpu_n <= d * spec_ceil_div(gpu_n, d),
            c == spec_ceil_div(gpu_n, d),
    ;
    assert(i * c >= 0 && (i < d ==> i * c <= (i + 1) * c)) by (nonlinear_arith)
        requires
            0 <= i,
            0 <= c,
    ;
}

/// The contiguous chunk `[lo, hi)` of the GPU segment assigned to device
/// `i` out of `d`: chunk size `ceil(gpu_n / d)`, last chunks clamped (or
/// empty) when the segment runs out.
pub fn device_chunk(gpu_n: usize, num_devices: usize, i: usize) -> (r: (usize, usize))
    requires
        1 <= num_devices,
        i < num_devices,
    ensures
        r.0 == spec_chunk_bound(gpu_n as int, num_devices as int, i as int),
        r.1 == spec_chunk_bound(gpu_n as int, num_devices as int, i as int + 1),
        r.0 <= r.1 <= gpu_n,
{
    proof {
        lemma_chunk_bounds_tile(gpu_n as int, num_devices as int, i as int);
        lemma_chunk_bounds_tile(gpu_n as int, num_devices as int, i as int + 1);
    }
    let c = ceil_div(gpu_n, num_devices);
    proof {
        assert(0 <= (i as int) * (c as int)
            && (i as int) * (c as int) + (c as int) < 0x1_0000_0000_0000_0000_0000_0000_0000_0000
            && (i as int) * (c as int) + (c as int) == ((i as int) + 1) * (c as int))
            by (nonlinear_arith)
            requires
                0 <= i as int,
                (i as int) < 0x1_0000_0000_0000_0000,
                0 <= c as int,
                (c as int) < 0x1_0000_0000_0000_0000,
        ;
    }
    let lo128: u128 = (i as u128) * (c as u128);
    let hi128: u128 = lo128 + (c as u128);
    let lo: usize = if lo128 >= gpu_n as u128 {
        gpu_n
    } else {
        lo128 as usize
    };
    let hi: usize = if hi128 >= gpu_n as u128 {
        gpu_n
    } else {
        hi128 as usize
    };
    (lo, hi)
}

} // verus!

