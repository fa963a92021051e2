//! The model group and the multiexp specification.
//!
//! Curve and field arithmetic is an external capability, so the group the
//! scheduler sums over is modelled concretely: the integers modulo 2^64
//! under addition. Scheduling, partitioning and combination are thereby
//! executable and carry exact contracts; swapping in a real curve group
//! changes only the element type and its two operations.

use vstd::prelude::*;

verus! {

/// Order of the model group: every executable result is a residue mod 2^64.
pub open spec fn group_modulus() -> int {
    0x1_0000_0000_0000_0000
}

/// A group element, standing where a projective curve point would.
#[derive(Debug, Clone, Copy, PartialEq, Eq, Structural)]
pub struct Point {
    pub v: u64,
}

/// A scalar exponent in its fixed-width representation.
#[derive(Debug, Clone, Copy, PartialEq, Eq, Structural)]
pub struct Scalar {
    pub v: u64,
}

/// Bit width of a scalar representation.
pub const SCALAR_BITS: usize = 64;

impl View for Point {
    type V = int;

    open spec fn view(&self) -> int {
        self.v as int
    }
}

impl View for Scalar {
    type V = int;

    open spec fn view(&self) -> int {
        self.v as int
    }
}

impl Point {
    /// The identity element.
    pub fn zero() -> (r: Point)
        ensures
            r@ == 0,
    {
        Point { v: 0 }
    }

    /// Group addition.
    pub fn add(&self, other: &Point) -> (r: Point)
        ensures
            r@ == (self@ + other@) % group_modulus(),
    {
        let s: u128 = self.v as u128 + other.v as u128;
        Point { v: (s % 0x1_0000_0000_0000_0000u128) as u64 }
    }

    /// Group addition in place.
    pub fn add_assign(&mut self, other: &Point)
        ensures
            final(self)@ == (old(self)@ + other@) % group_modulus(),
    {
        let s: u128 = self.v as u128 + other.v as u128;
        self.v = (s % 0x1_0000_0000_0000_0000u128) as u64;
    }

    /// Doubling.
    pub fn double(&self) -> (r: Point)
        ensures
            r@ == (2 * self@) % group_modulus(),
    {
        self.add(self)
    }

    /// Scalar multiplication.
    pub fn scale(&self, s: &Scalar) -> (r: Point)
        ensures
            r@ == (s@ * self@) % group_modulus(),
    {
        proof {
            assert((self.v as int) * (s.v as int) < 0x1_0000_0000_0000_0000_0000_0000_0000_0000)
                by (nonlinear_arith)
                requires
                    self.v as int <= 0xffff_ffff_ffff_ffff,
                    s.v as int <= 0xffff_ffff_ffff_ffff,
            ;
        }
        let p: u128 = (self.v as u128) * (s.v as u128);
        proof {
            vstd::arithmetic::mul::lemma_mul_is_commutative(self.v as int, s.v as int);
        }
        Point { v: (p % 0x1_0000_0000_0000_0000u128) as u64 }
    }
}

/// The values of a sequence of points.
pub open spec fn points_value(s: Seq<Point>) -> Seq<int> {
    s.map_values(|p: Point| p@)
}

/// The values of a sequence of scalars.
pub open spec fn scalars_value(s: Seq<Scalar>) -> Seq<int> {
    s.map_values(|e: Scalar| e@)
}

/// Mathematical multi-scalar multiplication: the sum of `exps[i] * bases[i]`
/// over the unbounded integers. Executable results equal it modulo the group
/// order.
pub open spec fn msm(bases: Seq<int>, exps: Seq<int>) -> int
    decreases bases.len(),
{
    if bases.len() == 0 || exps.len() == 0 {
        0
    } else {
        msm(bases.drop_last(), exps.drop_last()) + exps.last() * bases.last()
    }
}

/// The multiexp of contiguous parts adds up: cutting the pairs at `m` and
/// summing the two parts' multiexps reproduces the whole.
pub proof fn lemma_msm_split(bases: Seq<int>, exps: Seq<int>, m: int)
    requires
        bases.len() == exps.len(),
        0 <= m <= bases.len(),
    ensures
        msm(bases, exps) == msm(bases.subrange(0, m), exps.subrange(0, m)) + msm(
            bases.subrange(m, bases.len() as int),
            exps.subrange(m, exps.len() as int),
        ),
    decreases bases.len(),
{
    let n = bases.len() as int;
    if m == n {
        assert(bases.subrange(0, m) =~= bases);
        assert(exps.subrange(0, m) =~= exps);
        assert(bases.subrange(m, n).len() == 0);
    } else {
        let bh = bases.drop_last();
        let eh = exps.drop_last();
        lemma_msm_split(bh, eh, m);
        assert(bh.subrange(0, m) =~= bases.subrange(0, m));
        assert(eh.subrange(0, m) =~= exps.subrange(0, m));
        assert(bh.subrange(m, n - 1) =~= bases.subrange(m, n).drop_last());
        assert(eh.subrange(m, n - 1) =~= exps.subrange(m, n).drop_last());
        assert(bases.subrange(m, n).last() == bases.last());
        assert(exps.subrange(m, n).last() == exps.last());
    }
}

/// One more pair extends the multiexp by its term.
pub proof fn lemma_msm_extend(bs: Seq<int>, es: Seq<int>, i: int)
    requires
        bs.len() == es.len(),
        0 <= i < bs.len(),
    ensures
        msm(bs.subrange(0, i + 1), es.subrange(0, i + 1)) == msm(
            bs.subrange(0, i),
            es.subrange(0, i),
        ) + es[i] * bs[i],
{
    assert(bs.subrange(0, i + 1).drop_last() =~= bs.subrange(0, i));
    assert(es.subrange(0, i + 1).drop_last() =~= es.subrange(0, i));
}

/// Taking values commutes with taking subranges of a point sequence.
pub proof fn lemma_points_value_subrange(s: Seq<Point>, a: int, b: int, c: int, d: int)
    requires
        0 <= a <= b <= s.len(),
        0 <= c <= d <= b - a,
    ensures
        points_value(s.subrange(a, b)).subrange(c, d) == points_value(s.subrange(a + c, a + d)),
{
    assert(points_value(s.subrange(a, b)).subrange(c, d) =~= points_value(
        s.subrange(a + c, a + d),
    ));
}

/// Taking values commutes with taking subranges of a scalar sequence.
pub proof fn lemma_scalars_value_subrange(s: Seq<Scalar>, a: int, b: int, c: int, d: int)
    requires
        0 <= a <= b <= s.len(),
        0 <= c <= d <= b - a,
    ensures
        scalars_value(s.subrange(a, b)).subrange(c, d) == scalars_value(s.subrange(a + c, a + d)),
{
    assert(scalars_value(s.subrange(a, b)).subrange(c, d) =~= scalars_value(
        s.subrange(a + c, a + d),
    ));
}

/// The sum of a sequence of partial results.
pub open spec fn sum_ints(s: Seq<int>) -> int
    decreases s.len(),
{
    if s.len() == 0 {
        0
    } else {
        sum_ints(s.drop_last()) + s.last()
    }
}

/// Removing one element removes exactly its contribution from the sum.
pub proof fn lemma_sum_remove(s: Seq<int>, i: int)
    requires
        0 <= i < s.len(),
    ensures
        sum_ints(s.remove(i)) == sum_ints(s) - s[i],
    decreases s.len(),
{
    let n = s.len() as int;
    if i == n - 1 {
        assert(s.remove(i) =~= s.drop_last());
    } else {
        lemma_sum_remove(s.drop_last(), i);
        assert(s.remove(i).drop_last() =~= s.drop_last().remove(i));
        assert(s.remove(i).last() == s.last());
    }
}

/// Law: a sum of partial results does not depend on the order in which the
/// parts arrive — handing the same contiguous chunks to the workers in any
/// other order leaves the combined result unchanged.
pub proof fn lemma_sum_permutation(s1: Seq<int>, s2: Seq<int>)
    requires
        s1.to_multiset() == s2.to_multiset(),
    ensures
        sum_ints(s1) == sum_ints(s2),
    decreases s1.len(),
{
    broadcast use vstd::seq_lib::group_to_multiset_ensures;

    if s1.len() == 0 {
        assert(s2.to_multiset().len() == 0);
    } else {
        let n = s1.len() as int;
        let x = s1.last();
        assert(s1.contains(x));
        assert(s1.to_multiset().count(x) > 0);
        assert(s2.to_multiset().count(x) > 0);
        assert(s2.contains(x));
        let j = choose|j: int| 0 <= j < s2.len() && s2[j] == x;
        lemma_sum_remove(s2, j);
        assert(s1.drop_last() =~= s1.remove(n - 1));
        assert(s1.remove(n - 1).to_multiset() =~= s1.to_multiset().remove(x));
        assert(s2.remove(j).to_multiset() =~= s2.to_multiset().remove(x));
        lemma_sum_permutation(s1.drop_last(), s2.remove(j));
    }
}

} // verus!
