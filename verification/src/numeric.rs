//! Fixed-point arithmetic shared by the analysis stages: exact integer roots
//! and rounded quotients, each specified by the inequality that defines it.
use vstd::prelude::*;

verus! {

/// One whole, in millionths. Shares of a whole (chroma bins, confidences,
/// strengths) are integers between 0 and `UNIT`.
pub const UNIT: u32 = 1_000_000;

/// `r` is the integer part of the square root of `n`.
pub open spec fn is_floor_sqrt(n: nat, r: nat) -> bool {
    r * r <= n && n < (r + 1) * (r + 1)
}

/// The integer part of the square root of `n`.
pub open spec fn floor_sqrt(n: nat) -> nat {
    choose|r: nat| is_floor_sqrt(n, r)
}

/// At most one number is the integer square root of `n`.
pub proof fn lemma_floor_sqrt_unique(n: nat, r1: nat, r2: nat)
    requires
        is_floor_sqrt(n, r1),
        is_floor_sqrt(n, r2),
    ensures
        r1 == r2,
{
    if r1 < r2 {
        assert((r1 + 1) * (r1 + 1) <= r2 * r2) by (nonlinear_arith)
            requires
                r1 + 1 <= r2,
        ;
    } else if r2 < r1 {
        assert((r2 + 1) * (r2 + 1) <= r1 * r1) by (nonlinear_arith)
            requires
                r2 + 1 <= r1,
        ;
    }
}

/// A witness of the defining inequality is the integer square root.
pub proof fn lemma_floor_sqrt_is(n: nat, r: nat)
    requires
        is_floor_sqrt(n, r),
    ensures
        floor_sqrt(n) == r,
{
    lemma_floor_sqrt_unique(n, floor_sqrt(n), r);
}

/// Integer square root by bisection.
pub fn isqrt(n: u128) -> (r: u64)
    ensures
        is_floor_sqrt(n as nat, r as nat),
        r as nat == floor_sqrt(n as nat),
{
    let mut lo: u128 = 0;
    let mut hi: u128 = 0x1_0000_0000_0000_0000;
    assert(0x1_0000_0000_0000_0000int * 0x1_0000_0000_0000_0000int > u128::MAX) by (nonlinear_arith);
    while hi - lo > 1
        invariant
            lo < hi <= 0x1_0000_0000_0000_0000,
            lo * lo <= n,
            n < hi * hi,
        decreases hi - lo,
    {
        let mid: u128 = lo + (hi - lo) / 2;
        assert(mid * mid <= 0xffff_ffff_ffff_ffffint * 0xffff_ffff_ffff_ffffint) by (nonlinear_arith)
            requires
                0 <= mid <= 0xffff_ffff_ffff_ffff,
        ;
        assert(0xffff_ffff_ffff_ffffint * 0xffff_ffff_ffff_ffffint <= u128::MAX) by (nonlinear_arith);
        if mid * mid <= n {
            lo = mid;
        } else {
            hi = mid;
        }
    }
    assert(hi == lo + 1);
    proof {
        lemma_floor_sqrt_is(n as nat, lo as nat);
    }
    lo as u64
}

/// The sum of the first `n` entries of `v`.
pub open spec fn prefix_sum(v: Seq<u32>, n: int) -> int
    decreases n,
{
    if n <= 0 {
        0
    } else {
        prefix_sum(v, n - 1) + v[n - 1]
    }
}

/// The sum of all entries of `v`.
pub open spec fn seq_sum(v: Seq<u32>) -> int {
    prefix_sum(v, v.len() as int)
}

/// A prefix sum is bounded by its length times a bound on the entries, and
/// grows with the prefix.
pub proof fn lemma_prefix_sum_bounds(v: Seq<u32>, n: int, bound: int)
    requires
        0 <= n <= v.len(),
        forall|i: int| 0 <= i < v.len() ==> v[i] <= bound,
    ensures
        0 <= prefix_sum(v, n) <= n * bound,
        prefix_sum(v, n) <= seq_sum(v),
        seq_sum(v) <= v.len() * bound,
    decreases v.len() - n,
{
    lemma_prefix_sum_step_bound(v, n, bound);
    if n < v.len() {
        lemma_prefix_sum_bounds(v, n + 1, bound);
    } else {
        lemma_prefix_sum_step_bound(v, v.len() as int, bound);
    }
}

proof fn lemma_prefix_sum_step_bound(v: Seq<u32>, n: int, bound: int)
    requires
        0 <= n <= v.len(),
        forall|i: int| 0 <= i < v.len() ==> v[i] <= bound,
    ensures
        0 <= prefix_sum(v, n) <= n * bound,
    decreases n,
{
    if n > 0 {
        lemma_prefix_sum_step_bound(v, n - 1, bound);
        assert(n * bound == (n - 1) * bound + bound) by (nonlinear_arith);
    } else {
        assert(n * bound == 0) by (nonlinear_arith)
            requires
                n == 0,
        ;
    }
}

/// No entry of a vector exceeds the sum of the vector.
pub proof fn lemma_prefix_sum_entry(v: Seq<u32>, i: int)
    requires
        0 <= i < v.len(),
    ensures
        v[i] <= seq_sum(v),
{
    lemma_prefix_sum_monotonic(v, i + 1, v.len() as int);
    lemma_prefix_sum_nonnegative(v, i);
}

/// Prefix sums are never negative.
pub proof fn lemma_prefix_sum_nonnegative(v: Seq<u32>, n: int)
    ensures
        0 <= prefix_sum(v, n),
    decreases n,
{
    if n > 0 {
        lemma_prefix_sum_nonnegative(v, n - 1);
    }
}

/// Prefix sums grow with the prefix.
pub proof fn lemma_prefix_sum_monotonic(v: Seq<u32>, m: int, n: int)
    requires
        m <= n,
    ensures
        prefix_sum(v, m) <= prefix_sum(v, n),
    decreases n - m,
{
    if m < n {
        lemma_prefix_sum_monotonic(v, m, n - 1);
        lemma_prefix_sum_nonnegative(v, n - 1);
        if n - 1 <= 0 {
            lemma_prefix_sum_nonnegative(v, n);
        }
    }
}

/// The product of two bounded integers is bounded by the product of the
/// bounds.
pub proof fn lemma_product_bound(a: int, b: int, ma: int, mb: int)
    by (nonlinear_arith)
    requires
        -ma <= a <= ma,
        -mb <= b <= mb,
    ensures
        -(ma * mb) <= a * b <= ma * mb,
{
}

/// The fifth power of `x`.
pub open spec fn pow5(x: nat) -> nat {
    x * x * x * x * x
}

/// `r` is the integer part of the fifth root of `n`.
pub open spec fn is_floor_root5(n: nat, r: nat) -> bool {
    pow5(r) <= n && n < pow5(r + 1)
}

/// The integer part of the fifth root of `n`.
pub open spec fn floor_root5(n: nat) -> nat {
    choose|r: nat| is_floor_root5(n, r)
}

/// Fifth powers grow with their base.
pub proof fn lemma_pow5_monotonic(a: nat, b: nat)
    requires
        a <= b,
    ensures
        pow5(a) <= pow5(b),
{
    let a2 = a * a;
    let b2 = b * b;
    assert(a2 <= b2) by (nonlinear_arith)
        requires
            a <= b,
            a2 == a * a,
            b2 == b * b,
    ;
    let a3 = a2 * a;
    let b3 = b2 * b;
    assert(a3 <= b3) by (nonlinear_arith)
        requires
            a <= b,
            a2 <= b2,
            a3 == a2 * a,
            b3 == b2 * b,
    ;
    let a4 = a3 * a;
    let b4 = b3 * b;
    assert(a4 <= b4) by (nonlinear_arith)
        requires
            a <= b,
            a3 <= b3,
            a4 == a3 * a,
            b4 == b3 * b,
    ;
    assert(a4 * a <= b4 * b) by (nonlinear_arith)
        requires
            a <= b,
            a4 <= b4,
    ;
}

/// A witness of the defining inequality is the integer fifth root.
pub proof fn lemma_floor_root5_is(n: nat, r: nat)
    requires
        is_floor_root5(n, r),
    ensures
        floor_root5(n) == r,
{
    let c = floor_root5(n);
    if c < r {
        lemma_pow5_monotonic(c + 1, r);
    } else if r < c {
        lemma_pow5_monotonic(r + 1, c);
    }
}

/// Every number below the fifth power of `b` has an integer fifth root
/// below `b`.
proof fn lemma_floor_root5_below(n: nat, b: nat)
    requires
        n < pow5(b),
    ensures
        exists|r: nat| r < b && is_floor_root5(n, r),
    decreases b,
{
    if b == 0 {
        assert(pow5(b) == 0) by (nonlinear_arith)
            requires
                b == 0,
                pow5(b) == b * b * b * b * b,
        ;
    } else {
        let c = (b - 1) as nat;
        if n < pow5(c) {
            lemma_floor_root5_below(n, c);
            let r = choose|r: nat| r < c && is_floor_root5(n, r);
            assert(r < b && is_floor_root5(n, r));
        } else {
            assert(c < b && is_floor_root5(n, c));
        }
    }
}

/// The integer fifth root of a number below the fifth power of `b` meets its
/// defining inequality and lies below `b`.
pub proof fn lemma_floor_root5(n: nat, b: nat)
    requires
        n < pow5(b),
    ensures
        is_floor_root5(n, floor_root5(n)),
        floor_root5(n) < b,
{
    lemma_floor_root5_below(n, b);
    let r = choose|r: nat| r < b && is_floor_root5(n, r);
    lemma_floor_root5_is(n, r);
}

/// A share raised to the power four fifths is a share, and one whole stays
/// one whole.
pub proof fn lemma_four_fifths_power_bound(share: nat)
    requires
        share <= UNIT,
    ensures
        four_fifths_power(share) <= UNIT,
        share == UNIT ==> four_fifths_power(share) == UNIT,
{
    let s2 = share * share;
    assert(s2 <= 1_000_000 * 1_000_000) by (nonlinear_arith)
        requires
            s2 == share * share,
            share <= 1_000_000,
    ;
    let s4 = s2 * s2;
    assert(s4 <= 1_000_000_000_000 * 1_000_000_000_000) by (nonlinear_arith)
        requires
            s4 == s2 * s2,
            s2 <= 1_000_000_000_000,
    ;
    assert(share * share * share * share == s4) by (nonlinear_arith)
        requires
            s2 == share * share,
            s4 == s2 * s2,
    ;
    let n = four_fifths_radicand(share);
    assert(n == 1_000_000 * s4);
    assert(pow5(1_000_001) > 1_000_000_000_000_000_000_000_000_000_000) by (nonlinear_arith);
    lemma_floor_root5(n, 1_000_001);
    if share == UNIT {
        assert(s2 == 1_000_000_000_000);
        assert(s4 == 1_000_000_000_000_000_000_000_000) by (nonlinear_arith)
            requires
                s4 == s2 * s2,
                s2 == 1_000_000_000_000,
        ;
        assert(pow5(1_000_000) == 1_000_000_000_000_000_000_000_000_000_000) by (nonlinear_arith);
        lemma_floor_root5_is(n, 1_000_000);
    }
}

/// The numerator under the fifth root when a share is raised to the power
/// four fifths: `UNIT * share^4`.
pub open spec fn four_fifths_radicand(share: nat) -> nat {
    (UNIT as nat) * (share * share * share * share)
}

/// A share of one whole raised to the power four fifths, in millionths and
/// rounded down: the integer fifth root of `UNIT * share^4`.
pub open spec fn four_fifths_power(share: nat) -> nat {
    floor_root5(four_fifths_radicand(share))
}

/// The fifth power of a share, computed without overflow.
fn fifth_power(x: u128) -> (p: u128)
    requires
        x <= UNIT,
    ensures
        p == pow5(x as nat),
        p <= 1_000_000_000_000_000_000_000_000_000_000,
{
    assert(x * x <= 1_000_000 * 1_000_000) by (nonlinear_arith)
        requires
            x <= 1_000_000,
    ;
    let x2: u128 = x * x;
    assert(x2 * x <= 1_000_000_000_000 * 1_000_000) by (nonlinear_arith)
        requires
            x <= 1_000_000,
            x2 <= 1_000_000_000_000,
    ;
    let x3: u128 = x2 * x;
    assert(x3 * x <= 1_000_000_000_000_000_000 * 1_000_000) by (nonlinear_arith)
        requires
            x <= 1_000_000,
            x3 <= 1_000_000_000_000_000_000,
    ;
    let x4: u128 = x3 * x;
    assert(x4 * x <= 1_000_000_000_000_000_000_000_000 * 1_000_000) by (nonlinear_arith)
        requires
            x <= 1_000_000,
            x4 <= 1_000_000_000_000_000_000_000_000,
    ;
    x4 * x
}

/// Raises a share of one whole to the power four fifths.
pub fn pow_four_fifths(share: u32) -> (r: u32)
    requires
        share <= UNIT,
    ensures
        r == four_fifths_power(share as nat),
        r <= UNIT,
{
    let s: u128 = share as u128;
    assert(s * s <= 1_000_000 * 1_000_000) by (nonlinear_arith)
        requires
            s <= 1_000_000,
    ;
    let s2: u128 = s * s;
    assert(s2 * s <= 1_000_000_000_000 * 1_000_000) by (nonlinear_arith)
        requires
            s <= 1_000_000,
            s2 <= 1_000_000_000_000,
    ;
    let s3: u128 = s2 * s;
    assert(s3 * s <= 1_000_000_000_000_000_000 * 1_000_000) by (nonlinear_arith)
        requires
            s <= 1_000_000,
            s3 <= 1_000_000_000_000_000_000,
    ;
    let s4: u128 = s3 * s;
    let n: u128 = 1_000_000 * s4;
    assert(n == four_fifths_radicand(share as nat));
    let mut lo: u128 = 0;
    let mut hi: u128 = 1_000_001;
    assert(pow5(1_000_001) > 1_000_000_000_000_000_000_000_000_000_000) by (nonlinear_arith);
    assert(pow5(0) == 0);
    while hi - lo > 1
        invariant
            lo < hi <= 1_000_001,
            pow5(lo as nat) <= n,
            n < pow5(hi as nat),
        decreases hi - lo,
    {
        let mid: u128 = lo + (hi - lo) / 2;
        if fifth_power(mid) <= n {
            lo = mid;
        } else {
            hi = mid;
        }
    }
    proof {
        lemma_floor_root5_is(n as nat, lo as nat);
    }
    lo as u32
}

} // verus!
