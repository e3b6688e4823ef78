//! Fixed-point scalars: an `i64` counts millionths of a world unit.

use vstd::prelude::*;

verus! {

/// Number of fixed-point steps in one world unit.
pub const SCALE: i64 = 1_000_000;

/// The quotient of `a` by a positive `b`, rounded toward zero.
pub open spec fn div_trunc(a: int, b: int) -> int {
    if a >= 0 {
        a / b
    } else {
        -((-a) / b)
    }
}

/// `r` is the largest natural number whose square does not exceed `m`.
pub open spec fn is_sqrt_floor(r: nat, m: nat) -> bool {
    r * r <= m && m < (r + 1) * (r + 1)
}

/// The integer square root of `m`, rounded down.
pub open spec fn sqrt_floor(m: nat) -> nat {
    choose|r: nat| is_sqrt_floor(r, m)
}

/// At most one number is the rounded-down square root of `m`.
pub proof fn lemma_sqrt_floor_unique(r1: nat, r2: nat, m: nat)
    requires
        is_sqrt_floor(r1, m),
        is_sqrt_floor(r2, m),
    ensures
        r1 == r2,
{
    if r1 < r2 {
        assert((r1 + 1) * (r1 + 1) <= r2 * r2) by (nonlinear_arith)
            requires
                r1 + 1 <= r2,
        ;
    } else if r2 < r1 {
        assert((r2 + 1) * (r2 + 1) <= r1 * r1) by (nonlinear_arith)
            requires
                r2 + 1 <= r1,
        ;
    }
}

/// Any number that brackets `m` between its square and its successor's square is `sqrt_floor(m)`.
pub proof fn lemma_sqrt_floor_is(r: nat, m: nat)
    requires
        is_sqrt_floor(r, m),
    ensures
        sqrt_floor(m) == r,
{
    lemma_sqrt_floor_unique(r, sqrt_floor(m), m);
}

/// Every natural number has a rounded-down square root.
pub proof fn lemma_sqrt_floor_exists(m: nat)
    ensures
        is_sqrt_floor(sqrt_floor(m), m),
    decreases m,
{
    if m == 0 {
        assert(0nat * 0nat == 0 && (0nat + 1) * (0nat + 1) == 1) by (nonlinear_arith);
        assert(is_sqrt_floor(0, 0));
    } else {
        lemma_sqrt_floor_exists((m - 1) as nat);
        let r = sqrt_floor((m - 1) as nat);
        if m < (r + 1) * (r + 1) {
            assert(is_sqrt_floor(r, m));
        } else {
            assert((r + 2) * (r + 2) > (r + 1) * (r + 1)) by (nonlinear_arith);
            assert(is_sqrt_floor(r + 1, m));
        }
    }
}

/// Integer square root, rounded down.
pub fn isqrt(m: u128) -> (r: u64)
    ensures
        r == sqrt_floor(m as nat),
        is_sqrt_floor(r as nat, m as nat),
{
    let mut lo: u128 = 0;
    let mut hi: u128 = 0x1_0000_0000_0000_0000;
    assert(0x1_0000_0000_0000_0000int * 0x1_0000_0000_0000_0000int > u128::MAX) by (nonlinear_arith);
    while hi - lo > 1
        invariant
            lo < hi <= 0x1_0000_0000_0000_0000,
            lo * lo <= m,
            m < hi * hi,
        decreases hi - lo,
    {
        let mid: u128 = lo + (hi - lo) / 2;
        assert(mid * mid <= 0xffff_ffff_ffff_ffff * 0xffff_ffff_ffff_ffff) by (nonlinear_arith)
            requires
                0 <= mid <= 0xffff_ffff_ffff_ffff,
        ;
        assert(0xffff_ffff_ffff_ffffint * 0xffff_ffff_ffff_ffffint <= u128::MAX) by (nonlinear_arith);
        if mid * mid <= m {
            lo = mid;
        } else {
            hi = mid;
        }
    }
    proof {
        assert(hi == lo + 1);
        lemma_sqrt_floor_is(lo as nat, m as nat);
    }
    lo as u64
}

/// The product of two fixed-point scalars, rounded toward zero.
pub open spec fn mul_fixed_spec(a: int, b: int) -> int {
    div_trunc(a * b, SCALE as int)
}

/// A factor of at most `k` units scales a scalar to at most `k` times its magnitude.
pub proof fn lemma_mul_fixed_bound(a: int, b: int, k: int, limit: int)
    requires
        k >= 0,
        -k * SCALE <= a <= k * SCALE,
        -limit <= b <= limit,
    ensures
        -k * limit <= mul_fixed_spec(a, b) <= k * limit,
{
    let p = a * b;
    let s = SCALE as int;
    assert(-(k * limit) * s <= p <= (k * limit) * s) by (nonlinear_arith)
        requires
            p == a * b,
            k >= 0,
            -k * s <= a <= k * s,
            -limit <= b <= limit,
            s > 0,
    ;
    let q = k * limit;
    if p >= 0 {
        assert(p / s <= q) by (nonlinear_arith)
            requires
                0 <= p <= q * s,
                s > 0,
        ;
        assert(p / s >= 0) by (nonlinear_arith)
            requires
                0 <= p,
                s > 0,
        ;
    } else {
        assert((-p) / s <= q) by (nonlinear_arith)
            requires
                0 <= -p <= q * s,
                s > 0,
        ;
        assert((-p) / s >= 0) by (nonlinear_arith)
            requires
                0 <= -p,
                s > 0,
        ;
    }
    assert(-k * limit == -(k * limit)) by (nonlinear_arith);
}

/// The product of two fixed-point scalars, rounded toward zero.
pub fn mul_fixed(a: i64, b: i64) -> (product: i64)
    requires
        i64::MIN <= mul_fixed_spec(a as int, b as int) <= i64::MAX,
    ensures
        product == mul_fixed_spec(a as int, b as int),
{
    assert(-0x4000_0000_0000_0000_0000_0000_0000_0000 <= a * b
        <= 0x4000_0000_0000_0000_0000_0000_0000_0000) by (nonlinear_arith)
        requires
            -0x8000_0000_0000_0000 <= a <= 0x8000_0000_0000_0000,
            -0x8000_0000_0000_0000 <= b <= 0x8000_0000_0000_0000,
    ;
    let wide: i128 = (a as i128) * (b as i128);
    (wide / (SCALE as i128)) as i64
}

} // verus!
