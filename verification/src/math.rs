//! Integer square root: the one piece of real arithmetic the resolver needs
//! beyond ring operations.  `isqrt(n)` is the floor of the square root of
//! `n`, defined recursively in spec and computed by binary search in exec.

use vstd::prelude::*;

verus! {

/// Floor of the square root of `n` (0 for negative `n`).
pub open spec fn isqrt(n: int) -> int
    decreases n,
{
    if n < 1 {
        0
    } else {
        let r = isqrt(n - 1);
        if (r + 1) * (r + 1) <= n {
            r + 1
        } else {
            r
        }
    }
}

/// `isqrt(n)` really is the floor of the square root: it is nonnegative,
/// its square is at most `n`, and the next square is above `n`.
pub proof fn lemma_isqrt_bounds(n: int)
    requires
        n >= 0,
    ensures
        0 <= isqrt(n),
        isqrt(n) * isqrt(n) <= n,
        n < (isqrt(n) + 1) * (isqrt(n) + 1),
    decreases n,
{
    if n == 0 {
    } else {
        lemma_isqrt_bounds(n - 1);
        let r = isqrt(n - 1);
        if (r + 1) * (r + 1) <= n {
            assert(n < (r + 2) * (r + 2)) by (nonlinear_arith)
                requires
                    r >= 0,
                    n - 1 < (r + 1) * (r + 1),
            {}
        }
    }
}

/// Any `r` squeezed between consecutive squares around `n` equals `isqrt(n)`.
pub proof fn lemma_isqrt_unique(n: int, r: int)
    requires
        n >= 0,
        r >= 0,
        r * r <= n,
        n < (r + 1) * (r + 1),
    ensures
        r == isqrt(n),
{
    lemma_isqrt_bounds(n);
    let s = isqrt(n);
    assert(r == s) by (nonlinear_arith)
        requires
            r >= 0,
            s >= 0,
            r * r <= n,
            n < (r + 1) * (r + 1),
            s * s <= n,
            n < (s + 1) * (s + 1),
    {}
}

/// `isqrt` never exceeds any `b` whose square is beyond `n`.
pub proof fn lemma_isqrt_below(n: int, b: int)
    requires
        n >= 0,
        b >= 0,
        n < b * b,
    ensures
        isqrt(n) < b,
{
    lemma_isqrt_bounds(n);
    let s = isqrt(n);
    assert(s < b) by (nonlinear_arith)
        requires
            s >= 0,
            b >= 0,
            s * s <= n,
            n < b * b,
    {}
}

/// `isqrt` dominates any `a` whose square is at most `n`.
pub proof fn lemma_isqrt_above(n: int, a: int)
    requires
        n >= 0,
        a >= 0,
        a * a <= n,
    ensures
        a <= isqrt(n),
{
    lemma_isqrt_bounds(n);
    let s = isqrt(n);
    assert(a <= s) by (nonlinear_arith)
        requires
            s >= 0,
            a >= 0,
            a * a <= n,
            n < (s + 1) * (s + 1),
    {}
}

/// Binary-search integer square root for inputs below `2^126`.
pub fn isqrt_u128(n: u128) -> (r: u128)
    requires
        n < 0x4000_0000_0000_0000_0000_0000_0000_0000u128,
    ensures
        r == isqrt(n as int),
{
    if n == 0 {
        proof {
            lemma_isqrt_unique(0, 0);
        }
        return 0;
    }
    let mut lo: u128 = 0;
    let mut hi: u128 = 0x8000_0000_0000_0000u128;
    assert(n < hi * hi) by (nonlinear_arith)
        requires
            n < 0x4000_0000_0000_0000_0000_0000_0000_0000u128,
            hi == 0x8000_0000_0000_0000u128,
    {}
    while lo + 1 < hi
        invariant
            lo < hi,
            hi <= 0x8000_0000_0000_0000u128,
            lo * lo <= n,
            n < hi * hi,
        decreases hi - lo,
    {
        let mid: u128 = lo + (hi - lo) / 2;
        assert(mid * mid < 0x4000_0000_0000_0000_0000_0000_0000_0000u128) by (nonlinear_arith)
            requires
                mid < 0x8000_0000_0000_0000u128,
        {}
        if mid * mid <= n {
            lo = mid;
        } else {
            hi = mid;
        }
    }
    proof {
        lemma_isqrt_unique(n as int, lo as int);
    }
    lo
}

} // verus!
