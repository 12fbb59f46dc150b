//! Integer square roots.
use vstd::prelude::*;

verus! {

/// `s` is the integer square root of `n`: the largest `s` with `s * s <= n`.
pub open spec fn is_floor_sqrt(n: int, s: int) -> bool {
    0 <= s && s * s <= n < (s + 1) * (s + 1)
}

/// The integer square root of `n`, zero for negative `n`.
pub open spec fn floor_sqrt(n: int) -> int
    decreases n,
{
    if n <= 0 {
        0
    } else {
        let s = floor_sqrt(n - 1);
        if (s + 1) * (s + 1) <= n { s + 1 } else { s }
    }
}

pub proof fn lemma_floor_sqrt(n: int)
    requires
        0 <= n,
    ensures
        is_floor_sqrt(n, floor_sqrt(n)),
    decreases n,
{
    if n > 0 {
        lemma_floor_sqrt(n - 1);
        let s = floor_sqrt(n - 1);
        if (s + 1) * (s + 1) <= n {
            assert((s + 1) * (s + 1) <= n < (s + 2) * (s + 2)) by (nonlinear_arith)
                requires (s + 1) * (s + 1) <= n, n - 1 < (s + 1) * (s + 1), 0 <= s;
        }
    }
}

/// An integer square root is the one given by `floor_sqrt`.
pub proof fn lemma_floor_sqrt_unique(n: int, s: int)
    requires
        is_floor_sqrt(n, s),
    ensures
        s == floor_sqrt(n),
{
    lemma_floor_sqrt(n);
    let t = floor_sqrt(n);
    if s < t {
        assert((s + 1) * (s + 1) <= t * t) by (nonlinear_arith)
            requires 0 <= s + 1 <= t;
    }
    if t < s {
        assert((t + 1) * (t + 1) <= s * s) by (nonlinear_arith)
            requires 0 <= t + 1 <= s;
    }
}

/// The integer square root of `n`.
pub fn isqrt(n: u128) -> (s: u128)
    requires
        n < 0x1_0000_0000_0000_0000_0000_0000,
    ensures
        s == floor_sqrt(n as int),
{
    let mut lo: u128 = 0;
    let mut hi: u128 = 0x4_0000_0000_0000;
    assert(hi * hi == 0x10_0000_0000_0000_0000_0000_0000) by (nonlinear_arith)
        requires hi == 0x4_0000_0000_0000;
    while hi - lo > 1
        invariant
            lo < hi <= 0x4_0000_0000_0000,
            lo * lo <= n,
            n < hi * hi,
        decreases hi - lo,
    {
        let mid = lo + (hi - lo) / 2;
        assert(mid * mid <= 0x10_0000_0000_0000_0000_0000_0000) by (nonlinear_arith)
            requires 0 <= mid <= 0x4_0000_0000_0000;
        if mid * mid <= n {
            lo = mid;
        } else {
            hi = mid;
        }
    }
    proof {
        assert(lo + 1 == hi);
        lemma_floor_sqrt_unique(n as int, lo as int);
    }
    lo
}

/// The integer part of `m` times the square root of five, that is the integer
/// square root of `5 * m * m`.
pub fn floor_sqrt5_times(m: u64) -> (s: u128)
    requires
        m <= 0x8000_0000_0000_0000,
    ensures
        s == floor_sqrt(5 * m * m),
{
    if m == 0 {
        proof {
            assert(is_floor_sqrt(0, 0));
            lemma_floor_sqrt_unique(0, 0);
        }
        return 0;
    }
    let mm: u128 = m as u128;
    assert(mm * mm <= 0x4000_0000_0000_0000_0000_0000_0000_0000) by (nonlinear_arith)
        requires 0 < mm <= 0x8000_0000_0000_0000;
    let sq: u128 = mm * mm;
    // (2m + q)^2 <= 5 m^2 exactly when q^2 + 4mq <= m^2.
    let mut lo: u128 = 0;
    let mut hi: u128 = mm / 4 + 1;
    assert(hi * hi + 4 * mm * hi > sq) by (nonlinear_arith)
        requires hi == mm / 4 + 1, sq == mm * mm, mm > 0;
    while hi - lo > 1
        invariant
            0 < mm <= 0x8000_0000_0000_0000,
            sq == mm * mm,
            lo < hi <= mm / 4 + 1,
            lo * lo + 4 * mm * lo <= sq,
            hi * hi + 4 * mm * hi > sq,
        decreases hi - lo,
    {
        let mid = lo + (hi - lo) / 2;
        assert(mid <= 0x2000_0000_0000_0001);
        assert(mid * mid + 4 * mm * mid < 0x8000_0000_0000_0000_0000_0000_0000_0000) by (nonlinear_arith)
            requires 0 <= mid <= 0x2000_0000_0000_0001, mm <= 0x8000_0000_0000_0000;
        if mid * mid + 4 * mm * mid <= sq {
            lo = mid;
        } else {
            hi = mid;
        }
    }
    let s = 2 * mm + lo;
    proof {
        assert(lo + 1 == hi);
        assert(is_floor_sqrt(5 * m * m, s as int)) by (nonlinear_arith)
            requires
                s == 2 * mm + lo,
                mm == m,
                0 <= lo,
                lo * lo + 4 * mm * lo <= mm * mm,
                (lo + 1) * (lo + 1) + 4 * mm * (lo + 1) > mm * mm;
        lemma_floor_sqrt_unique(5 * m * m, s as int);
    }
    s
}

} // verus!
