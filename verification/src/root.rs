//! Integer square roots, rounded up.
use vstd::prelude::*;

verus! {

/// `r` is the least natural number whose square is at least `n`.
pub open spec fn is_ceil_sqrt(n: int, r: int) -> bool {
    &&& r >= 0
    &&& r * r >= n
    &&& r > 0 ==> (r - 1) * (r - 1) < n
}

/// The square root of `n` rounded up to a whole number; zero for a negative `n`.
pub closed spec fn ceil_root(n: int) -> int {
    choose|r: int| is_ceil_sqrt(n, r)
}

proof fn lemma_ceil_sqrt_exists(n: int) -> (r: int)
    ensures
        is_ceil_sqrt(n, r),
    decreases n,
{
    if n <= 0 {
        0
    } else {
        let below = lemma_ceil_sqrt_exists(n - 1);
        if below * below >= n {
            below
        } else {
            assert((below + 1) * (below + 1) >= n) by (nonlinear_arith)
                requires
                    below >= 0,
                    below * below >= n - 1,
            ;
            below + 1
        }
    }
}

/// Squares grow with their non-negative base.
pub proof fn lemma_square_monotone(a: int, b: int)
    requires
        0 <= a <= b,
    ensures
        a * a <= b * b,
{
    assert(a * a <= b * b) by (nonlinear_arith)
        requires
            0 <= a <= b,
    ;
}

/// At most one number is the rounded-up square root of `n`.
pub proof fn lemma_ceil_sqrt_unique(n: int, r1: int, r2: int)
    requires
        is_ceil_sqrt(n, r1),
        is_ceil_sqrt(n, r2),
    ensures
        r1 == r2,
{
    if r1 < r2 {
        lemma_square_monotone(r1, r2 - 1);
    } else if r2 < r1 {
        lemma_square_monotone(r2, r1 - 1);
    }
}

/// `ceil_root(n)` is the least natural number whose square is at least `n`.
pub proof fn lemma_ceil_root(n: int)
    ensures
        is_ceil_sqrt(n, ceil_root(n)),
{
    let witness = lemma_ceil_sqrt_exists(n);
    assert(is_ceil_sqrt(n, witness));
}

/// Whatever meets the definition is the rounded-up square root.
pub proof fn lemma_ceil_root_is(n: int, r: int)
    requires
        is_ceil_sqrt(n, r),
    ensures
        ceil_root(n) == r,
{
    lemma_ceil_sqrt_unique(n, r, ceil_root(n));
}

/// The rounded-up root lies at or below `bound` exactly when `n` lies at or below
/// the square of `bound`.
pub proof fn lemma_ceil_root_compare(n: int, bound: int)
    requires
        bound >= 0,
    ensures
        ceil_root(n) <= bound <==> n <= bound * bound,
{
    lemma_ceil_root(n);
    let r = ceil_root(n);
    if r <= bound {
        lemma_square_monotone(r, bound);
    } else {
        lemma_square_monotone(bound, r - 1);
    }
}

/// The rounded-up root grows with `n`.
pub proof fn lemma_ceil_root_monotone(n: int, m: int)
    requires
        n <= m,
    ensures
        ceil_root(n) <= ceil_root(m),
{
    lemma_ceil_root(m);
    lemma_ceil_root_compare(n, ceil_root(m));
}

/// Computes the square root of `n`, rounded up to a whole number.
pub fn ceil_sqrt(n: u128) -> (r: u128)
    ensures
        r == ceil_root(n as int),
        is_ceil_sqrt(n as int, r as int),
        r <= 0x1_0000_0000_0000_0000,
{
    let mut low: u128 = 0;
    let mut high: u128 = 0xffff_ffff_ffff_ffff;
    assert(n < 0x1_0000_0000_0000_0000 * 0x1_0000_0000_0000_0000) by (nonlinear_arith)
        requires
            n <= u128::MAX,
    ;
    while low < high
        invariant
            low <= high <= 0xffff_ffff_ffff_ffff,
            low * low <= n,
            n < (high + 1) * (high + 1),
        decreases high - low,
    {
        let middle: u128 = low + (high - low + 1) / 2;
        assert(middle * middle <= 0xffff_ffff_ffff_ffff * 0xffff_ffff_ffff_ffff)
            by (nonlinear_arith)
            requires
                0 <= middle <= 0xffff_ffff_ffff_ffff,
        ;
        if middle * middle <= n {
            low = middle;
        } else {
            high = (middle - 1) as u128;
        }
    }
    assert(low * low <= 0xffff_ffff_ffff_ffff * 0xffff_ffff_ffff_ffff) by (nonlinear_arith)
        requires
            0 <= low <= 0xffff_ffff_ffff_ffff,
    ;
    let r: u128 = if low * low == n {
        low
    } else {
        low + 1
    };
    proof {
        if low * low == n && low > 0 {
            assert((low - 1) * (low - 1) < low * low) by (nonlinear_arith)
                requires
                    low > 0,
            ;
        }
        lemma_ceil_root_is(n as int, r as int);
    }
    r
}

} // verus!
