//! Integer square roots.

use vstd::prelude::*;

verus! {

/// The largest whole number whose square is at most `x`.
pub open spec fn floor_sqrt(x: nat) -> nat
    decreases x,
{
    if x == 0 {
        0
    } else {
        let r = floor_sqrt((x - 1) as nat);
        if (r + 1) * (r + 1) <= x {
            r + 1
        } else {
            r
        }
    }
}

/// Squaring keeps the order of whole numbers that are not negative.
pub proof fn lemma_square_ordered(a: int, b: int)
    requires
        0 <= a <= b,
    ensures
        a * a <= b * b,
{
    assert(a * a <= b * b) by (nonlinear_arith)
        requires
            0 <= a <= b,
    ;
}

/// `floor_sqrt(x)` squared is at most `x`, and the next whole number squared
/// is above `x`.
pub proof fn lemma_floor_sqrt_bounds(x: nat)
    ensures
        floor_sqrt(x) * floor_sqrt(x) <= x < (floor_sqrt(x) + 1) * (floor_sqrt(x) + 1),
    decreases x,
{
    let s = floor_sqrt(x) as int;
    if x > 0 {
        lemma_floor_sqrt_bounds((x - 1) as nat);
        let r = floor_sqrt((x - 1) as nat) as int;
        assert(r * r <= x - 1 < (r + 1) * (r + 1));
        if (r + 1) * (r + 1) <= x {
            assert(s == r + 1);
            assert(s * s <= x < (s + 1) * (s + 1)) by (nonlinear_arith)
                requires
                    0 <= r,
                    s == r + 1,
                    (r + 1) * (r + 1) <= x,
                    x - 1 < (r + 1) * (r + 1),
            ;
        } else {
            assert(s == r);
        }
    } else {
        assert(s == 0);
        assert(s * s <= x < (s + 1) * (s + 1)) by (nonlinear_arith)
            requires
                s == 0,
                x == 0,
        ;
    }
}

/// Only one whole number has its square at most `x` and its successor's
/// square above `x`.
pub proof fn lemma_floor_sqrt_unique(x: nat, r: nat)
    requires
        r * r <= x < (r + 1) * (r + 1),
    ensures
        floor_sqrt(x) == r,
{
    let s = floor_sqrt(x);
    lemma_floor_sqrt_bounds(x);
    if s < r {
        lemma_square_ordered((s + 1) as int, r as int);
    } else if r < s {
        lemma_square_ordered((r + 1) as int, s as int);
    }
}

/// A larger number has no smaller root.
pub proof fn lemma_floor_sqrt_ordered(x: nat, y: nat)
    requires
        x <= y,
    ensures
        floor_sqrt(x) <= floor_sqrt(y),
{
    lemma_floor_sqrt_bounds(x);
    lemma_floor_sqrt_bounds(y);
    if floor_sqrt(y) < floor_sqrt(x) {
        lemma_square_ordered((floor_sqrt(y) + 1) as int, floor_sqrt(x) as int);
    }
}

/// A number that is at least `r` squared has a root of at least `r`.
pub proof fn lemma_floor_sqrt_at_least(x: nat, r: nat)
    requires
        r * r <= x,
    ensures
        r <= floor_sqrt(x),
{
    lemma_floor_sqrt_bounds(x);
    if floor_sqrt(x) < r {
        lemma_square_ordered((floor_sqrt(x) + 1) as int, r as int);
    }
}

/// The integer square root of `x`.
pub fn isqrt(x: u64) -> (r: u64)
    ensures
        r == floor_sqrt(x as nat),
{
    let mut lo: u64 = 0;
    let mut hi: u64 = 0x1_0000_0000;
    while hi - lo > 1
        invariant
            lo < hi <= 0x1_0000_0000,
            lo * lo <= x < hi * hi,
        decreases hi - lo,
    {
        let mid: u64 = lo + (hi - lo) / 2;
        proof {
            lemma_square_ordered(mid as int, 0xffff_ffff);
        }
        if mid * mid <= x {
            lo = mid;
        } else {
            hi = mid;
        }
    }
    proof {
        lemma_floor_sqrt_unique(x as nat, lo as nat);
    }
    lo
}

} // verus!
