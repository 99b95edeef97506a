//! Fixed-point helpers: toroidal wrapping, truncating division and
//! multiplication, integer square root, and the heading table.
//!
//! A heading is an integer number of turn units; a full circle is
//! [`ANGLE_FULL`] units. The cosine and sine of a heading are fixed-point
//! values scaled by [`crate::FP`], read from a quarter-wave table.

use vstd::prelude::*;

verus! {

use crate::FP;
use crate::WORLD_FP;

/// Turn units in a full circle.
pub const ANGLE_FULL: u32 = 64;

/// Mathematical (Euclidean) remainder of `c` modulo `WORLD_FP`: always in
/// `[0, WORLD_FP)`, also for negative `c`.
pub open spec fn wrap_spec(c: int) -> int {
    c % (WORLD_FP as int)
}

/// Wraps one coordinate onto the torus: the result is the true mathematical
/// remainder modulo the world side, so it always lies in `[0, WORLD_FP)`,
/// even when `c` is negative or many times the world size.
pub fn wrap_coord(c: i64) -> (r: i64)
    requires
        c > i64::MIN,
    ensures
        r == wrap_spec(c as int),
        0 <= r < WORLD_FP,
{
    if c >= 0 {
        c % WORLD_FP
    } else {
        let k = (-c) % WORLD_FP;
        proof {
            vstd::arithmetic::div_mod::lemma_fundamental_div_mod(-c as int, WORLD_FP as int);
            vstd::arithmetic::div_mod::lemma_mod_multiples_vanish(
                -((-c as int) / (WORLD_FP as int)),
                c as int,
                WORLD_FP as int,
            );
        }
        if k == 0 {
            0
        } else {
            WORLD_FP - k
        }
    }
}

/// Division truncating toward zero, as machine signed division does.
pub open spec fn tdiv(a: int, d: int) -> int {
    if a >= 0 {
        a / d
    } else {
        -((-a) / d)
    }
}

/// Magnitude of an integer.
pub open spec fn abs_spec(a: int) -> int {
    if a >= 0 {
        a
    } else {
        -a
    }
}

/// `a.abs()` for the range the simulation uses.
pub fn abs_i64(a: i64) -> (r: i64)
    requires
        a > i64::MIN,
    ensures
        r == abs_spec(a as int),
{
    if a >= 0 {
        a
    } else {
        -a
    }
}

/// Fixed-point product: `a * b / FP`, truncating toward zero. Used to apply
/// a scaled factor (a cosine, a friction coefficient) to a scaled value.
pub fn mul_fp(a: i64, b: i64) -> (r: i64)
    requires
        abs_spec(a as int) <= 2_000_000_000,
        abs_spec(b as int) <= 2_000_000_000,
    ensures
        r == tdiv(a as int * b as int, FP as int),
        abs_spec(r as int) * (FP as int) <= abs_spec(a as int) * abs_spec(b as int),
{
    proof {
        assert(abs_spec(a as int * b as int) <= 2_000_000_000 * 2_000_000_000) by (nonlinear_arith)
            requires
                abs_spec(a as int) <= 2_000_000_000,
                abs_spec(b as int) <= 2_000_000_000,
        ;
        assert(abs_spec(a as int * b as int) == abs_spec(a as int) * abs_spec(b as int))
            by (nonlinear_arith);
    }
    let p = a * b;
    let m = abs_i64(p);
    let q = m / FP;
    proof {
        vstd::arithmetic::div_mod::lemma_div_is_ordered_by_denominator(m as int, 1, FP as int);
        vstd::arithmetic::div_mod::lemma_div_by_multiple(m as int, 1);
        assert((m as int) / (FP as int) * (FP as int) <= m as int) by {
            vstd::arithmetic::div_mod::lemma_fundamental_div_mod(m as int, FP as int);
            vstd::arithmetic::div_mod::lemma_mod_bound(m as int, FP as int);
        }
    }
    if p >= 0 {
        q
    } else {
        -q
    }
}

/// Integer square root: the floor of the square root of `n`.
pub fn isqrt(n: u64) -> (r: u64)
    requires
        n < 36_000_000_000_000,
    ensures
        r * r <= n < (r + 1) * (r + 1),
{
    let mut lo: u64 = 0;
    let mut hi: u64 = 6_000_001;
    proof {
        assert((hi * hi) > n) by (nonlinear_arith)
            requires
                hi == 6_000_001u64,
                n < 36_000_000_000_000,
        ;
    }
    while lo + 1 < hi
        invariant
            lo < hi <= 6_000_001,
            lo * lo <= n,
            n < hi * hi,
        decreases hi - lo,
    {
        let mid = lo + (hi - lo) / 2;
        proof {
            assert(mid * mid <= 6_000_001u64 * 6_000_001u64) by (nonlinear_arith)
                requires
                    mid <= 6_000_001u64,
            ;
        }
        if mid * mid <= n {
            lo = mid;
        } else {
            hi = mid;
        }
    }
    lo
}

/// Quarter-wave cosine table: `qcos_spec(i)` is the cosine of `i` turn
/// units scaled by `FP`, for `0 <= i <= 16`.
pub open spec fn qcos_spec(i: int) -> int {
    if i == 0 {
        1000
    } else if i == 1 {
        995
    } else if i == 2 {
        981
    } else if i == 3 {
        957
    } else if i == 4 {
        924
    } else if i == 5 {
        882
    } else if i == 6 {
        831
    } else if i == 7 {
        773
    } else if i == 8 {
        707
    } else if i == 9 {
        634
    } else if i == 10 {
        556
    } else if i == 11 {
        471
    } else if i == 12 {
        383
    } else if i == 13 {
        290
    } else if i == 14 {
        195
    } else if i == 15 {
        98
    } else {
        0
    }
}

/// Fixed-point cosine of a heading, by quarter-wave symmetry.
pub open spec fn cos_spec(a: int) -> int {
    let b = a % (ANGLE_FULL as int);
    if b <= 16 {
        qcos_spec(b)
    } else if b <= 32 {
        -qcos_spec(32 - b)
    } else if b <= 48 {
        -qcos_spec(b - 32)
    } else {
        qcos_spec(64 - b)
    }
}

/// Fixed-point sine of a heading: the cosine a quarter turn earlier.
pub open spec fn sin_spec(a: int) -> int {
    cos_spec((a + 48) % (ANGLE_FULL as int))
}

fn qcos(i: u32) -> (r: i64)
    requires
        i <= 16,
    ensures
        r == qcos_spec(i as int),
{
    match i {
        0 => 1000,
        1 => 995,
        2 => 981,
        3 => 957,
        4 => 924,
        5 => 882,
        6 => 831,
        7 => 773,
        8 => 707,
        9 => 634,
        10 => 556,
        11 => 471,
        12 => 383,
        13 => 290,
        14 => 195,
        15 => 98,
        _ => 0,
    }
}

/// Fixed-point cosine of a heading in turn units.
pub fn cos_fp(a: u32) -> (r: i64)
    requires
        a < ANGLE_FULL,
    ensures
        r == cos_spec(a as int),
        -1000 <= r <= 1000,
{
    proof {
        assert((a as int) % (ANGLE_FULL as int) == a as int);
    }
    if a <= 16 {
        qcos(a)
    } else if a <= 32 {
        -qcos(32 - a)
    } else if a <= 48 {
        -qcos(a - 32)
    } else {
        qcos(64 - a)
    }
}

/// Fixed-point sine of a heading in turn units.
pub fn sin_fp(a: u32) -> (r: i64)
    requires
        a < ANGLE_FULL,
    ensures
        r == sin_spec(a as int),
        -1000 <= r <= 1000,
{
    let b = (a + 48) % ANGLE_FULL;
    cos_fp(b)
}

} // verus!
