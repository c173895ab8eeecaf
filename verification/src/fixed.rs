//! Fixed-point scalar arithmetic.
//!
//! A scalar is an `i128` holding `value * ONE`.  Executable code uses
//! Rust's truncated (round-toward-zero) signed division; `tdiv` is its
//! exact ghost counterpart, so every rounding step in the tracer has a
//! precise mathematical description.

use vstd::arithmetic::div_mod::{
    lemma_div_by_multiple, lemma_div_is_ordered, lemma_div_nonincreasing, lemma_div_pos_is_pos,
    lemma_fundamental_div_mod, lemma_remainder_lower, lemma_remainder_upper,
};
use vstd::math::abs;
use vstd::prelude::*;

verus! {

/// Scale of the fixed-point representation: an `i128` value `v` stands for
/// the real number `v / ONE`.
pub const ONE: i128 = 65536;

/// Truncated (round-toward-zero) signed division, the semantics of Rust's
/// `/` on machine integers.  Unspecified when `b == 0`.
pub open spec fn tdiv(a: int, b: int) -> int {
    if a == 0 {
        0
    } else if a > 0 && b > 0 {
        a / b
    } else if a < 0 && b < 0 {
        (a * -1) / (b * -1)
    } else if a < 0 {
        ((a * -1) / b) * -1
    } else {
        (a / (b * -1)) * -1
    }
}

/// The fixed-point product: `a * b / ONE`, rounded toward zero.
pub open spec fn fmul(a: int, b: int) -> int {
    tdiv(a * b, ONE as int)
}

/// The fixed-point quotient: `a * ONE / b`, rounded toward zero.
pub open spec fn fdiv(a: int, b: int) -> int {
    tdiv(a * (ONE as int), b)
}

/// The magnitude of a product is the product of the magnitudes.
pub proof fn lemma_abs_mul(a: int, b: int)
    by (nonlinear_arith)
    ensures
        abs(a * b) == abs(a) * abs(b),
{
}

/// Bounding both factors bounds the product.
pub proof fn lemma_abs_mul_le(a: int, b: int, aa: int, bb: int)
    by (nonlinear_arith)
    requires
        abs(a) <= aa,
        abs(b) <= bb,
    ensures
        abs(a * b) <= aa * bb,
{
}

/// Truncated division is the sign-adjusted quotient of the magnitudes.
pub proof fn lemma_tdiv_signs(a: int, b: int)
    requires
        b != 0,
    ensures
        abs(tdiv(a, b)) == abs(a) / abs(b),
        tdiv(a, b) == if (a < 0) != (b < 0) {
            -((abs(a) / abs(b)) as int)
        } else {
            (abs(a) / abs(b)) as int
        },
{
    if a == 0 {
        assert(abs(a) / abs(b) == 0) by {
            lemma_div_pos_is_pos(0, abs(b) as int);
            lemma_div_nonincreasing(0, abs(b) as int);
        }
    } else {
        assert(abs(a) / abs(b) >= 0) by {
            lemma_div_pos_is_pos(abs(a) as int, abs(b) as int);
        }
    }
}

/// Truncated division never grows the magnitude.
pub proof fn lemma_tdiv_bound(a: int, b: int)
    requires
        b != 0,
    ensures
        abs(tdiv(a, b)) <= abs(a),
{
    lemma_tdiv_signs(a, b);
    lemma_div_pos_is_pos(abs(a) as int, abs(b) as int);
    lemma_div_nonincreasing(abs(a) as int, abs(b) as int);
}

/// A quotient with a larger denominator is bounded by one with a smaller.
pub proof fn lemma_tdiv_quot_le(a: int, b: int, c: int)
    requires
        b != 0,
        abs(a) <= c * abs(b),
        c >= 0,
    ensures
        abs(tdiv(a, b)) <= c,
{
    lemma_tdiv_signs(a, b);
    assert((abs(a) as int) / (abs(b) as int) <= (c * abs(b)) / (abs(b) as int)) by {
        lemma_div_is_ordered(abs(a) as int, c * abs(b), abs(b) as int);
    }
    assert((c * abs(b)) / (abs(b) as int) == c) by {
        lemma_div_by_multiple(c, abs(b) as int);
    }
}

/// Division is exact on multiples.
pub proof fn lemma_tdiv_exact(k: int, b: int)
    requires
        b != 0,
    ensures
        tdiv(k * b, b) == k,
{
    lemma_tdiv_signs(k * b, b);
    lemma_abs_mul(k, b);
    assert((abs(k) * abs(b)) / abs(b) == abs(k)) by {
        lemma_div_by_multiple(abs(k) as int, abs(b) as int);
    }
    if k != 0 {
        assert(((k * b) < 0) == ((k < 0) != (b < 0))) by (nonlinear_arith)
            requires
                k != 0 && b != 0,
        ;
    }
}

/// Truncated division respects negation of either operand.
pub proof fn lemma_tdiv_neg(a: int, b: int)
    requires
        b != 0,
    ensures
        tdiv(-a, b) == -tdiv(a, b),
        tdiv(a, -b) == -tdiv(a, b),
        tdiv(-a, -b) == tdiv(a, b),
{
    lemma_tdiv_signs(a, b);
    lemma_tdiv_signs(-a, b);
    lemma_tdiv_signs(a, -b);
    lemma_tdiv_signs(-a, -b);
}

/// The remainder left by truncated division: small, and never of the
/// opposite sign to the dividend.
pub proof fn lemma_trem(a: int, b: int)
    requires
        b != 0,
    ensures
        abs(a - tdiv(a, b) * b) < abs(b),
        a * (a - tdiv(a, b) * b) >= 0,
        abs(a - tdiv(a, b) * b) == abs(a) % abs(b),
{
    let m: int = abs(a) as int;
    let n: int = abs(b) as int;
    let q: int = m / n;
    lemma_tdiv_signs(a, b);
    lemma_fundamental_div_mod(m, n);
    lemma_remainder_upper(m, n);
    lemma_remainder_lower(m, n);
    let r: int = m % n;
    assert(m == q * n + r) by (nonlinear_arith)
        requires
            m == n * q + r,
    ;
    // The truncated remainder is the Euclidean remainder of the magnitudes,
    // given the sign of the dividend.
    if a >= 0 {
        if b > 0 {
            assert(a - tdiv(a, b) * b == r);
        } else {
            assert(tdiv(a, b) * b == (-q) * b == q * n) by (nonlinear_arith)
                requires
                    tdiv(a, b) == -q && n == -b,
            ;
            assert(a - tdiv(a, b) * b == r);
        }
        assert(a * r >= 0) by (nonlinear_arith)
            requires
                a >= 0 && r >= 0,
        ;
    } else {
        if b > 0 {
            assert(tdiv(a, b) * b == (-q) * b == -(q * n)) by (nonlinear_arith)
                requires
                    tdiv(a, b) == -q && n == b,
            ;
            assert(a - tdiv(a, b) * b == -r);
        } else {
            assert(tdiv(a, b) * b == q * b == -(q * n)) by (nonlinear_arith)
                requires
                    tdiv(a, b) == q && n == -b,
            ;
            assert(a - tdiv(a, b) * b == -r);
        }
        assert(a * (-r) >= 0) by (nonlinear_arith)
            requires
                a < 0 && r >= 0,
        ;
    }
}

/// A nonnegative dividend and positive divisor leave a nonnegative
/// remainder under truncated division.
pub proof fn lemma_trem_nonneg(a: int, b: int)
    requires
        b > 0,
        a >= 0,
    ensures
        a - tdiv(a, b) * b >= 0,
{
    lemma_trem(a, b);
    if a == 0 {
        assert(tdiv(0, b) == 0);
    } else {
        assert(a * (a - tdiv(a, b) * b) >= 0);
        assert(a - tdiv(a, b) * b >= 0) by (nonlinear_arith)
            requires
                a > 0,
                a * (a - tdiv(a, b) * b) >= 0,
        ;
    }
}

/// Truncated division is the unique witness of its defining identity.
pub proof fn lemma_tdiv_unique(a: int, b: int, q: int, r: int)
    requires
        b != 0,
        a == q * b + r,
        abs(r) < abs(b),
        a * r >= 0,
    ensures
        q == tdiv(a, b),
        r == a - tdiv(a, b) * b,
{
    lemma_trem(a, b);
    let q0: int = tdiv(a, b);
    let r0: int = a - q0 * b;
    if q != q0 {
        assert(false) by (nonlinear_arith)
            requires
                b != 0,
                a == q * b + r,
                a == q0 * b + r0,
                abs(r) < abs(b),
                abs(r0) < abs(b),
                a * r >= 0,
                a * r0 >= 0,
                q != q0,
        ;
    }
}

/// Scaling the dividend by a positive factor splits into a whole part and
/// a scaled-remainder part.
pub proof fn lemma_tdiv_split(a: int, b: int, s: int)
    requires
        b != 0,
        s > 0,
    ensures
        tdiv(a * s, b) == tdiv(a, b) * s + tdiv((a - tdiv(a, b) * b) * s, b),
{
    let q: int = tdiv(a, b);
    let r: int = a - q * b;
    lemma_trem(a, b);
    let q2: int = tdiv(r * s, b);
    let r2: int = r * s - q2 * b;
    lemma_trem(r * s, b);
    assert(a * s == (q * s + q2) * b + r2) by (nonlinear_arith)
        requires
            a == q * b + r,
            r2 == r * s - q2 * b,
    ;
    if r == 0 {
        assert(q2 == 0 && r2 == 0);
        assert((a * s) * r2 == 0) by (nonlinear_arith)
            requires
                r2 == 0,
        ;
    } else {
        assert((a * s) * r2 >= 0) by (nonlinear_arith)
            requires
                s > 0,
                r != 0,
                a * r >= 0,
                (r * s) * r2 >= 0,
        ;
    }
    lemma_tdiv_unique(a * s, b, q * s + q2, r2);
}

/// Exact product of two scalars, with the bound hypothesis made explicit.
pub fn mul_i(a: i128, b: i128) -> (r: i128)
    requires
        -0x40000000000000000000000000000000 <= a * b
            <= 0x40000000000000000000000000000000,
    ensures
        r == a * b,
{
    a * b
}

/// Truncated division on machine integers; `b` must be nonzero and the
/// one overflowing quotient is excluded.
pub fn div_t(a: i128, b: i128) -> (r: i128)
    requires
        b != 0,
        a != i128::MIN || b != -1,
    ensures
        r == tdiv(a as int, b as int),
{
    proof {
        lemma_tdiv_bound(a as int, b as int);
        if a == i128::MIN {
            lemma_tdiv_signs(a as int, b as int);
            if abs(b as int) >= 2 {
                assert(abs(a as int) / abs(b as int) < abs(a as int)) by {
                    vstd::arithmetic::div_mod::lemma_div_is_strictly_smaller(
                        abs(a as int) as int,
                        abs(b as int) as int,
                    );
                }
            }
        }
    }
    match a.checked_div(b) {
        Some(q) => q,
        None => {
            proof {
                assert(false);
            }
            0
        },
    }
}

/// The fixed-point product `a * b / ONE`, rounded toward zero.
pub fn mul_fx(a: i128, b: i128) -> (r: i128)
    requires
        -0x40000000000000000000000000000000 <= a * b
            <= 0x40000000000000000000000000000000,
    ensures
        r == fmul(a as int, b as int),
{
    let p: i128 = mul_i(a, b);
    div_t(p, ONE)
}

/// The fixed-point quotient `a * ONE / b`, rounded toward zero.
pub fn div_fx(a: i128, b: i128) -> (r: i128)
    requires
        b != 0,
        -0x40000000000000000000000000000000 <= a * (ONE as int)
            <= 0x40000000000000000000000000000000,
    ensures
        r == fdiv(a as int, b as int),
{
    let p: i128 = mul_i(a, ONE);
    proof {
        assert(p > i128::MIN);
    }
    div_t(p, b)
}

/// The fixed-point quotient of a wide dividend.  `a * ONE` may overflow
/// `i128`, so the quotient is assembled from a whole part and a scaled
/// remainder.  A whole part too large to matter is reported as `None`:
/// such a quotient lies far outside every valid ray interval.
pub fn div_fx_wide(a: i128, b: i128) -> (r: Option<i128>)
    requires
        b != 0,
        abs(a as int) <= 0x4000000000000000000000000000000,
        abs(b as int) <= 0x4000000000000000000000000000,
    ensures
        match r {
            Some(t) => t == fdiv(a as int, b as int),
            None => abs(fdiv(a as int, b as int)) >= 0x100000000000000,
        },
{
    let q: i128 = div_t(a, b);
    proof {
        lemma_tdiv_bound(a as int, b as int);
        lemma_trem(a as int, b as int);
        lemma_tdiv_split(a as int, b as int, ONE as int);
        lemma_tdiv_quot_le((a - q * b) * (ONE as int), b as int, ONE as int);
    }
    if q > 0x10000000000 || q < -0x10000000000 {
        proof {
            let frac: int = tdiv((a - q * b) * (ONE as int), b as int);
            assert(fdiv(a as int, b as int) == q * (ONE as int) + frac);
            assert(abs(q * (ONE as int)) >= 0x10000000001 * 0x10000)
                by (nonlinear_arith)
                requires
                    abs(q as int) >= 0x10000000001,
            ;
        }
        None
    } else {
        let rem: i128 = a - q * b;
        let frac: i128 = div_t(mul_i(rem, ONE), b);
        Some(q * ONE + frac)
    }
}

/// `r` is the integer square root of `n`.
pub open spec fn is_isqrt(n: int, r: int) -> bool {
    0 <= r && r * r <= n && n < (r + 1) * (r + 1)
}

/// The integer square root of a nonnegative `n`.
pub open spec fn isqrt(n: int) -> int {
    choose|r: int| is_isqrt(n, r)
}

/// Every nonnegative integer has an integer square root.
pub proof fn lemma_isqrt_exists(n: int)
    requires
        n >= 0,
    ensures
        is_isqrt(n, isqrt(n)),
    decreases n,
{
    if n == 0 {
        assert(is_isqrt(0, 0));
    } else {
        lemma_isqrt_exists(n - 1);
        let r: int = isqrt(n - 1);
        if n < (r + 1) * (r + 1) {
            assert(is_isqrt(n, r));
        } else {
            assert(n == (r + 1) * (r + 1));
            assert((r + 1) * (r + 1) < (r + 2) * (r + 2)) by (nonlinear_arith)
                requires
                    r >= 0,
            ;
            assert(is_isqrt(n, r + 1));
        }
    }
}

/// The integer square root is unique.
pub proof fn lemma_isqrt_unique(n: int, r1: int, r2: int)
    by (nonlinear_arith)
    requires
        is_isqrt(n, r1),
        is_isqrt(n, r2),
    ensures
        r1 == r2,
{
}

/// Integer square root by binary search.
pub fn sqrt_t(n: i128) -> (r: i128)
    requires
        0 <= n,
    ensures
        r == isqrt(n as int),
        is_isqrt(n as int, r as int),
{
    let un: u128 = n as u128;
    let mut lo: u128 = 0;
    let mut hi: u128 = 0x10000000000000000;
    proof {
        assert((0x10000000000000000 as int) * (0x10000000000000000 as int) > un as int)
            by (nonlinear_arith)
            requires
                un < 0x10000000000000000 * 0x8000000000000000,
        ;
    }
    while lo + 1 < hi
        invariant
            lo < hi <= 0x10000000000000000,
            un == n,
            lo * lo <= un as int,
            (un as int) < hi * hi,
        decreases hi - lo,
    {
        let mid: u128 = lo + (hi - lo) / 2;
        proof {
            assert(lo < mid < hi);
            assert(mid * mid < 0x10000000000000000 * 0x10000000000000000) by (nonlinear_arith)
                requires
                    mid < 0x10000000000000000,
            ;
        }
        if mid * mid <= un {
            lo = mid;
        } else {
            hi = mid;
        }
    }
    proof {
        assert(is_isqrt(n as int, lo as int));
        lemma_isqrt_exists(n as int);
        lemma_isqrt_unique(n as int, lo as int, isqrt(n as int));
        assert(lo < 0x10000000000000000);
    }
    lo as i128
}

} // verus!
