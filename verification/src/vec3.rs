//! Three-component vectors of fixed-point scalars.

use crate::fixed::{
    div_fx, isqrt, lemma_abs_mul_le, lemma_isqrt_exists, lemma_tdiv_quot_le, mul_fx, mul_i,
    sqrt_t, tdiv, ONE,
};
use vstd::math::abs;
use vstd::prelude::*;

verus! {

/// Ghost image of a vector: three unbounded integers.
pub struct V3 {
    pub x: int,
    pub y: int,
    pub z: int,
}

/// Componentwise sum.
pub open spec fn add_v(a: V3, b: V3) -> V3 {
    V3 { x: a.x + b.x, y: a.y + b.y, z: a.z + b.z }
}

/// Componentwise difference.
pub open spec fn sub_v(a: V3, b: V3) -> V3 {
    V3 { x: a.x - b.x, y: a.y - b.y, z: a.z - b.z }
}

/// Componentwise negation.
pub open spec fn neg_v(a: V3) -> V3 {
    V3 { x: -a.x, y: -a.y, z: -a.z }
}

/// Fixed-point scaling: each component becomes `c * k / ONE`.
pub open spec fn scale_v(a: V3, k: int) -> V3 {
    V3 { x: tdiv(a.x * k, ONE as int), y: tdiv(a.y * k, ONE as int), z: tdiv(a.z * k, ONE as int) }
}

/// The raw dot product: exact sum of raw products, carrying scale `ONE * ONE`.
pub open spec fn dot_raw(a: V3, b: V3) -> int {
    a.x * b.x + a.y * b.y + a.z * b.z
}

/// The fixed-point dot product: the raw sum rounded back to scale `ONE`.
pub open spec fn dot_v(a: V3, b: V3) -> int {
    tdiv(dot_raw(a, b), ONE as int)
}

/// The fixed-point cross product, each component rounded once.
pub open spec fn cross_v(a: V3, b: V3) -> V3 {
    V3 {
        x: tdiv(a.y * b.z - a.z * b.y, ONE as int),
        y: tdiv(a.z * b.x - a.x * b.z, ONE as int),
        z: tdiv(a.x * b.y - a.y * b.x, ONE as int),
    }
}

/// The raw cross product: exact differences of raw products, carrying
/// scale `ONE * ONE`.
pub open spec fn cross_raw(a: V3, b: V3) -> V3 {
    V3 {
        x: a.y * b.z - a.z * b.y,
        y: a.z * b.x - a.x * b.z,
        z: a.x * b.y - a.y * b.x,
    }
}

/// The Euclidean length at scale `ONE`: the raw self-dot carries scale
/// `ONE * ONE`, so its integer square root is back at scale `ONE`.
pub open spec fn len_v(a: V3) -> int {
    isqrt(dot_raw(a, a))
}

/// The unit vector: each component divided by the length.
pub open spec fn unit_v(a: V3) -> V3 {
    V3 {
        x: tdiv(a.x * (ONE as int), len_v(a)),
        y: tdiv(a.y * (ONE as int), len_v(a)),
        z: tdiv(a.z * (ONE as int), len_v(a)),
    }
}

/// Every component has magnitude at most `m`.
pub open spec fn bounded(a: V3, m: int) -> bool {
    abs(a.x) <= m && abs(a.y) <= m && abs(a.z) <= m
}

pub open spec fn is_zero(a: V3) -> bool {
    a.x == 0 && a.y == 0 && a.z == 0
}

/// A value safely inside the `i128` range, leaving room for sums.
pub open spec fn fits(v: int) -> bool {
    -0x40000000000000000000000000000000 <= v <= 0x40000000000000000000000000000000
}

/// All intermediate values of a raw dot product stay representable.
pub open spec fn dot_ok(a: V3, b: V3) -> bool {
    &&& fits(a.x * b.x)
    &&& fits(a.y * b.y)
    &&& fits(a.z * b.z)
    &&& fits(a.x * b.x + a.y * b.y)
    &&& fits(dot_raw(a, b))
}

/// All intermediate values of a cross product stay representable.
pub open spec fn cross_ok(a: V3, b: V3) -> bool {
    &&& fits(a.y * b.z)
    &&& fits(a.z * b.y)
    &&& fits(a.y * b.z - a.z * b.y)
    &&& fits(a.z * b.x)
    &&& fits(a.x * b.z)
    &&& fits(a.z * b.x - a.x * b.z)
    &&& fits(a.x * b.y)
    &&& fits(a.y * b.x)
    &&& fits(a.x * b.y - a.y * b.x)
}

/// Componentwise bounds make every dot intermediate representable.
pub proof fn lemma_dot_ok(a: V3, b: V3, aa: int, bb: int)
    requires
        bounded(a, aa),
        bounded(b, bb),
        0 <= aa,
        0 <= bb,
        3 * (aa * bb) <= 0x40000000000000000000000000000000,
    ensures
        dot_ok(a, b),
        abs(dot_raw(a, b)) <= 3 * (aa * bb),
{
    lemma_abs_mul_le(a.x, b.x, aa, bb);
    lemma_abs_mul_le(a.y, b.y, aa, bb);
    lemma_abs_mul_le(a.z, b.z, aa, bb);
}

/// Componentwise bounds make every cross intermediate representable.
pub proof fn lemma_cross_ok(a: V3, b: V3, aa: int, bb: int)
    requires
        bounded(a, aa),
        bounded(b, bb),
        0 <= aa,
        0 <= bb,
        2 * (aa * bb) <= 0x40000000000000000000000000000000,
    ensures
        cross_ok(a, b),
        bounded(cross_v(a, b), 2 * (aa * bb)),
        bounded(cross_raw(a, b), 2 * (aa * bb)),
{
    lemma_abs_mul_le(a.x, b.x, aa, bb);
    lemma_abs_mul_le(a.y, b.y, aa, bb);
    lemma_abs_mul_le(a.z, b.z, aa, bb);
    lemma_abs_mul_le(a.x, b.y, aa, bb);
    lemma_abs_mul_le(a.y, b.x, aa, bb);
    lemma_abs_mul_le(a.x, b.z, aa, bb);
    lemma_abs_mul_le(a.z, b.x, aa, bb);
    lemma_abs_mul_le(a.y, b.z, aa, bb);
    lemma_abs_mul_le(a.z, b.y, aa, bb);
    crate::fixed::lemma_tdiv_bound(a.y * b.z - a.z * b.y, ONE as int);
    crate::fixed::lemma_tdiv_bound(a.z * b.x - a.x * b.z, ONE as int);
    crate::fixed::lemma_tdiv_bound(a.x * b.y - a.y * b.x, ONE as int);
}

/// A self-dot is a sum of squares, hence nonnegative.
pub proof fn lemma_dot_self_nonneg(a: V3)
    ensures
        dot_raw(a, a) >= 0,
        a.x * a.x >= 0,
        a.y * a.y >= 0,
        a.z * a.z >= 0,
        !is_zero(a) ==> dot_raw(a, a) >= 1,
{
    assert(a.x * a.x >= 0 && a.y * a.y >= 0 && a.z * a.z >= 0) by (nonlinear_arith);
    if !is_zero(a) {
        assert(a.x != 0 ==> a.x * a.x >= 1) by (nonlinear_arith);
        assert(a.y != 0 ==> a.y * a.y >= 1) by (nonlinear_arith);
        assert(a.z != 0 ==> a.z * a.z >= 1) by (nonlinear_arith);
    }
}

/// A vector of fixed-point scalars.
#[derive(Copy, Clone, Debug, PartialEq, Eq, Structural)]
pub struct Vec3 {
    pub x: i128,
    pub y: i128,
    pub z: i128,
}

impl View for Vec3 {
    type V = V3;

    open spec fn view(&self) -> V3 {
        V3 { x: self.x as int, y: self.y as int, z: self.z as int }
    }
}

impl Vec3 {
    pub fn new(x: i128, y: i128, z: i128) -> (r: Vec3)
        ensures
            r@ == (V3 { x: x as int, y: y as int, z: z as int }),
    {
        Vec3 { x, y, z }
    }

    /// Componentwise sum.
    pub fn add(&self, other: &Vec3) -> (r: Vec3)
        requires
            fits(self@.x + other@.x),
            fits(self@.y + other@.y),
            fits(self@.z + other@.z),
        ensures
            r@ == add_v(self@, other@),
    {
        Vec3 { x: self.x + other.x, y: self.y + other.y, z: self.z + other.z }
    }

    /// Componentwise difference.
    pub fn sub(&self, other: &Vec3) -> (r: Vec3)
        requires
            fits(self@.x - other@.x),
            fits(self@.y - other@.y),
            fits(self@.z - other@.z),
        ensures
            r@ == sub_v(self@, other@),
    {
        Vec3 { x: self.x - other.x, y: self.y - other.y, z: self.z - other.z }
    }

    /// Scales each component by the fixed-point factor.
    pub fn scale(&self, factor: i128) -> (r: Vec3)
        requires
            fits(self@.x * factor),
            fits(self@.y * factor),
            fits(self@.z * factor),
        ensures
            r@ == scale_v(self@, factor as int),
    {
        Vec3 {
            x: mul_fx(self.x, factor),
            y: mul_fx(self.y, factor),
            z: mul_fx(self.z, factor),
        }
    }

    /// The fixed-point dot product.
    pub fn dot(&self, other: &Vec3) -> (r: i128)
        requires
            dot_ok(self@, other@),
        ensures
            r == dot_v(self@, other@),
    {
        let p: i128 = self.dot_wide(other);
        proof {
            crate::fixed::lemma_tdiv_bound(p as int, ONE as int);
        }
        crate::fixed::div_t(p, ONE)
    }

    /// The raw dot product, the exact sum of products at scale `ONE * ONE`.
    pub fn dot_wide(&self, other: &Vec3) -> (r: i128)
        requires
            dot_ok(self@, other@),
        ensures
            r == dot_raw(self@, other@),
    {
        let px: i128 = mul_i(self.x, other.x);
        let py: i128 = mul_i(self.y, other.y);
        let pz: i128 = mul_i(self.z, other.z);
        px + py + pz
    }

    /// The fixed-point cross product.
    pub fn cross(&self, other: &Vec3) -> (r: Vec3)
        requires
            cross_ok(self@, other@),
        ensures
            r@ == cross_v(self@, other@),
    {
        let x: i128 = crate::fixed::div_t(
            mul_i(self.y, other.z) - mul_i(self.z, other.y),
            ONE,
        );
        let y: i128 = crate::fixed::div_t(
            mul_i(self.z, other.x) - mul_i(self.x, other.z),
            ONE,
        );
        let z: i128 = crate::fixed::div_t(
            mul_i(self.x, other.y) - mul_i(self.y, other.x),
            ONE,
        );
        Vec3 { x, y, z }
    }

    /// The raw cross product, kept at scale `ONE * ONE` so that the
    /// triangle test can compare exact integers.
    pub fn cross_wide(&self, other: &Vec3) -> (r: Vec3)
        requires
            cross_ok(self@, other@),
        ensures
            r@ == cross_raw(self@, other@),
    {
        Vec3 {
            x: mul_i(self.y, other.z) - mul_i(self.z, other.y),
            y: mul_i(self.z, other.x) - mul_i(self.x, other.z),
            z: mul_i(self.x, other.y) - mul_i(self.y, other.x),
        }
    }

    /// The Euclidean length as a fixed-point scalar.
    pub fn len(&self) -> (r: i128)
        requires
            dot_ok(self@, self@),
        ensures
            r == len_v(self@),
            is_isqrt_of_self_dot(self@, r as int),
    {
        proof {
            lemma_dot_self_nonneg(self@);
        }
        let n: i128 = self.dot_wide(self);
        sqrt_t(n)
    }

    /// The unit vector in the same direction.  The components of the
    /// result never exceed `ONE` in magnitude.
    pub fn unit(&self) -> (r: Vec3)
        requires
            dot_ok(self@, self@),
            !is_zero(self@),
            fits(self@.x * (ONE as int)),
            fits(self@.y * (ONE as int)),
            fits(self@.z * (ONE as int)),
        ensures
            r@ == unit_v(self@),
            bounded(r@, ONE as int),
            !is_zero(r@),
            len_v(self@) >= 1,
    {
        let l: i128 = self.len();
        proof {
            lemma_dot_self_nonneg(self@);
            lemma_unit_bounds(self@);
        }
        Vec3 {
            x: div_fx(self.x, l),
            y: div_fx(self.y, l),
            z: div_fx(self.z, l),
        }
    }

    /// The opposite vector.
    pub fn inverse(&self) -> (r: Vec3)
        requires
            fits(-self@.x),
            fits(-self@.y),
            fits(-self@.z),
        ensures
            r@ == neg_v(self@),
    {
        Vec3 { x: -self.x, y: -self.y, z: -self.z }
    }
}

/// `r` squares to the raw self-dot of `a`.
pub open spec fn is_isqrt_of_self_dot(a: V3, r: int) -> bool {
    crate::fixed::is_isqrt(dot_raw(a, a), r)
}

/// A nonzero vector has positive length, each component is bounded by the
/// length, and so each unit component is bounded by `ONE`.
pub proof fn lemma_unit_bounds(a: V3)
    requires
        !is_zero(a),
    ensures
        len_v(a) >= 1,
        abs(a.x) <= len_v(a),
        abs(a.y) <= len_v(a),
        abs(a.z) <= len_v(a),
        bounded(unit_v(a), ONE as int),
        !is_zero(unit_v(a)),
{
    lemma_dot_self_nonneg(a);
    lemma_isqrt_exists(dot_raw(a, a));
    let l: int = len_v(a);
    assert(l * l <= dot_raw(a, a) < (l + 1) * (l + 1));
    if l == 0 {
        assert(dot_raw(a, a) < 1);
        assert(false);
    }
    lemma_component_le_len(a.x, a.y, a.z, l);
    lemma_component_le_len(a.y, a.x, a.z, l);
    lemma_component_le_len(a.z, a.x, a.y, l);
    lemma_tdiv_quot_le(a.x * (ONE as int), l, ONE as int);
    lemma_tdiv_quot_le(a.y * (ONE as int), l, ONE as int);
    lemma_tdiv_quot_le(a.z * (ONE as int), l, ONE as int);
    // The largest component survives normalization: the length is at most
    // twice it, so the quotient is at least half of `ONE`.
    if abs(a.x) >= abs(a.y) && abs(a.x) >= abs(a.z) {
        lemma_unit_component(a.x, a.y, a.z, l);
        assert(unit_v(a).x != 0);
    } else if abs(a.y) >= abs(a.x) && abs(a.y) >= abs(a.z) {
        lemma_unit_component(a.y, a.x, a.z, l);
        assert(unit_v(a).y != 0);
    } else {
        lemma_unit_component(a.z, a.x, a.y, l);
        assert(unit_v(a).z != 0);
    }
}

/// The largest component of a vector keeps at least half of `ONE` after
/// division by the length.
proof fn lemma_unit_component(c: int, d: int, e: int, l: int)
    requires
        abs(c) >= 1,
        abs(c) >= abs(d),
        abs(c) >= abs(e),
        l >= 1,
        l * l <= c * c + d * d + e * e,
    ensures
        abs(tdiv(c * (ONE as int), l)) >= 32768,
{
    assert(l <= 2 * abs(c)) by (nonlinear_arith)
        requires
            abs(c) >= abs(d),
            abs(c) >= abs(e),
            l >= 1,
            l * l <= c * c + d * d + e * e,
    ;
    crate::fixed::lemma_tdiv_signs(c * (ONE as int), l);
    crate::fixed::lemma_abs_mul(c, ONE as int);
    let ac: int = abs(c) as int;
    assert((ac * (ONE as int)) / l >= (ac * (ONE as int)) / (2 * ac)) by {
        vstd::arithmetic::div_mod::lemma_div_is_ordered_by_denominator(ac * (ONE as int), l, 2 * ac);
    }
    assert((ac * (ONE as int)) / (2 * ac) == 32768) by {
        assert(ac * (ONE as int) == 32768 * (2 * ac)) by (nonlinear_arith);
        vstd::arithmetic::div_mod::lemma_div_by_multiple(32768, 2 * ac);
    }
}

/// A component of a vector is bounded by any integer square root bound of
/// the sum of squares.
proof fn lemma_component_le_len(c: int, d: int, e: int, l: int)
    by (nonlinear_arith)
    requires
        l >= 0,
        c * c + d * d + e * e < (l + 1) * (l + 1),
    ensures
        abs(c) <= l,
        abs(c) * (ONE as int) <= l * (ONE as int),
        abs(c * (ONE as int)) <= l * (ONE as int),
{
}

} // verus!
