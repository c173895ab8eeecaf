//! 4x4 transform matrices over fixed-point scalars.
//!
//! Index notation is row, column: `r1.z` is the entry at row 1, column 2.

use crate::fixed::{div_fx, fdiv, fmul, lemma_abs_mul_le, lemma_tdiv_bound, mul_fx, ONE};
use crate::vec3::{V3, Vec3};
use crate::vec4::{bounded4, V4, Vec4};
use vstd::math::abs;
use vstd::prelude::*;

verus! {

/// Bound on matrix entries accepted by the matrix operations, chosen so
/// that every intermediate product stays far inside `i128`.
pub const MAT_MAX: i128 = 0x4000000000;

/// Ghost image of a matrix: four rows of unbounded integers.
pub struct M4 {
    pub r0: V4,
    pub r1: V4,
    pub r2: V4,
    pub r3: V4,
}

/// Every entry has magnitude at most `m`.
pub open spec fn bounded_m4(m: M4, b: int) -> bool {
    bounded4(m.r0, b) && bounded4(m.r1, b) && bounded4(m.r2, b) && bounded4(m.r3, b)
}

pub open spec fn col0(m: M4) -> V4 {
    V4 { x: m.r0.x, y: m.r1.x, z: m.r2.x, w: m.r3.x }
}

pub open spec fn col1(m: M4) -> V4 {
    V4 { x: m.r0.y, y: m.r1.y, z: m.r2.y, w: m.r3.y }
}

pub open spec fn col2(m: M4) -> V4 {
    V4 { x: m.r0.z, y: m.r1.z, z: m.r2.z, w: m.r3.z }
}

pub open spec fn col3(m: M4) -> V4 {
    V4 { x: m.r0.w, y: m.r1.w, z: m.r2.w, w: m.r3.w }
}

/// Fixed-point dot product of homogeneous vectors: each product rounds
/// once, the sums are exact.
pub open spec fn dot4_v(a: V4, b: V4) -> int {
    fmul(a.x, b.x) + fmul(a.y, b.y) + fmul(a.z, b.z) + fmul(a.w, b.w)
}

/// A matrix applied to a homogeneous vector.
pub open spec fn mul_vec_v(m: M4, v: V4) -> V4 {
    V4 {
        x: dot4_v(m.r0, v),
        y: dot4_v(m.r1, v),
        z: dot4_v(m.r2, v),
        w: dot4_v(m.r3, v),
    }
}

/// Matrix composition: entry (i, j) is the dot of row i with column j.
pub open spec fn mul_mat_v(a: M4, b: M4) -> M4 {
    M4 {
        r0: V4 {
            x: dot4_v(a.r0, col0(b)),
            y: dot4_v(a.r0, col1(b)),
            z: dot4_v(a.r0, col2(b)),
            w: dot4_v(a.r0, col3(b)),
        },
        r1: V4 {
            x: dot4_v(a.r1, col0(b)),
            y: dot4_v(a.r1, col1(b)),
            z: dot4_v(a.r1, col2(b)),
            w: dot4_v(a.r1, col3(b)),
        },
        r2: V4 {
            x: dot4_v(a.r2, col0(b)),
            y: dot4_v(a.r2, col1(b)),
            z: dot4_v(a.r2, col2(b)),
            w: dot4_v(a.r2, col3(b)),
        },
        r3: V4 {
            x: dot4_v(a.r3, col0(b)),
            y: dot4_v(a.r3, col1(b)),
            z: dot4_v(a.r3, col2(b)),
            w: dot4_v(a.r3, col3(b)),
        },
    }
}

/// The identity transform.
pub open spec fn identity_v() -> M4 {
    M4 {
        r0: V4 { x: ONE as int, y: 0, z: 0, w: 0 },
        r1: V4 { x: 0, y: ONE as int, z: 0, w: 0 },
        r2: V4 { x: 0, y: 0, z: ONE as int, w: 0 },
        r3: V4 { x: 0, y: 0, z: 0, w: ONE as int },
    }
}

/// A normal transformed by the transpose of the given inverse matrix, the
/// inverse-transpose convention for surface normals.
pub open spec fn transform_normal_v(n: V3, inv: M4) -> V3 {
    V3 {
        x: fmul(inv.r0.x, n.x) + fmul(inv.r1.x, n.y) + fmul(inv.r2.x, n.z),
        y: fmul(inv.r0.y, n.x) + fmul(inv.r1.y, n.y) + fmul(inv.r2.y, n.z),
        z: fmul(inv.r0.z, n.x) + fmul(inv.r1.z, n.y) + fmul(inv.r2.z, n.z),
    }
}

/// 2x2 minors of the upper half of the matrix.
pub open spec fn s0_v(m: M4) -> int {
    fmul(m.r0.x, m.r1.y) - fmul(m.r1.x, m.r0.y)
}

pub open spec fn s1_v(m: M4) -> int {
    fmul(m.r0.x, m.r1.z) - fmul(m.r1.x, m.r0.z)
}

pub open spec fn s2_v(m: M4) -> int {
    fmul(m.r0.x, m.r1.w) - fmul(m.r1.x, m.r0.w)
}

pub open spec fn s3_v(m: M4) -> int {
    fmul(m.r0.y, m.r1.z) - fmul(m.r1.y, m.r0.z)
}

pub open spec fn s4_v(m: M4) -> int {
    fmul(m.r0.y, m.r1.w) - fmul(m.r1.y, m.r0.w)
}

pub open spec fn s5_v(m: M4) -> int {
    fmul(m.r0.z, m.r1.w) - fmul(m.r1.z, m.r0.w)
}

/// 2x2 minors of the lower half of the matrix.
pub open spec fn c5_v(m: M4) -> int {
    fmul(m.r2.z, m.r3.w) - fmul(m.r3.z, m.r2.w)
}

pub open spec fn c4_v(m: M4) -> int {
    fmul(m.r2.y, m.r3.w) - fmul(m.r3.y, m.r2.w)
}

pub open spec fn c3_v(m: M4) -> int {
    fmul(m.r2.y, m.r3.z) - fmul(m.r3.y, m.r2.z)
}

pub open spec fn c2_v(m: M4) -> int {
    fmul(m.r2.x, m.r3.w) - fmul(m.r3.x, m.r2.w)
}

pub open spec fn c1_v(m: M4) -> int {
    fmul(m.r2.x, m.r3.z) - fmul(m.r3.x, m.r2.z)
}

pub open spec fn c0_v(m: M4) -> int {
    fmul(m.r2.x, m.r3.y) - fmul(m.r3.x, m.r2.y)
}

/// The determinant, by expansion in 2x2 minors.
pub open spec fn det_v(m: M4) -> int {
    fmul(s0_v(m), c5_v(m)) - fmul(s1_v(m), c4_v(m)) + fmul(s2_v(m), c3_v(m)) + fmul(
        s3_v(m),
        c2_v(m),
    ) - fmul(s4_v(m), c1_v(m)) + fmul(s5_v(m), c0_v(m))
}

/// The fixed-point reciprocal of the determinant.
pub open spec fn inv_det_v(m: M4) -> int {
    fdiv(ONE as int, det_v(m))
}

/// The inverse by the adjugate formula, every product rounding once.
pub open spec fn inverse_v(m: M4) -> M4 {
    let s0: int = s0_v(m);
    let s1: int = s1_v(m);
    let s2: int = s2_v(m);
    let s3: int = s3_v(m);
    let s4: int = s4_v(m);
    let s5: int = s5_v(m);
    let c0: int = c0_v(m);
    let c1: int = c1_v(m);
    let c2: int = c2_v(m);
    let c3: int = c3_v(m);
    let c4: int = c4_v(m);
    let c5: int = c5_v(m);
    let d: int = inv_det_v(m);
    M4 {
        r0: V4 {
            x: fmul(fmul(m.r1.y, c5) - fmul(m.r1.z, c4) + fmul(m.r1.w, c3), d),
            y: fmul(-fmul(m.r0.y, c5) + fmul(m.r0.z, c4) - fmul(m.r0.w, c3), d),
            z: fmul(fmul(m.r3.y, s5) - fmul(m.r3.z, s4) + fmul(m.r3.w, s3), d),
            w: fmul(-fmul(m.r2.y, s5) + fmul(m.r2.z, s4) - fmul(m.r2.w, s3), d),
        },
        r1: V4 {
            x: fmul(-fmul(m.r1.x, c5) + fmul(m.r1.z, c2) - fmul(m.r1.w, c1), d),
            y: fmul(fmul(m.r0.x, c5) - fmul(m.r0.z, c2) + fmul(m.r0.w, c1), d),
            z: fmul(-fmul(m.r3.x, s5) + fmul(m.r3.z, s2) - fmul(m.r3.w, s1), d),
            w: fmul(fmul(m.r2.x, s5) - fmul(m.r2.z, s2) + fmul(m.r2.w, s1), d),
        },
        r2: V4 {
            x: fmul(fmul(m.r1.x, c4) - fmul(m.r1.y, c2) + fmul(m.r1.w, c0), d),
            y: fmul(-fmul(m.r0.x, c4) + fmul(m.r0.y, c2) - fmul(m.r0.w, c0), d),
            z: fmul(fmul(m.r3.x, s4) - fmul(m.r3.y, s2) + fmul(m.r3.w, s0), d),
            w: fmul(-fmul(m.r2.x, s4) + fmul(m.r2.y, s2) - fmul(m.r2.w, s0), d),
        },
        r3: V4 {
            x: fmul(-fmul(m.r1.x, c3) + fmul(m.r1.y, c1) - fmul(m.r1.z, c0), d),
            y: fmul(fmul(m.r0.x, c3) - fmul(m.r0.y, c1) + fmul(m.r0.z, c0), d),
            z: fmul(-fmul(m.r3.x, s3) + fmul(m.r3.y, s1) - fmul(m.r3.z, s0), d),
            w: fmul(fmul(m.r2.x, s3) - fmul(m.r2.y, s1) + fmul(m.r2.z, s0), d),
        },
    }
}

/// A 4x4 transform matrix of fixed-point scalars.
#[derive(Copy, Clone, Debug, PartialEq, Eq, Structural)]
pub struct Matrix4x4 {
    pub r0: Vec4,
    pub r1: Vec4,
    pub r2: Vec4,
    pub r3: Vec4,
}

impl View for Matrix4x4 {
    type V = M4;

    open spec fn view(&self) -> M4 {
        M4 { r0: self.r0@, r1: self.r1@, r2: self.r2@, r3: self.r3@ }
    }
}

/// Product of two matrix entries, with the bound carried along.
fn mul_ee(a: i128, b: i128) -> (r: i128)
    requires
        abs(a as int) <= MAT_MAX,
        abs(b as int) <= MAT_MAX,
    ensures
        r == fmul(a as int, b as int),
        abs(r as int) <= 0x1000000000000000,
{
    proof {
        lemma_abs_mul_le(a as int, b as int, MAT_MAX as int, MAT_MAX as int);
        lemma_tdiv_bound((a as int) * (b as int), ONE as int);
        crate::fixed::lemma_tdiv_quot_le(
            (a as int) * (b as int),
            ONE as int,
            0x1000000000000000,
        );
    }
    mul_fx(a, b)
}

/// Product of a matrix entry and a 2x2 minor.
fn mul_ec(a: i128, b: i128) -> (r: i128)
    requires
        abs(a as int) <= MAT_MAX,
        abs(b as int) <= 0x2000000000000000,
    ensures
        r == fmul(a as int, b as int),
        abs(r as int) <= 0x8000000000000000000000,
{
    proof {
        lemma_abs_mul_le(a as int, b as int, MAT_MAX as int, 0x2000000000000000);
        crate::fixed::lemma_tdiv_quot_le(
            (a as int) * (b as int),
            ONE as int,
            0x8000000000000000000000,
        );
    }
    mul_fx(a, b)
}

/// Product of two 2x2 minors.
fn mul_cc(a: i128, b: i128) -> (r: i128)
    requires
        abs(a as int) <= 0x2000000000000000,
        abs(b as int) <= 0x2000000000000000,
    ensures
        r == fmul(a as int, b as int),
        abs(r as int) <= 0x400000000000000000000000000,
{
    proof {
        lemma_abs_mul_le(a as int, b as int, 0x2000000000000000, 0x2000000000000000);
        crate::fixed::lemma_tdiv_quot_le(
            (a as int) * (b as int),
            ONE as int,
            0x400000000000000000000000000,
        );
    }
    mul_fx(a, b)
}

/// Product of a cofactor sum and the reciprocal determinant.
fn mul_ci(a: i128, b: i128) -> (r: i128)
    requires
        abs(a as int) <= 0x20000000000000000000000,
        abs(b as int) <= 0x100000000,
    ensures
        r == fmul(a as int, b as int),
{
    proof {
        lemma_abs_mul_le(a as int, b as int, 0x20000000000000000000000, 0x100000000);
    }
    mul_fx(a, b)
}

/// Fixed-point dot product of a matrix row with a homogeneous vector.
fn dot4(a: &Vec4, b: &Vec4) -> (r: i128)
    requires
        bounded4(a@, MAT_MAX as int),
        bounded4(b@, 0x4000000000000000),
    ensures
        r == dot4_v(a@, b@),
{
    proof {
        lemma_abs_mul_le(a@.x, b@.x, MAT_MAX as int, 0x4000000000000000);
        lemma_abs_mul_le(a@.y, b@.y, MAT_MAX as int, 0x4000000000000000);
        lemma_abs_mul_le(a@.z, b@.z, MAT_MAX as int, 0x4000000000000000);
        lemma_abs_mul_le(a@.w, b@.w, MAT_MAX as int, 0x4000000000000000);
        lemma_tdiv_bound(a@.x * b@.x, ONE as int);
        lemma_tdiv_bound(a@.y * b@.y, ONE as int);
        lemma_tdiv_bound(a@.z * b@.z, ONE as int);
        lemma_tdiv_bound(a@.w * b@.w, ONE as int);
    }
    mul_fx(a.x, b.x) + mul_fx(a.y, b.y) + mul_fx(a.z, b.z) + mul_fx(a.w, b.w)
}

impl Matrix4x4 {
    /// Builds a matrix from a row-major grid of fixed-point entries.
    pub fn new(v: [[i128; 4]; 4]) -> (r: Matrix4x4)
        ensures
            r@.r0 == (V4 { x: v[0][0] as int, y: v[0][1] as int, z: v[0][2] as int, w: v[0][3] as int }),
            r@.r1 == (V4 { x: v[1][0] as int, y: v[1][1] as int, z: v[1][2] as int, w: v[1][3] as int }),
            r@.r2 == (V4 { x: v[2][0] as int, y: v[2][1] as int, z: v[2][2] as int, w: v[2][3] as int }),
            r@.r3 == (V4 { x: v[3][0] as int, y: v[3][1] as int, z: v[3][2] as int, w: v[3][3] as int }),
    {
        Matrix4x4 {
            r0: Vec4 { x: v[0][0], y: v[0][1], z: v[0][2], w: v[0][3] },
            r1: Vec4 { x: v[1][0], y: v[1][1], z: v[1][2], w: v[1][3] },
            r2: Vec4 { x: v[2][0], y: v[2][1], z: v[2][2], w: v[2][3] },
            r3: Vec4 { x: v[3][0], y: v[3][1], z: v[3][2], w: v[3][3] },
        }
    }

    /// The identity transform.
    pub fn identity() -> (r: Matrix4x4)
        ensures
            r@ == identity_v(),
    {
        Matrix4x4 {
            r0: Vec4 { x: ONE, y: 0, z: 0, w: 0 },
            r1: Vec4 { x: 0, y: ONE, z: 0, w: 0 },
            r2: Vec4 { x: 0, y: 0, z: ONE, w: 0 },
            r3: Vec4 { x: 0, y: 0, z: 0, w: ONE },
        }
    }

    /// Applies the matrix to a homogeneous vector.
    pub fn mul_vec(&self, v: &Vec4) -> (r: Vec4)
        requires
            bounded_m4(self@, MAT_MAX as int),
            bounded4(v@, 0x4000000000000000),
        ensures
            r@ == mul_vec_v(self@, v@),
    {
        Vec4 {
            x: dot4(&self.r0, v),
            y: dot4(&self.r1, v),
            z: dot4(&self.r2, v),
            w: dot4(&self.r3, v),
        }
    }

    /// Composes two transforms.
    pub fn mul_mat(&self, o: &Matrix4x4) -> (r: Matrix4x4)
        requires
            bounded_m4(self@, MAT_MAX as int),
            bounded_m4(o@, MAT_MAX as int),
        ensures
            r@ == mul_mat_v(self@, o@),
    {
        let c0: Vec4 = Vec4 { x: o.r0.x, y: o.r1.x, z: o.r2.x, w: o.r3.x };
        let c1: Vec4 = Vec4 { x: o.r0.y, y: o.r1.y, z: o.r2.y, w: o.r3.y };
        let c2: Vec4 = Vec4 { x: o.r0.z, y: o.r1.z, z: o.r2.z, w: o.r3.z };
        let c3: Vec4 = Vec4 { x: o.r0.w, y: o.r1.w, z: o.r2.w, w: o.r3.w };
        Matrix4x4 {
            r0: Vec4 {
                x: dot4(&self.r0, &c0),
                y: dot4(&self.r0, &c1),
                z: dot4(&self.r0, &c2),
                w: dot4(&self.r0, &c3),
            },
            r1: Vec4 {
                x: dot4(&self.r1, &c0),
                y: dot4(&self.r1, &c1),
                z: dot4(&self.r1, &c2),
                w: dot4(&self.r1, &c3),
            },
            r2: Vec4 {
                x: dot4(&self.r2, &c0),
                y: dot4(&self.r2, &c1),
                z: dot4(&self.r2, &c2),
                w: dot4(&self.r2, &c3),
            },
            r3: Vec4 {
                x: dot4(&self.r3, &c0),
                y: dot4(&self.r3, &c1),
                z: dot4(&self.r3, &c2),
                w: dot4(&self.r3, &c3),
            },
        }
    }

    /// The determinant, at fixed-point scale.
    #[verifier::rlimit(100)]
    pub fn det(&self) -> (r: i128)
        requires
            bounded_m4(self@, MAT_MAX as int),
        ensures
            r == det_v(self@),
    {
        let s0: i128 = mul_ee(self.r0.x, self.r1.y) - mul_ee(self.r1.x, self.r0.y);
        let s1: i128 = mul_ee(self.r0.x, self.r1.z) - mul_ee(self.r1.x, self.r0.z);
        let s2: i128 = mul_ee(self.r0.x, self.r1.w) - mul_ee(self.r1.x, self.r0.w);
        let s3: i128 = mul_ee(self.r0.y, self.r1.z) - mul_ee(self.r1.y, self.r0.z);
        let s4: i128 = mul_ee(self.r0.y, self.r1.w) - mul_ee(self.r1.y, self.r0.w);
        let s5: i128 = mul_ee(self.r0.z, self.r1.w) - mul_ee(self.r1.z, self.r0.w);
        let c5: i128 = mul_ee(self.r2.z, self.r3.w) - mul_ee(self.r3.z, self.r2.w);
        let c4: i128 = mul_ee(self.r2.y, self.r3.w) - mul_ee(self.r3.y, self.r2.w);
        let c3: i128 = mul_ee(self.r2.y, self.r3.z) - mul_ee(self.r3.y, self.r2.z);
        let c2: i128 = mul_ee(self.r2.x, self.r3.w) - mul_ee(self.r3.x, self.r2.w);
        let c1: i128 = mul_ee(self.r2.x, self.r3.z) - mul_ee(self.r3.x, self.r2.z);
        let c0: i128 = mul_ee(self.r2.x, self.r3.y) - mul_ee(self.r3.x, self.r2.y);
        mul_cc(s0, c5) - mul_cc(s1, c4) + mul_cc(s2, c3) + mul_cc(s3, c2) - mul_cc(s4, c1)
            + mul_cc(s5, c0)
    }

    /// The inverse by the adjugate formula.  The determinant must be
    /// nonzero; a singular matrix has no inverse.
    #[verifier::rlimit(100)]
    pub fn inverse(&self) -> (r: Matrix4x4)
        requires
            bounded_m4(self@, MAT_MAX as int),
            det_v(self@) != 0,
        ensures
            r@ == inverse_v(self@),
    {
        let s0: i128 = mul_ee(self.r0.x, self.r1.y) - mul_ee(self.r1.x, self.r0.y);
        let s1: i128 = mul_ee(self.r0.x, self.r1.z) - mul_ee(self.r1.x, self.r0.z);
        let s2: i128 = mul_ee(self.r0.x, self.r1.w) - mul_ee(self.r1.x, self.r0.w);
        let s3: i128 = mul_ee(self.r0.y, self.r1.z) - mul_ee(self.r1.y, self.r0.z);
        let s4: i128 = mul_ee(self.r0.y, self.r1.w) - mul_ee(self.r1.y, self.r0.w);
        let s5: i128 = mul_ee(self.r0.z, self.r1.w) - mul_ee(self.r1.z, self.r0.w);
        let c5: i128 = mul_ee(self.r2.z, self.r3.w) - mul_ee(self.r3.z, self.r2.w);
        let c4: i128 = mul_ee(self.r2.y, self.r3.w) - mul_ee(self.r3.y, self.r2.w);
        let c3: i128 = mul_ee(self.r2.y, self.r3.z) - mul_ee(self.r3.y, self.r2.z);
        let c2: i128 = mul_ee(self.r2.x, self.r3.w) - mul_ee(self.r3.x, self.r2.w);
        let c1: i128 = mul_ee(self.r2.x, self.r3.z) - mul_ee(self.r3.x, self.r2.z);
        let c0: i128 = mul_ee(self.r2.x, self.r3.y) - mul_ee(self.r3.x, self.r2.y);
        let det: i128 = mul_cc(s0, c5) - mul_cc(s1, c4) + mul_cc(s2, c3) + mul_cc(s3, c2)
            - mul_cc(s4, c1) + mul_cc(s5, c0);
        let inv_det: i128 = div_fx(ONE, det);
        proof {
            lemma_tdiv_bound((ONE as int) * (ONE as int), det as int);
        }
        let a: &Matrix4x4 = self;
        Matrix4x4 {
            r0: Vec4 {
                x: mul_ci(mul_ec(a.r1.y, c5) - mul_ec(a.r1.z, c4) + mul_ec(a.r1.w, c3), inv_det),
                y: mul_ci(-mul_ec(a.r0.y, c5) + mul_ec(a.r0.z, c4) - mul_ec(a.r0.w, c3), inv_det),
                z: mul_ci(mul_ec(a.r3.y, s5) - mul_ec(a.r3.z, s4) + mul_ec(a.r3.w, s3), inv_det),
                w: mul_ci(-mul_ec(a.r2.y, s5) + mul_ec(a.r2.z, s4) - mul_ec(a.r2.w, s3), inv_det),
            },
            r1: Vec4 {
                x: mul_ci(-mul_ec(a.r1.x, c5) + mul_ec(a.r1.z, c2) - mul_ec(a.r1.w, c1), inv_det),
                y: mul_ci(mul_ec(a.r0.x, c5) - mul_ec(a.r0.z, c2) + mul_ec(a.r0.w, c1), inv_det),
                z: mul_ci(-mul_ec(a.r3.x, s5) + mul_ec(a.r3.z, s2) - mul_ec(a.r3.w, s1), inv_det),
                w: mul_ci(mul_ec(a.r2.x, s5) - mul_ec(a.r2.z, s2) + mul_ec(a.r2.w, s1), inv_det),
            },
            r2: Vec4 {
                x: mul_ci(mul_ec(a.r1.x, c4) - mul_ec(a.r1.y, c2) + mul_ec(a.r1.w, c0), inv_det),
                y: mul_ci(-mul_ec(a.r0.x, c4) + mul_ec(a.r0.y, c2) - mul_ec(a.r0.w, c0), inv_det),
                z: mul_ci(mul_ec(a.r3.x, s4) - mul_ec(a.r3.y, s2) + mul_ec(a.r3.w, s0), inv_det),
                w: mul_ci(-mul_ec(a.r2.x, s4) + mul_ec(a.r2.y, s2) - mul_ec(a.r2.w, s0), inv_det),
            },
            r3: Vec4 {
                x: mul_ci(-mul_ec(a.r1.x, c3) + mul_ec(a.r1.y, c1) - mul_ec(a.r1.z, c0), inv_det),
                y: mul_ci(mul_ec(a.r0.x, c3) - mul_ec(a.r0.y, c1) + mul_ec(a.r0.z, c0), inv_det),
                z: mul_ci(-mul_ec(a.r3.x, s3) + mul_ec(a.r3.y, s1) - mul_ec(a.r3.z, s0), inv_det),
                w: mul_ci(mul_ec(a.r2.x, s3) - mul_ec(a.r2.y, s1) + mul_ec(a.r2.z, s0), inv_det),
            },
        }
    }

    /// Applies the transpose of `inv` to a surface normal.
    pub fn transform_normal(n: &Vec3, inv: Matrix4x4) -> (r: Vec3)
        requires
            bounded_m4(inv@, 0x2000000000000000),
            crate::vec3::bounded(n@, 0x2000000000000000),
        ensures
            r@ == transform_normal_v(n@, inv@),
    {
        proof {
            lemma_normal_products(n@, inv@);
        }
        Vec3 {
            x: mul_fx(inv.r0.x, n.x) + mul_fx(inv.r1.x, n.y) + mul_fx(inv.r2.x, n.z),
            y: mul_fx(inv.r0.y, n.x) + mul_fx(inv.r1.y, n.y) + mul_fx(inv.r2.y, n.z),
            z: mul_fx(inv.r0.z, n.x) + mul_fx(inv.r1.z, n.y) + mul_fx(inv.r2.z, n.z),
        }
    }
}

/// A pure translation: the identity rotation part with an offset column.
pub open spec fn translation_v(tx: int, ty: int, tz: int) -> M4 {
    M4 {
        r0: V4 { x: ONE as int, y: 0, z: 0, w: tx },
        r1: V4 { x: 0, y: ONE as int, z: 0, w: ty },
        r2: V4 { x: 0, y: 0, z: ONE as int, w: tz },
        r3: V4 { x: 0, y: 0, z: 0, w: ONE as int },
    }
}

/// Fixed-point products with `ONE` and with zero are exact.
pub proof fn lemma_fmul_one(x: int)
    ensures
        fmul(x, ONE as int) == x,
        fmul(ONE as int, x) == x,
        fmul(x, 0) == 0,
        fmul(0, x) == 0,
{
    crate::fixed::lemma_tdiv_exact(x, ONE as int);
}

/// The computed inverse of a translation is exactly the opposite
/// translation: every product in the adjugate formula is exact here.
#[verifier::rlimit(100)]
pub proof fn lemma_translation_inverse(tx: int, ty: int, tz: int)
    ensures
        inverse_v(translation_v(tx, ty, tz)) == translation_v(-tx, -ty, -tz),
        det_v(translation_v(tx, ty, tz)) == ONE,
{
    let m: M4 = translation_v(tx, ty, tz);
    lemma_fmul_one(tx);
    lemma_fmul_one(ty);
    lemma_fmul_one(tz);
    lemma_fmul_one(-tx);
    lemma_fmul_one(-ty);
    lemma_fmul_one(-tz);
    lemma_fmul_one(ONE as int);
    lemma_fmul_one(0);
    assert(s0_v(m) == ONE);
    assert(s1_v(m) == 0);
    assert(s2_v(m) == ty);
    assert(s3_v(m) == 0);
    assert(s4_v(m) == -tx);
    assert(s5_v(m) == 0);
    assert(c5_v(m) == ONE);
    assert(c4_v(m) == 0);
    assert(c3_v(m) == 0);
    assert(c2_v(m) == 0);
    assert(c1_v(m) == 0);
    assert(c0_v(m) == 0);
    assert(det_v(m) == ONE);
    assert(inv_det_v(m) == ONE) by {
        crate::fixed::lemma_tdiv_exact(ONE as int, ONE as int);
    }
}

/// A translation moves a homogeneous point exactly: no product rounds.
pub proof fn lemma_translation_point(tx: int, ty: int, tz: int, p: V3)
    ensures
        crate::vec4::to_v3(mul_vec_v(translation_v(tx, ty, tz), crate::vec4::from_v3(p)))
            == crate::vec3::add_v(p, V3 { x: tx, y: ty, z: tz }),
{
    lemma_fmul_one(p.x);
    lemma_fmul_one(p.y);
    lemma_fmul_one(p.z);
    lemma_fmul_one(tx);
    lemma_fmul_one(ty);
    lemma_fmul_one(tz);
    lemma_fmul_one(ONE as int);
}

/// A translation leaves surface normals exactly unchanged: its rotation
/// part is the identity.
pub proof fn lemma_translation_normal(tx: int, ty: int, tz: int, n: V3)
    ensures
        transform_normal_v(n, translation_v(tx, ty, tz)) == n,
{
    lemma_fmul_one(n.x);
    lemma_fmul_one(n.y);
    lemma_fmul_one(n.z);
}

/// Bounds for the products formed while transforming a normal.
proof fn lemma_normal_products(n: V3, inv: M4)
    requires
        bounded_m4(inv, 0x2000000000000000),
        crate::vec3::bounded(n, 0x2000000000000000),
    ensures
        abs(inv.r0.x * n.x) <= 0x40000000000000000000000000000000,
        abs(inv.r1.x * n.y) <= 0x40000000000000000000000000000000,
        abs(inv.r2.x * n.z) <= 0x40000000000000000000000000000000,
        abs(inv.r0.y * n.x) <= 0x40000000000000000000000000000000,
        abs(inv.r1.y * n.y) <= 0x40000000000000000000000000000000,
        abs(inv.r2.y * n.z) <= 0x40000000000000000000000000000000,
        abs(inv.r0.z * n.x) <= 0x40000000000000000000000000000000,
        abs(inv.r1.z * n.y) <= 0x40000000000000000000000000000000,
        abs(inv.r2.z * n.z) <= 0x40000000000000000000000000000000,
        abs(fmul(inv.r0.x, n.x)) <= 0x40000000000000000000000000000000,
        abs(fmul(inv.r1.x, n.y)) <= 0x40000000000000000000000000000000,
        abs(fmul(inv.r2.x, n.z)) <= 0x40000000000000000000000000000000,
        abs(fmul(inv.r0.y, n.x)) <= 0x40000000000000000000000000000000,
        abs(fmul(inv.r1.y, n.y)) <= 0x40000000000000000000000000000000,
        abs(fmul(inv.r2.y, n.z)) <= 0x40000000000000000000000000000000,
        abs(fmul(inv.r0.z, n.x)) <= 0x40000000000000000000000000000000,
        abs(fmul(inv.r1.z, n.y)) <= 0x40000000000000000000000000000000,
        abs(fmul(inv.r2.z, n.z)) <= 0x40000000000000000000000000000000,
{
    let b: int = 0x2000000000000000;
    lemma_abs_mul_le(inv.r0.x, n.x, b, b);
    lemma_abs_mul_le(inv.r1.x, n.y, b, b);
    lemma_abs_mul_le(inv.r2.x, n.z, b, b);
    lemma_abs_mul_le(inv.r0.y, n.x, b, b);
    lemma_abs_mul_le(inv.r1.y, n.y, b, b);
    lemma_abs_mul_le(inv.r2.y, n.z, b, b);
    lemma_abs_mul_le(inv.r0.z, n.x, b, b);
    lemma_abs_mul_le(inv.r1.z, n.y, b, b);
    lemma_abs_mul_le(inv.r2.z, n.z, b, b);
    lemma_tdiv_bound(inv.r0.x * n.x, ONE as int);
    lemma_tdiv_bound(inv.r1.x * n.y, ONE as int);
    lemma_tdiv_bound(inv.r2.x * n.z, ONE as int);
    lemma_tdiv_bound(inv.r0.y * n.x, ONE as int);
    lemma_tdiv_bound(inv.r1.y * n.y, ONE as int);
    lemma_tdiv_bound(inv.r2.y * n.z, ONE as int);
    lemma_tdiv_bound(inv.r0.z * n.x, ONE as int);
    lemma_tdiv_bound(inv.r1.z * n.y, ONE as int);
    lemma_tdiv_bound(inv.r2.z * n.z, ONE as int);
}

} // verus!
