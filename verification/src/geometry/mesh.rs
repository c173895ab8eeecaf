//! Triangles, and meshes made of them.
//!
//! A triangle stores three vertices and three per-vertex normals.  The
//! normals are all the same for a flat triangle; they differ when a mesh
//! approximates a curved surface and wants interpolated shading.

use crate::fixed::{
    div_fx, div_fx_wide, fdiv, lemma_abs_mul_le, lemma_tdiv_neg, lemma_tdiv_quot_le,
    lemma_tdiv_signs, ONE,
};
use crate::intersection::{opt_hit_view, Intersection, IntersectionV};
use crate::matrix::{
    bounded_m4, inverse_v, mul_vec_v, transform_normal_v, Matrix4x4, M4, MAT_MAX,
};
use crate::ray::{ray_at, ray_contains, ray_wf, Ray, RayV, COORD_MAX};
use crate::vec3::{
    add_v, bounded, cross_raw, cross_v, dot_raw, is_zero, lemma_cross_ok, lemma_dot_ok, neg_v,
    scale_v, sub_v, unit_v, V3, Vec3,
};
use crate::transform::Transform;
use crate::vec4::{from_v3, to_v3, Vec4};
use vstd::math::abs;
use vstd::prelude::*;

verus! {

/// Bound on the components of a stored per-vertex normal.
pub const NORM_MAX: i128 = 0x100000;

/// Ghost image of a triangle.
pub struct TriV {
    pub v0: V3,
    pub v1: V3,
    pub v2: V3,
    pub n0: V3,
    pub n1: V3,
    pub n2: V3,
}

pub open spec fn tri_wf(t: TriV) -> bool {
    &&& bounded(t.v0, COORD_MAX as int)
    &&& bounded(t.v1, COORD_MAX as int)
    &&& bounded(t.v2, COORD_MAX as int)
    &&& bounded(t.n0, NORM_MAX as int)
    &&& bounded(t.n1, NORM_MAX as int)
    &&& bounded(t.n2, NORM_MAX as int)
}

/// `n / d` lies in `[0, 1]`, stated without division.
pub open spec fn frac_in_unit(n: int, d: int) -> bool {
    if d > 0 {
        0 <= n <= d
    } else {
        d <= n <= 0
    }
}

/// `n / d` is nonnegative.
pub open spec fn frac_nonneg(n: int, d: int) -> bool {
    if d > 0 {
        n >= 0
    } else {
        n <= 0
    }
}

/// `n / d` is at most one.
pub open spec fn frac_le_one(n: int, d: int) -> bool {
    if d > 0 {
        n <= d
    } else {
        n >= d
    }
}

/// A flat triangle as built by `Triangle::new`: all three normals are the
/// normalized cross product of the two edges.
pub open spec fn tri_new(v0: V3, v1: V3, v2: V3) -> TriV {
    let n: V3 = unit_v(cross_v(sub_v(v1, v0), sub_v(v2, v0)));
    TriV { v0, v1, v2, n0: n, n1: n, n2: n }
}

/// The hit of a ray against a triangle, by the Moeller-Trumbore test.
/// The barycentric tests compare exact integers, so rejection at the
/// edges is exact; the hit parameter and the interpolated normal each
/// round once.
pub open spec fn triangle_hit(tr: TriV, r: RayV) -> Option<IntersectionV> {
    let e1: V3 = sub_v(tr.v1, tr.v0);
    let e2: V3 = sub_v(tr.v2, tr.v0);
    let p: V3 = cross_raw(r.direction, e2);
    let det: int = dot_raw(e1, p);
    if det == 0 {
        None
    } else {
        let s: V3 = sub_v(r.origin, tr.v0);
        let bn: int = dot_raw(s, p);
        if !frac_in_unit(bn, det) {
            None
        } else {
            let q: V3 = cross_raw(s, e1);
            let gn: int = dot_raw(r.direction, q);
            if !frac_nonneg(gn, det) || !frac_le_one(bn + gn, det) {
                None
            } else {
                let t: int = fdiv(dot_raw(e2, q), det);
                if ray_contains(r, t) {
                    let beta: int = fdiv(bn, det);
                    let gamma: int = fdiv(gn, det);
                    let alpha: int = (ONE as int) - beta - gamma;
                    let n: V3 = add_v(
                        add_v(scale_v(tr.n0, alpha), scale_v(tr.n1, beta)),
                        scale_v(tr.n2, gamma),
                    );
                    Some(IntersectionV { t, point: ray_at(r, t), normal: n })
                } else {
                    None
                }
            }
        }
    }
}

/// The transformed triangle: vertices as homogeneous points, normals by
/// the inverse-transpose convention.
pub open spec fn tri_transform(t: TriV, m: M4) -> TriV {
    TriV {
        v0: to_v3(mul_vec_v(m, from_v3(t.v0))),
        v1: to_v3(mul_vec_v(m, from_v3(t.v1))),
        v2: to_v3(mul_vec_v(m, from_v3(t.v2))),
        n0: transform_normal_v(t.n0, inverse_v(m)),
        n1: transform_normal_v(t.n1, inverse_v(m)),
        n2: transform_normal_v(t.n2, inverse_v(m)),
    }
}

pub open spec fn tri_in_transform_range(t: TriV) -> bool {
    &&& bounded(t.v0, 0x4000000000000000)
    &&& bounded(t.v1, 0x4000000000000000)
    &&& bounded(t.v2, 0x4000000000000000)
    &&& bounded(t.n0, 0x2000000000000000)
    &&& bounded(t.n1, 0x2000000000000000)
    &&& bounded(t.n2, 0x2000000000000000)
}

/// A triangle, with one normal for each vertex.
#[derive(Copy, Clone, Debug, PartialEq, Eq, Structural)]
pub struct Triangle {
    pub v0: Vec3,
    pub v1: Vec3,
    pub v2: Vec3,
    pub n0: Vec3,
    pub n1: Vec3,
    pub n2: Vec3,
}

impl View for Triangle {
    type V = TriV;

    open spec fn view(&self) -> TriV {
        TriV { v0: self.v0@, v1: self.v1@, v2: self.v2@, n0: self.n0@, n1: self.n1@, n2: self.n2@ }
    }
}

impl Triangle {
    /// A flat triangle: every vertex normal is the normalized cross
    /// product of the two edges.  The vertices must not be collinear, or
    /// there is no normal to normalize.
    pub fn new(vertices: [Vec3; 3]) -> (r: Triangle)
        requires
            bounded(vertices[0]@, 0x2000000000),
            bounded(vertices[1]@, 0x2000000000),
            bounded(vertices[2]@, 0x2000000000),
            !is_zero(
                cross_v(sub_v(vertices[1]@, vertices[0]@), sub_v(vertices[2]@, vertices[0]@)),
            ),
        ensures
            r@ == tri_new(vertices[0]@, vertices[1]@, vertices[2]@),
            tri_wf(r@),
    {
        let e1: Vec3 = vertices[1].sub(&vertices[0]);
        let e2: Vec3 = vertices[2].sub(&vertices[0]);
        proof {
            lemma_cross_ok(e1@, e2@, 0x4000000000, 0x4000000000);
        }
        let c: Vec3 = e1.cross(&e2);
        proof {
            lemma_dot_ok(c@, c@, 0x2000000000000000, 0x2000000000000000);
            lemma_abs_mul_le(c@.x, ONE as int, 0x2000000000000000, ONE as int);
            lemma_abs_mul_le(c@.y, ONE as int, 0x2000000000000000, ONE as int);
            lemma_abs_mul_le(c@.z, ONE as int, 0x2000000000000000, ONE as int);
        }
        let n: Vec3 = c.unit();
        Triangle { v0: vertices[0], v1: vertices[1], v2: vertices[2], n0: n, n1: n, n2: n }
    }

    /// Replaces the per-vertex normals, for interpolated shading.
    pub fn with_normals(self, normals: [Vec3; 3]) -> (r: Triangle)
        ensures
            r.v0 == self.v0 && r.v1 == self.v1 && r.v2 == self.v2,
            r@.n0 == normals[0]@ && r@.n1 == normals[1]@ && r@.n2 == normals[2]@,
    {
        Triangle { n0: normals[0], n1: normals[1], n2: normals[2], ..self }
    }

    /// The Moeller-Trumbore intersection test.
    #[verifier::rlimit(100)]
    pub fn intersection(&self, ray: &Ray) -> (r: Option<Intersection>)
        requires
            tri_wf(self@),
            ray_wf(ray@),
        ensures
            opt_hit_view(r) == triangle_hit(self@, ray@),
    {
        let d: Vec3 = ray.direction();
        let o: Vec3 = ray.origin();
        let e1: Vec3 = self.v1.sub(&self.v0);
        let e2: Vec3 = self.v2.sub(&self.v0);
        proof {
            lemma_cross_ok(d@, e2@, 0x40000, 0x8000000000);
            lemma_dot_ok(e1@, cross_raw(d@, e2@), 0x8000000000, 0x400000000000000);
        }
        let p: Vec3 = d.cross_wide(&e2);
        let det: i128 = e1.dot_wide(&p);
        // A zero determinant means the ray lies in the triangle's plane.
        if det == 0 {
            return None;
        }
        let s: Vec3 = o.sub(&self.v0);
        proof {
            lemma_dot_ok(s@, p@, 0x20000000000, 0x400000000000000);
        }
        let bn: i128 = s.dot_wide(&p);
        let beta_ok: bool = if det > 0 {
            0 <= bn && bn <= det
        } else {
            det <= bn && bn <= 0
        };
        if !beta_ok {
            return None;
        }
        proof {
            lemma_cross_ok(s@, e1@, 0x20000000000, 0x8000000000);
            lemma_dot_ok(d@, cross_raw(s@, e1@), 0x40000, 0x200000000000000000000);
            lemma_dot_ok(e2@, cross_raw(s@, e1@), 0x8000000000, 0x200000000000000000000);
        }
        let q: Vec3 = s.cross_wide(&e1);
        let gn: i128 = d.dot_wide(&q);
        let gamma_ok: bool = if det > 0 {
            gn >= 0 && bn + gn <= det
        } else {
            gn <= 0 && bn + gn >= det
        };
        if !gamma_ok {
            return None;
        }
        let tn: i128 = e2.dot_wide(&q);
        let t: i128 = match div_fx_wide(tn, det) {
            Some(t) => t,
            None => {
                // The quotient lies far outside every valid interval.
                return None;
            },
        };
        if ray.contains(t) {
            proof {
                lemma_abs_mul_le(bn as int, ONE as int, 0x200000000000000000000000000, ONE as int);
                lemma_abs_mul_le(gn as int, ONE as int, 0x200000000000000000000000000, ONE as int);
            }
            let beta: i128 = div_fx(bn, det);
            let gamma: i128 = div_fx(gn, det);
            proof {
                lemma_bary(bn as int, gn as int, det as int);
            }
            let alpha: i128 = ONE - beta - gamma;
            proof {
                lemma_scale_fits(self@.n0, alpha as int);
                lemma_scale_fits(self@.n1, beta as int);
                lemma_scale_fits(self@.n2, gamma as int);
            }
            // Interpolate the per-vertex normals at the hit.
            let n: Vec3 = self.n0.scale(alpha).add(&self.n1.scale(beta)).add(
                &self.n2.scale(gamma),
            );
            Some(Intersection { t, normal: n, point: ray.offset(t) })
        } else {
            None
        }
    }

    /// Runtime check of `tri_wf`.
    pub fn is_wf(&self) -> (b: bool)
        ensures
            b == tri_wf(self@),
    {
        in_coord_range(&self.v0) && in_coord_range(&self.v1) && in_coord_range(&self.v2)
            && in_norm_range(&self.n0) && in_norm_range(&self.n1) && in_norm_range(&self.n2)
    }
}

impl crate::transform::Transform for Triangle {
    open spec fn transform_pre(&self, m: M4) -> bool {
        &&& bounded_m4(m, MAT_MAX as int)
        &&& crate::matrix::det_v(m) != 0
        &&& bounded_m4(inverse_v(m), 0x2000000000000000)
        &&& tri_in_transform_range(self@)
    }

    open spec fn transform_view(&self, m: M4) -> TriV {
        tri_transform(self@, m)
    }

    /// Applies the transform to the vertices, and the inverse-transpose
    /// to the normals.
    fn transform(&mut self, transformation: &Matrix4x4) {
        self.v0 = transformation.mul_vec(&Vec4::from_vec3(&self.v0)).to_vec3();
        self.v1 = transformation.mul_vec(&Vec4::from_vec3(&self.v1)).to_vec3();
        self.v2 = transformation.mul_vec(&Vec4::from_vec3(&self.v2)).to_vec3();
        let inverse: Matrix4x4 = transformation.inverse();
        self.n0 = Matrix4x4::transform_normal(&self.n0, inverse);
        self.n1 = Matrix4x4::transform_normal(&self.n1, inverse);
        self.n2 = Matrix4x4::transform_normal(&self.n2, inverse);
    }
}

fn in_coord_range(v: &Vec3) -> (b: bool)
    ensures
        b == bounded(v@, COORD_MAX as int),
{
    v.x >= -COORD_MAX && v.x <= COORD_MAX && v.y >= -COORD_MAX && v.y <= COORD_MAX && v.z
        >= -COORD_MAX && v.z <= COORD_MAX
}

fn in_norm_range(v: &Vec3) -> (b: bool)
    ensures
        b == bounded(v@, NORM_MAX as int),
{
    v.x >= -NORM_MAX && v.x <= NORM_MAX && v.y >= -NORM_MAX && v.y <= NORM_MAX && v.z >= -NORM_MAX
        && v.z <= NORM_MAX
}

/// Barycentric quotients of an accepted hit lie in `[0, ONE]`, and the
/// two that are computed sum to at most `ONE`.
proof fn lemma_bary(bn: int, gn: int, det: int)
    requires
        det != 0,
        frac_in_unit(bn, det),
        frac_nonneg(gn, det),
        frac_le_one(bn + gn, det),
    ensures
        0 <= fdiv(bn, det) <= ONE,
        0 <= fdiv(gn, det) <= ONE,
        fdiv(bn, det) + fdiv(gn, det) <= ONE,
{
    let b2: int = if det > 0 {
        bn
    } else {
        -bn
    };
    let g2: int = if det > 0 {
        gn
    } else {
        -gn
    };
    let d2: int = if det > 0 {
        det
    } else {
        -det
    };
    lemma_tdiv_neg(bn * (ONE as int), det);
    lemma_tdiv_neg(gn * (ONE as int), det);
    assert((-bn) * (ONE as int) == -(bn * (ONE as int)));
    assert((-gn) * (ONE as int) == -(gn * (ONE as int)));
    assert(fdiv(bn, det) == fdiv(b2, d2));
    assert(fdiv(gn, det) == fdiv(g2, d2));
    assert(0 <= b2 <= d2 && 0 <= g2 && b2 + g2 <= d2);
    let beta: int = fdiv(b2, d2);
    let gamma: int = fdiv(g2, d2);
    lemma_tdiv_signs(b2 * (ONE as int), d2);
    lemma_tdiv_signs(g2 * (ONE as int), d2);
    assert(b2 * (ONE as int) >= 0) by (nonlinear_arith)
        requires
            b2 >= 0,
    ;
    assert(g2 * (ONE as int) >= 0) by (nonlinear_arith)
        requires
            g2 >= 0,
    ;
    assert(beta >= 0 && gamma >= 0);
    assert(abs(b2 * (ONE as int)) <= (ONE as int) * abs(d2)) by (nonlinear_arith)
        requires
            0 <= b2 <= d2,
    ;
    assert(abs(g2 * (ONE as int)) <= (ONE as int) * abs(d2)) by (nonlinear_arith)
        requires
            0 <= g2 <= d2,
    ;
    lemma_tdiv_quot_le(b2 * (ONE as int), d2, ONE as int);
    lemma_tdiv_quot_le(g2 * (ONE as int), d2, ONE as int);
    // The truncated quotients sum below the exact one.
    crate::fixed::lemma_trem_nonneg(b2 * (ONE as int), d2);
    crate::fixed::lemma_trem_nonneg(g2 * (ONE as int), d2);
    assert(beta * d2 <= b2 * (ONE as int)) by (nonlinear_arith)
        requires
            d2 > 0,
            b2 * (ONE as int) >= 0,
            b2 * (ONE as int) - beta * d2 >= 0,
    ;
    assert(gamma * d2 <= g2 * (ONE as int)) by (nonlinear_arith)
        requires
            d2 > 0,
            g2 * (ONE as int) >= 0,
            g2 * (ONE as int) - gamma * d2 >= 0,
    ;
    assert(beta + gamma <= ONE) by (nonlinear_arith)
        requires
            d2 > 0,
            beta * d2 <= b2 * (ONE as int),
            gamma * d2 <= g2 * (ONE as int),
            b2 + g2 <= d2,
    ;
}

/// A bounded normal scaled by a factor of magnitude at most `ONE` stays
/// small.
proof fn lemma_scale_fits(n: V3, k: int)
    requires
        bounded(n, NORM_MAX as int),
        abs(k) <= ONE,
    ensures
        crate::vec3::fits(n.x * k),
        crate::vec3::fits(n.y * k),
        crate::vec3::fits(n.z * k),
        bounded(scale_v(n, k), 0x1000000000),
{
    lemma_abs_mul_le(n.x, k, NORM_MAX as int, ONE as int);
    lemma_abs_mul_le(n.y, k, NORM_MAX as int, ONE as int);
    lemma_abs_mul_le(n.z, k, NORM_MAX as int, ONE as int);
    crate::fixed::lemma_tdiv_bound(n.x * k, ONE as int);
    crate::fixed::lemma_tdiv_bound(n.y * k, ONE as int);
    crate::fixed::lemma_tdiv_bound(n.z * k, ONE as int);
}

/// A triangle hit lies inside the ray's interval, and its point and
/// interpolated normal are bounded.
pub proof fn lemma_triangle_hit_bounds(tr: TriV, r: RayV)
    requires
        tri_wf(tr),
        ray_wf(r),
    ensures
        match triangle_hit(tr, r) {
            Some(h) => ray_contains(r, h.t) && h.point == ray_at(r, h.t) && bounded(
                h.point,
                0x80000000000,
            ) && bounded(h.normal, COORD_MAX as int),
            None => true,
        },
{
    if triangle_hit(tr, r) is Some {
        let h: IntersectionV = triangle_hit(tr, r)->Some_0;
        crate::ray::lemma_ray_at_bounded(r, h.t);
        let e1: V3 = sub_v(tr.v1, tr.v0);
        let e2: V3 = sub_v(tr.v2, tr.v0);
        let p: V3 = cross_raw(r.direction, e2);
        let det: int = dot_raw(e1, p);
        let s: V3 = sub_v(r.origin, tr.v0);
        let bn: int = dot_raw(s, p);
        let q: V3 = cross_raw(s, e1);
        let gn: int = dot_raw(r.direction, q);
        lemma_bary(bn, gn, det);
        let beta: int = fdiv(bn, det);
        let gamma: int = fdiv(gn, det);
        let alpha: int = (ONE as int) - beta - gamma;
        lemma_scale_fits(tr.n0, alpha);
        lemma_scale_fits(tr.n1, beta);
        lemma_scale_fits(tr.n2, gamma);
    }
}

/// Any mesh hit lies inside the ray's interval, whatever the mesh holds.
pub proof fn lemma_mesh_hit_contained(m: MeshV, r: RayV)
    ensures
        mesh_hit(m, r) matches Some(h) ==> ray_contains(r, h.t),
{
    lemma_mesh_hit_upto_contained(m, r, m.len() as int);
}

proof fn lemma_mesh_hit_upto_contained(m: MeshV, r: RayV, n: int)
    ensures
        mesh_hit_upto(m, r, n) matches Some(h) ==> ray_contains(r, h.t),
    decreases n,
{
    if n > 0 {
        lemma_mesh_hit_upto_contained(m, r, n - 1);
    }
}

/// A mesh hit lies inside the ray's interval, and its point and normal
/// are bounded.
pub proof fn lemma_mesh_hit_bounds(m: MeshV, r: RayV)
    requires
        mesh_wf(m),
        ray_wf(r),
    ensures
        match mesh_hit(m, r) {
            Some(h) => ray_contains(r, h.t) && bounded(h.point, 0x80000000000) && bounded(
                h.normal,
                COORD_MAX as int,
            ),
            None => true,
        },
{
    lemma_mesh_hit_upto_bounds(m, r, m.len() as int);
}

proof fn lemma_mesh_hit_upto_bounds(m: MeshV, r: RayV, n: int)
    requires
        mesh_wf(m),
        ray_wf(r),
        n <= m.len(),
    ensures
        match mesh_hit_upto(m, r, n) {
            Some(h) => ray_contains(r, h.t) && bounded(h.point, 0x80000000000) && bounded(
                h.normal,
                COORD_MAX as int,
            ),
            None => true,
        },
    decreases n,
{
    if n > 0 {
        lemma_mesh_hit_upto_bounds(m, r, n - 1);
        lemma_triangle_hit_bounds(m[n - 1], r);
    }
}

/// A scalar triple product expanded into its six monomials.
proof fn lemma_triple_expand(a: V3, b: V3, c: V3)
    ensures
        dot_raw(a, cross_raw(b, c)) == a.x * (b.y * c.z) - a.x * (b.z * c.y) + a.y * (b.z * c.x)
            - a.y * (b.x * c.z) + a.z * (b.x * c.y) - a.z * (b.y * c.x),
{
    assert(a.x * (b.y * c.z - b.z * c.y) == a.x * (b.y * c.z) - a.x * (b.z * c.y))
        by (nonlinear_arith);
    assert(a.y * (b.z * c.x - b.x * c.z) == a.y * (b.z * c.x) - a.y * (b.x * c.z))
        by (nonlinear_arith);
    assert(a.z * (b.x * c.y - b.y * c.x) == a.z * (b.x * c.y) - a.z * (b.y * c.x))
        by (nonlinear_arith);
}

/// Scalar triple products change sign when the two outer vectors swap.
proof fn lemma_triple_swap_outer(a: V3, b: V3, c: V3)
    ensures
        dot_raw(a, cross_raw(b, c)) == -dot_raw(c, cross_raw(b, a)),
{
    lemma_triple_expand(a, b, c);
    lemma_triple_expand(c, b, a);
    assert(a.x * (b.y * c.z) == c.z * (b.y * a.x)) by (nonlinear_arith);
    assert(a.x * (b.z * c.y) == c.y * (b.z * a.x)) by (nonlinear_arith);
    assert(a.y * (b.z * c.x) == c.x * (b.z * a.y)) by (nonlinear_arith);
    assert(a.y * (b.x * c.z) == c.z * (b.x * a.y)) by (nonlinear_arith);
    assert(a.z * (b.x * c.y) == c.y * (b.x * a.z)) by (nonlinear_arith);
    assert(a.z * (b.y * c.x) == c.x * (b.y * a.z)) by (nonlinear_arith);
}

/// Scalar triple products change sign when the first two vectors swap.
proof fn lemma_triple_swap_first(a: V3, b: V3, c: V3)
    ensures
        dot_raw(a, cross_raw(b, c)) == -dot_raw(b, cross_raw(a, c)),
{
    lemma_triple_expand(a, b, c);
    lemma_triple_expand(b, a, c);
    assert(a.x * (b.y * c.z) == b.y * (a.x * c.z)) by (nonlinear_arith);
    assert(a.x * (b.z * c.y) == b.z * (a.x * c.y)) by (nonlinear_arith);
    assert(a.y * (b.z * c.x) == b.z * (a.y * c.x)) by (nonlinear_arith);
    assert(a.y * (b.x * c.z) == b.x * (a.y * c.z)) by (nonlinear_arith);
    assert(a.z * (b.x * c.y) == b.x * (a.z * c.y)) by (nonlinear_arith);
    assert(a.z * (b.y * c.x) == b.y * (a.z * c.x)) by (nonlinear_arith);
}

/// The cross product changes sign when its arguments swap.
proof fn lemma_cross_v_antisym(a: V3, b: V3)
    ensures
        cross_v(b, a) == neg_v(cross_v(a, b)),
{
    assert(b.y * a.z - b.z * a.y == -(a.y * b.z - a.z * b.y)) by (nonlinear_arith);
    assert(b.z * a.x - b.x * a.z == -(a.z * b.x - a.x * b.z)) by (nonlinear_arith);
    assert(b.x * a.y - b.y * a.x == -(a.x * b.y - a.y * b.x)) by (nonlinear_arith);
    lemma_tdiv_neg(a.y * b.z - a.z * b.y, ONE as int);
    lemma_tdiv_neg(a.z * b.x - a.x * b.z, ONE as int);
    lemma_tdiv_neg(a.x * b.y - a.y * b.x, ONE as int);
}

/// Normalizing the opposite vector gives the opposite unit vector.
proof fn lemma_unit_neg(c: V3)
    requires
        !is_zero(c),
    ensures
        unit_v(neg_v(c)) == neg_v(unit_v(c)),
{
    let m: V3 = neg_v(c);
    assert(dot_raw(m, m) == dot_raw(c, c)) by (nonlinear_arith)
        requires
            m.x == -c.x && m.y == -c.y && m.z == -c.z,
    ;
    crate::vec3::lemma_unit_bounds(c);
    assert((-c.x) * (ONE as int) == -(c.x * (ONE as int))) by (nonlinear_arith);
    assert((-c.y) * (ONE as int) == -(c.y * (ONE as int))) by (nonlinear_arith);
    assert((-c.z) * (ONE as int) == -(c.z * (ONE as int))) by (nonlinear_arith);
    lemma_tdiv_neg(c.x * (ONE as int), crate::vec3::len_v(c));
    lemma_tdiv_neg(c.y * (ONE as int), crate::vec3::len_v(c));
    lemma_tdiv_neg(c.z * (ONE as int), crate::vec3::len_v(c));
}

/// Scaling the opposite vector gives the opposite scaled vector.
proof fn lemma_scale_neg(n: V3, k: int)
    ensures
        scale_v(neg_v(n), k) == neg_v(scale_v(n, k)),
{
    assert((-n.x) * k == -(n.x * k)) by (nonlinear_arith);
    assert((-n.y) * k == -(n.y * k)) by (nonlinear_arith);
    assert((-n.z) * k == -(n.z * k)) by (nonlinear_arith);
    lemma_tdiv_neg(n.x * k, ONE as int);
    lemma_tdiv_neg(n.y * k, ONE as int);
    lemma_tdiv_neg(n.z * k, ONE as int);
}

/// Reversing the winding of a flat triangle changes nothing but the sign
/// of its normal: the same rays hit, at the same parameter and point,
/// and the reported normal is exactly negated.
pub proof fn lemma_winding_flip(v0: V3, v1: V3, v2: V3, r: RayV)
    requires
        !is_zero(cross_v(sub_v(v1, v0), sub_v(v2, v0))),
    ensures
        (triangle_hit(tri_new(v0, v1, v2), r) is Some) == (triangle_hit(
            tri_new(v0, v2, v1),
            r,
        ) is Some),
        match (triangle_hit(tri_new(v0, v1, v2), r), triangle_hit(tri_new(v0, v2, v1), r)) {
            (Some(h1), Some(h2)) => h2.t == h1.t && h2.point == h1.point && h2.normal == neg_v(
                h1.normal,
            ),
            _ => true,
        },
{
    let e1: V3 = sub_v(v1, v0);
    let e2: V3 = sub_v(v2, v0);
    let d: V3 = r.direction;
    let s: V3 = sub_v(r.origin, v0);
    let det1: int = dot_raw(e1, cross_raw(d, e2));
    let det2: int = dot_raw(e2, cross_raw(d, e1));
    lemma_triple_swap_outer(e1, d, e2);
    assert(det2 == -det1);
    // The flat normals of the two windings are exact opposites.
    let c: V3 = cross_v(e1, e2);
    lemma_cross_v_antisym(e1, e2);
    lemma_unit_neg(c);
    let n1: V3 = unit_v(c);
    assert(tri_new(v0, v2, v1).n0 == neg_v(n1));
    if det1 != 0 {
        let bn1: int = dot_raw(s, cross_raw(d, e2));
        let gn1: int = dot_raw(d, cross_raw(s, e1));
        let bn2: int = dot_raw(s, cross_raw(d, e1));
        let gn2: int = dot_raw(d, cross_raw(s, e2));
        lemma_triple_swap_first(s, d, e1);
        lemma_triple_swap_first(d, s, e2);
        assert(bn2 == -gn1);
        assert(gn2 == -bn1);
        // Acceptance is symmetric: both windings keep exactly the hits
        // with both barycentric quotients nonnegative and summing below
        // one.
        let accept1: bool = frac_in_unit(bn1, det1) && frac_nonneg(gn1, det1) && frac_le_one(
            bn1 + gn1,
            det1,
        );
        let accept2: bool = frac_in_unit(bn2, det2) && frac_nonneg(gn2, det2) && frac_le_one(
            bn2 + gn2,
            det2,
        );
        assert(accept1 == accept2);
        if accept1 {
            let tn1: int = dot_raw(e2, cross_raw(s, e1));
            let tn2: int = dot_raw(e1, cross_raw(s, e2));
            lemma_triple_swap_outer(e2, s, e1);
            assert(tn2 == -tn1);
            assert((-tn1) * (ONE as int) == -(tn1 * (ONE as int))) by (nonlinear_arith);
            lemma_tdiv_neg(tn1 * (ONE as int), det1);
            assert(fdiv(tn2, det2) == fdiv(tn1, det1));
            let t: int = fdiv(tn1, det1);
            if ray_contains(r, t) {
                assert((-gn1) * (ONE as int) == -(gn1 * (ONE as int))) by (nonlinear_arith);
                assert((-bn1) * (ONE as int) == -(bn1 * (ONE as int))) by (nonlinear_arith);
                lemma_tdiv_neg(bn1 * (ONE as int), det1);
                lemma_tdiv_neg(gn1 * (ONE as int), det1);
                let beta1: int = fdiv(bn1, det1);
                let gamma1: int = fdiv(gn1, det1);
                assert(fdiv(bn2, det2) == gamma1);
                assert(fdiv(gn2, det2) == beta1);
                let alpha1: int = (ONE as int) - beta1 - gamma1;
                lemma_scale_neg(n1, alpha1);
                lemma_scale_neg(n1, beta1);
                lemma_scale_neg(n1, gamma1);
            }
        }
    }
}

/// Ghost image of a mesh: the sequence of its triangles.
pub type MeshV = Seq<TriV>;

pub open spec fn mesh_wf(m: MeshV) -> bool {
    forall|i: int| 0 <= i < m.len() ==> tri_wf(#[trigger] m[i])
}

/// One step of the closest-hit fold: a new candidate replaces the best
/// hit so far when it is valid and strictly nearer.
pub open spec fn hit_step(prev: Option<IntersectionV>, cur: Option<IntersectionV>, r: RayV)
    -> Option<IntersectionV> {
    match cur {
        Some(c) => match prev {
            Some(pi) => if c.t < pi.t && ray_contains(r, c.t) {
                Some(c)
            } else {
                prev
            },
            None => if ray_contains(r, c.t) {
                Some(c)
            } else {
                prev
            },
        },
        None => prev,
    }
}

/// The closest hit among the first `n` triangles, first-encountered
/// winning ties.
pub open spec fn mesh_hit_upto(m: MeshV, r: RayV, n: int) -> Option<IntersectionV>
    decreases n,
{
    if n <= 0 {
        None
    } else {
        hit_step(mesh_hit_upto(m, r, n - 1), triangle_hit(m[n - 1], r), r)
    }
}

/// The minimum-`t` hit over all triangles of the mesh.  An empty mesh
/// reports no hit.
pub open spec fn mesh_hit(m: MeshV, r: RayV) -> Option<IntersectionV> {
    mesh_hit_upto(m, r, m.len() as int)
}

/// What the mesh fold returns: the hit of one of its triangles, with no
/// triangle hitting strictly closer; nothing only when no triangle hits.
pub proof fn lemma_mesh_hit_characterization(m: MeshV, r: RayV)
    ensures
        match mesh_hit(m, r) {
            Some(h) => (exists|i: int|
                0 <= i < m.len() && #[trigger] triangle_hit(m[i], r) == Some(h)) && forall|j: int|
                0 <= j < m.len() ==> match #[trigger] triangle_hit(m[j], r) {
                    Some(hj) => hj.t >= h.t,
                    None => true,
                },
            None => forall|j: int| 0 <= j < m.len() ==> #[trigger] triangle_hit(m[j], r) is None,
        },
{
    lemma_mesh_hit_upto_characterization(m, r, m.len() as int);
}

proof fn lemma_mesh_hit_upto_characterization(m: MeshV, r: RayV, n: int)
    requires
        n <= m.len(),
    ensures
        match mesh_hit_upto(m, r, n) {
            Some(h) => (exists|i: int|
                0 <= i < n && #[trigger] triangle_hit(m[i], r) == Some(h)) && forall|j: int|
                0 <= j < n ==> match #[trigger] triangle_hit(m[j], r) {
                    Some(hj) => hj.t >= h.t,
                    None => true,
                },
            None => forall|j: int| 0 <= j < n ==> #[trigger] triangle_hit(m[j], r) is None,
        },
    decreases n,
{
    if n > 0 {
        lemma_mesh_hit_upto_characterization(m, r, n - 1);
        lemma_triangle_hit_contained(m[n - 1], r);
        let prev: Option<IntersectionV> = mesh_hit_upto(m, r, n - 1);
        match mesh_hit_upto(m, r, n) {
            Some(h) => {
                if triangle_hit(m[n - 1], r) == Some(h) {
                    assert(0 <= n - 1 < n && triangle_hit(m[n - 1], r) == Some(h));
                } else {
                    let wi: int = choose|i: int|
                        0 <= i < n - 1 && #[trigger] triangle_hit(m[i], r) == Some(
                            prev->Some_0,
                        );
                    assert(0 <= wi < n && triangle_hit(m[wi], r) == Some(h));
                }
            },
            None => {},
        }
    }
}

/// Any triangle hit lies inside the ray's interval: the test checks the
/// interval before it reports.
proof fn lemma_triangle_hit_contained(tr: TriV, r: RayV)
    ensures
        triangle_hit(tr, r) matches Some(h) ==> ray_contains(r, h.t),
{
}

pub open spec fn mesh_transform(m: MeshV, t: M4) -> MeshV {
    m.map_values(|tr: TriV| tri_transform(tr, t))
}

pub open spec fn mesh_in_transform_range(m: MeshV) -> bool {
    forall|i: int| 0 <= i < m.len() ==> tri_in_transform_range(#[trigger] m[i])
}

/// A mesh: an ordered collection of triangles forming one object.
#[derive(Clone, Debug)]
pub struct Mesh {
    pub triangles: Vec<Triangle>,
}

impl View for Mesh {
    type V = MeshV;

    open spec fn view(&self) -> MeshV {
        self.triangles@.map_values(|t: Triangle| t@)
    }
}

impl Mesh {
    /// Builds a mesh from ready-made triangles.
    pub fn new(triangles: Vec<Triangle>) -> (r: Mesh)
        ensures
            r.triangles == triangles,
    {
        Mesh { triangles }
    }

    /// The minimum-`t` intersection over the constituent triangles.
    pub fn intersection(&self, ray: &Ray) -> (r: Option<Intersection>)
        requires
            mesh_wf(self@),
            ray_wf(ray@),
        ensures
            opt_hit_view(r) == mesh_hit(self@, ray@),
            // The returned hit is one of the triangles' hits, and no
            // triangle hits strictly closer; an empty mesh reports
            // nothing.
            r matches Some(h) ==> (exists|i: int|
                0 <= i < self@.len() && #[trigger] triangle_hit(self@[i], ray@) == Some(h@))
                && forall|j: int|
                0 <= j < self@.len() ==> match #[trigger] triangle_hit(self@[j], ray@) {
                    Some(hj) => hj.t >= h@.t,
                    None => true,
                },
            r is None ==> forall|j: int|
                0 <= j < self@.len() ==> #[trigger] triangle_hit(self@[j], ray@) is None,
    {
        proof {
            lemma_mesh_hit_characterization(self@, ray@);
        }
        let mut closest: Option<Intersection> = None;
        let mut idx: usize = 0;
        while idx < self.triangles.len()
            invariant
                idx <= self.triangles.len(),
                self@.len() == self.triangles.len(),
                mesh_wf(self@),
                ray_wf(ray@),
                opt_hit_view(closest) == mesh_hit_upto(self@, ray@, idx as int),
            decreases self.triangles.len() - idx,
        {
            proof {
                assert(self@[idx as int] == self.triangles@[idx as int]@);
            }
            let tri: &Triangle = &self.triangles[idx];
            if let Some(intr) = tri.intersection(ray) {
                let better: bool = match &closest {
                    Option::None => true,
                    Option::Some(c) => intr.t < c.t,
                };
                if better && ray.contains(intr.t) {
                    closest = Some(intr);
                }
            }
            idx = idx + 1;
        }
        closest
    }

    /// Runtime check of `mesh_wf`.
    pub fn is_wf(&self) -> (b: bool)
        ensures
            b == mesh_wf(self@),
    {
        let mut idx: usize = 0;
        while idx < self.triangles.len()
            invariant
                idx <= self.triangles.len(),
                self@.len() == self.triangles.len(),
                forall|j: int| 0 <= j < idx ==> tri_wf(#[trigger] self@[j]),
            decreases self.triangles.len() - idx,
        {
            proof {
                assert(self@[idx as int] == self.triangles@[idx as int]@);
            }
            if !self.triangles[idx].is_wf() {
                return false;
            }
            idx = idx + 1;
        }
        true
    }
}

impl crate::transform::Transform for Mesh {
    open spec fn transform_pre(&self, m: M4) -> bool {
        &&& bounded_m4(m, MAT_MAX as int)
        &&& crate::matrix::det_v(m) != 0
        &&& bounded_m4(inverse_v(m), 0x2000000000000000)
        &&& mesh_in_transform_range(self@)
    }

    open spec fn transform_view(&self, m: M4) -> MeshV {
        mesh_transform(self@, m)
    }

    /// Applies the transform to every triangle, building the new list
    /// aside and swapping it in.
    fn transform(&mut self, transformation: &Matrix4x4) {
        let mut out: Vec<Triangle> = Vec::new();
        let mut idx: usize = 0;
        while idx < self.triangles.len()
            invariant
                idx <= self.triangles.len(),
                self == old(self),
                self@.len() == self.triangles.len(),
                mesh_in_transform_range(self@),
                bounded_m4(transformation@, MAT_MAX as int),
                crate::matrix::det_v(transformation@) != 0,
                bounded_m4(inverse_v(transformation@), 0x2000000000000000),
                out@.len() == idx,
                forall|j: int|
                    0 <= j < idx ==> (#[trigger] out@[j])@ == tri_transform(
                        self@[j],
                        transformation@,
                    ),
            decreases self.triangles.len() - idx,
        {
            proof {
                assert(self@[idx as int] == self.triangles@[idx as int]@);
            }
            let mut tri: Triangle = self.triangles[idx];
            tri.transform(transformation);
            out.push(tri);
            idx = idx + 1;
        }
        proof {
            assert(out@.map_values(|t: Triangle| t@) =~= mesh_transform(
                old(self)@,
                transformation@,
            ));
        }
        self.triangles = out;
    }
}

} // verus!
