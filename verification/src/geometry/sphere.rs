//! Spheres: a center and a radius.

use crate::fixed::{
    div_fx, is_isqrt, isqrt, lemma_abs_mul_le, lemma_isqrt_exists, lemma_isqrt_unique,
    lemma_tdiv_signs, mul_i, sqrt_t, tdiv, ONE,
};
use crate::intersection::{opt_hit_view, Intersection, IntersectionV};
use crate::matrix::{bounded_m4, mul_vec_v, Matrix4x4, M4, MAT_MAX};
use crate::ray::{ray_at, ray_contains, ray_wf, Ray, RayV, COORD_MAX};
use crate::vec3::{
    bounded, dot_raw, is_zero, lemma_dot_ok, lemma_dot_self_nonneg, sub_v, unit_v, V3, Vec3,
};
use crate::vec4::{from_v3, to_v3, Vec4};
use vstd::prelude::*;

verus! {

/// Ghost image of a sphere.
pub struct SphereV {
    pub center: V3,
    pub radius: int,
}

pub open spec fn sphere_wf(s: SphereV) -> bool {
    bounded(s.center, COORD_MAX as int) && 0 <= s.radius <= COORD_MAX
}

/// The hit of a ray against a sphere: the smaller root of the quadratic
/// `|O + tD - C|^2 = r^2`, if it lies in the ray's interval.  The farther
/// root is never reported, even when the nearer one is out of range.
pub open spec fn sphere_hit(s: SphereV, r: RayV) -> Option<IntersectionV> {
    let oc: V3 = sub_v(r.origin, s.center);
    let a: int = dot_raw(r.direction, r.direction);
    let b: int = 2 * dot_raw(oc, r.direction);
    let c: int = dot_raw(oc, oc) - s.radius * s.radius;
    let disc: int = b * b - 4 * (a * c);
    if disc < 0 {
        None
    } else {
        let sq: int = isqrt(disc);
        let den: int = 2 * a;
        let x1: int = tdiv((-b + sq) * (ONE as int), den);
        let x2: int = tdiv((-b - sq) * (ONE as int), den);
        let t: int = if x1 < x2 {
            x1
        } else {
            x2
        };
        if ray_contains(r, t) {
            let point: V3 = ray_at(r, t);
            let diff: V3 = sub_v(point, s.center);
            // A degenerate hit exactly at the center keeps a zero normal.
            let normal: V3 = if is_zero(diff) {
                diff
            } else {
                unit_v(diff)
            };
            Some(IntersectionV { t, point, normal })
        } else {
            None
        }
    }
}

/// The transformed sphere: the center moves as a homogeneous point, the
/// radius is untouched (non-uniform scales do not reach it).
pub open spec fn sphere_transform(s: SphereV, m: M4) -> SphereV {
    SphereV { center: to_v3(mul_vec_v(m, from_v3(s.center))), radius: s.radius }
}

pub open spec fn sphere_in_transform_range(s: SphereV) -> bool {
    bounded(s.center, 0x4000000000000000)
}

/// A sphere.
#[derive(Copy, Clone, Debug, PartialEq, Eq, Structural)]
pub struct Sphere {
    pub center: Vec3,
    pub radius: i128,
}

impl View for Sphere {
    type V = SphereV;

    open spec fn view(&self) -> SphereV {
        SphereV { center: self.center@, radius: self.radius as int }
    }
}

impl Sphere {
    pub fn new(center: Vec3, radius: i128) -> (r: Sphere)
        ensures
            r@ == (SphereV { center: center@, radius: radius as int }),
    {
        Sphere { center, radius }
    }

    /// Solves the quadratic and reports the smaller root when it lies in
    /// the ray's valid interval.
    pub fn intersection(&self, ray: &Ray) -> (r: Option<Intersection>)
        requires
            sphere_wf(self@),
            ray_wf(ray@),
        ensures
            opt_hit_view(r) == sphere_hit(self@, ray@),
    {
        let d: Vec3 = ray.direction();
        let o: Vec3 = ray.origin();
        proof {
            lemma_dot_ok(d@, d@, 0x40000, 0x40000);
            lemma_dot_self_nonneg(d@);
        }
        let oc: Vec3 = o.sub(&self.center);
        proof {
            lemma_dot_ok(oc@, d@, 0x20000000000, 0x40000);
            lemma_dot_ok(oc@, oc@, 0x20000000000, 0x20000000000);
            lemma_abs_mul_le(self@.radius, self@.radius, COORD_MAX as int, COORD_MAX as int);
        }
        let a: i128 = d.dot_wide(&d);
        let b: i128 = 2 * oc.dot_wide(&d);
        let c: i128 = oc.dot_wide(&oc) - mul_i(self.radius, self.radius);
        proof {
            lemma_abs_mul_le(b as int, b as int, 0x4000000000000000, 0x4000000000000000);
            lemma_abs_mul_le(a as int, c as int, 0x4000000000, 0x2000000000000000000000);
        }
        let disc: i128 = mul_i(b, b) - 4 * mul_i(a, c);
        if disc < 0 {
            return None;
        }
        let sq: i128 = sqrt_t(disc);
        proof {
            assert(sq <= 0x8000000000000000) by (nonlinear_arith)
                requires
                    0 <= sq,
                    (sq as int) * (sq as int) <= disc,
                    disc < 0x40000000000000000000000000000000,
            ;
            lemma_abs_mul_le(-b + sq, ONE as int, 0x10000000000000000, ONE as int);
            lemma_abs_mul_le(-b - sq, ONE as int, 0x10000000000000000, ONE as int);
        }
        let den: i128 = 2 * a;
        let x1: i128 = div_fx(-b + sq, den);
        let x2: i128 = div_fx(-b - sq, den);
        let t: i128 = if x1 < x2 {
            x1
        } else {
            x2
        };
        if ray.contains(t) {
            let point: Vec3 = ray.offset(t);
            let diff: Vec3 = point.sub(&self.center);
            let normal: Vec3 = if diff.x == 0 && diff.y == 0 && diff.z == 0 {
                diff
            } else {
                proof {
                    lemma_dot_ok(diff@, diff@, 0x100000000000, 0x100000000000);
                    lemma_abs_mul_le(diff@.x, ONE as int, 0x100000000000, ONE as int);
                    lemma_abs_mul_le(diff@.y, ONE as int, 0x100000000000, ONE as int);
                    lemma_abs_mul_le(diff@.z, ONE as int, 0x100000000000, ONE as int);
                }
                diff.unit()
            };
            Some(Intersection::new(t, point, normal))
        } else {
            None
        }
    }

    /// Runtime check of `sphere_wf`.
    pub fn is_wf(&self) -> (b: bool)
        ensures
            b == sphere_wf(self@),
    {
        self.center.x >= -COORD_MAX && self.center.x <= COORD_MAX && self.center.y >= -COORD_MAX
            && self.center.y <= COORD_MAX && self.center.z >= -COORD_MAX && self.center.z
            <= COORD_MAX && 0 <= self.radius && self.radius <= COORD_MAX
    }
}

impl crate::transform::Transform for Sphere {
    open spec fn transform_pre(&self, m: M4) -> bool {
        bounded_m4(m, MAT_MAX as int) && sphere_in_transform_range(self@)
    }

    open spec fn transform_view(&self, m: M4) -> SphereV {
        sphere_transform(self@, m)
    }

    /// Moves the center through the transform; the radius stays.
    fn transform(&mut self, transformation: &Matrix4x4) {
        self.center = transformation.mul_vec(&Vec4::from_vec3(&self.center)).to_vec3();
    }
}

/// A sphere hit lies inside the ray's interval, and its point and normal
/// are bounded.
pub proof fn lemma_sphere_hit_bounds(s: SphereV, r: RayV)
    requires
        sphere_wf(s),
        ray_wf(r),
    ensures
        match sphere_hit(s, r) {
            Some(h) => ray_contains(r, h.t) && h.point == ray_at(r, h.t) && bounded(
                h.point,
                0x80000000000,
            ) && bounded(h.normal, COORD_MAX as int),
            None => true,
        },
{
    if sphere_hit(s, r) is Some {
        let h: IntersectionV = sphere_hit(s, r)->Some_0;
        crate::ray::lemma_ray_at_bounded(r, h.t);
        let diff: V3 = sub_v(h.point, s.center);
        if !is_zero(diff) {
            crate::vec3::lemma_unit_bounds(diff);
        }
    }
}

/// A ray that starts on the sphere's surface and points outward along the
/// surface normal never hits the sphere inside a positive interval.
pub proof fn lemma_surface_outward_ray_misses(s: SphereV, r: RayV)
    requires
        s.radius >= 1,
        dot_raw(sub_v(r.origin, s.center), sub_v(r.origin, s.center)) == s.radius * s.radius,
        r.direction == unit_v(sub_v(r.origin, s.center)),
        r.t_min >= 1,
    ensures
        sphere_hit(s, r) == None::<IntersectionV>,
{
    let oc: V3 = sub_v(r.origin, s.center);
    assert(s.radius * s.radius >= 1) by (nonlinear_arith)
        requires
            s.radius >= 1,
    ;
    assert(!is_zero(oc)) by {
        if is_zero(oc) {
            assert(dot_raw(oc, oc) == 0);
        }
    }
    crate::vec3::lemma_unit_bounds(oc);
    let l: int = crate::vec3::len_v(oc);
    let d: V3 = r.direction;
    // Outward direction: each product oc_k * d_k is nonnegative, because
    // normalization keeps the sign of each component.
    lemma_outward_term(oc.x, l);
    lemma_outward_term(oc.y, l);
    lemma_outward_term(oc.z, l);
    let a: int = dot_raw(d, d);
    let b: int = 2 * dot_raw(oc, d);
    assert(b >= 0);
    let c: int = dot_raw(oc, oc) - s.radius * s.radius;
    assert(c == 0);
    lemma_dot_self_nonneg(d);
    assert(a >= 1);
    let disc: int = b * b - 4 * (a * c);
    assert(disc == b * b) by (nonlinear_arith)
        requires
            c == 0 && disc == b * b - 4 * (a * c),
    ;
    assert(disc >= 0) by (nonlinear_arith)
        requires
            disc == b * b,
    ;
    // The square root of an exact square is exact.
    assert(is_isqrt(disc, b)) by (nonlinear_arith)
        requires
            b >= 0 && disc == b * b,
    ;
    lemma_isqrt_exists(disc);
    lemma_isqrt_unique(disc, b, isqrt(disc));
    let den: int = 2 * a;
    let x1: int = tdiv((-b + b) * (ONE as int), den);
    let x2: int = tdiv((-b - b) * (ONE as int), den);
    assert((-b + b) * (ONE as int) == 0) by (nonlinear_arith);
    assert(x1 == 0);
    // The smaller root is nonpositive: the numerator is nonpositive and
    // the denominator positive.
    lemma_tdiv_signs((-b - b) * (ONE as int), den);
    assert((-b - b) * (ONE as int) <= 0) by (nonlinear_arith)
        requires
            b >= 0,
    ;
    assert(x2 <= 0);
    let t: int = if x1 < x2 {
        x1
    } else {
        x2
    };
    assert(t <= 0);
    assert(!ray_contains(r, t));
}

/// Each component of a vector, multiplied by that component of its unit
/// vector, is nonnegative.
proof fn lemma_outward_term(c: int, l: int)
    requires
        l >= 1,
    ensures
        c * tdiv(c * (ONE as int), l) >= 0,
{
    lemma_tdiv_signs(c * (ONE as int), l);
    let q: int = tdiv(c * (ONE as int), l);
    if c > 0 {
        assert(c * (ONE as int) > 0) by (nonlinear_arith)
            requires
                c > 0,
        ;
        assert(q >= 0);
        assert(c * q >= 0) by (nonlinear_arith)
            requires
                c > 0 && q >= 0,
        ;
    } else if c < 0 {
        assert(c * (ONE as int) < 0) by (nonlinear_arith)
            requires
                c < 0,
        ;
        assert(q <= 0);
        assert(c * q >= 0) by (nonlinear_arith)
            requires
                c < 0 && q <= 0,
        ;
    } else {
        assert(c * (ONE as int) == 0) by (nonlinear_arith)
            requires
                c == 0,
        ;
        assert(q == 0);
        assert(c * q == 0) by (nonlinear_arith)
            requires
                q == 0,
        ;
    }
}

} // verus!
