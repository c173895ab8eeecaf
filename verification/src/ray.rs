//! Rays: an origin, a unit direction, and the interval of valid hit
//! parameters.

use crate::fixed::{lemma_abs_mul_le, lemma_tdiv_bound, ONE};
use crate::matrix::{bounded_m4, mul_vec_v, Matrix4x4, MAT_MAX};
use crate::vec3::{add_v, bounded, is_zero, scale_v, unit_v, V3, Vec3};
use crate::vec4::{from_v3, to_v3, Vec4};
use vstd::math::abs;
use vstd::prelude::*;

verus! {

/// Bound on the coordinates of scene geometry.
pub const COORD_MAX: i128 = 0x4000000000;

/// Bound on ray origins, a little wider than the geometry so that hit
/// points of secondary rays stay representable.
pub const ORIGIN_MAX: i128 = 0x10000000000;

/// Bound on the components of a ray direction.  A freshly built ray has a
/// unit direction, bounded by `ONE`; a transformed ray may stretch it.
pub const DIR_MAX: i128 = 0x40000;

/// Upper limit on the valid-parameter interval, the fixed-point stand-in
/// for an unbounded ray.
pub const T_LIMIT: i128 = 0x10000000000;

/// Ghost image of a ray.
pub struct RayV {
    pub origin: V3,
    pub direction: V3,
    pub t_min: int,
    pub t_max: int,
}

/// A well-formed ray: bounded origin, a nonzero bounded direction, and a
/// nonnegative interval below the representable limit.
pub open spec fn ray_wf(r: RayV) -> bool {
    &&& bounded(r.origin, ORIGIN_MAX as int)
    &&& !is_zero(r.direction)
    &&& bounded(r.direction, DIR_MAX as int)
    &&& 0 <= r.t_min
    &&& r.t_max <= T_LIMIT
}

/// `t` lies in the ray's half-open valid interval.
pub open spec fn ray_contains(r: RayV, t: int) -> bool {
    r.t_min <= t && t < r.t_max
}

/// The point reached after travelling `t` along the direction.
pub open spec fn ray_at(r: RayV, t: int) -> V3 {
    add_v(r.origin, scale_v(r.direction, t))
}

/// A ray as built by `Ray::new`: the direction is normalized, so valid
/// hit parameters are world-space distances.
pub open spec fn mk_ray(origin: V3, direction: V3, t_min: int, t_max: int) -> RayV {
    RayV { origin, direction: unit_v(direction), t_min, t_max }
}

/// A point reached inside the valid range of a well-formed ray stays
/// close to the origin.
pub proof fn lemma_ray_at_bounded(r: RayV, t: int)
    requires
        ray_wf(r),
        0 <= t <= T_LIMIT,
    ensures
        bounded(ray_at(r, t), 0x80000000000),
{
    lemma_abs_mul_le(r.direction.x, t, DIR_MAX as int, T_LIMIT as int);
    lemma_abs_mul_le(r.direction.y, t, DIR_MAX as int, T_LIMIT as int);
    lemma_abs_mul_le(r.direction.z, t, DIR_MAX as int, T_LIMIT as int);
    crate::fixed::lemma_tdiv_quot_le(r.direction.x * t, ONE as int, 0x40000000000);
    crate::fixed::lemma_tdiv_quot_le(r.direction.y * t, ONE as int, 0x40000000000);
    crate::fixed::lemma_tdiv_quot_le(r.direction.z * t, ONE as int, 0x40000000000);
}

/// A ray cast through the scene.
#[derive(Copy, Clone, Debug, PartialEq, Eq, Structural)]
pub struct Ray {
    pub origin: Vec3,
    pub direction: Vec3,
    pub t_min: i128,
    pub t_max: i128,
}

impl View for Ray {
    type V = RayV;

    open spec fn view(&self) -> RayV {
        RayV {
            origin: self.origin@,
            direction: self.direction@,
            t_min: self.t_min as int,
            t_max: self.t_max as int,
        }
    }
}

impl Ray {
    /// Builds a ray, normalizing the direction.  The direction must be
    /// nonzero: a zero direction has no unit vector.
    pub fn new(origin: Vec3, direction: Vec3, t_min: i128, t_max: i128) -> (r: Ray)
        requires
            bounded(origin@, ORIGIN_MAX as int),
            !is_zero(direction@),
            bounded(direction@, 0x40000000000000),
            0 <= t_min,
            t_max <= T_LIMIT,
        ensures
            r@ == mk_ray(origin@, direction@, t_min as int, t_max as int),
            ray_wf(r@),
    {
        proof {
            crate::vec3::lemma_dot_ok(direction@, direction@, 0x40000000000000, 0x40000000000000);
            lemma_abs_mul_le(direction@.x, ONE as int, 0x40000000000000, ONE as int);
            lemma_abs_mul_le(direction@.y, ONE as int, 0x40000000000000, ONE as int);
            lemma_abs_mul_le(direction@.z, ONE as int, 0x40000000000000, ONE as int);
        }
        let unit_dir: Vec3 = direction.unit();
        Ray { origin, direction: unit_dir, t_min, t_max }
    }

    pub fn origin(&self) -> (r: Vec3)
        ensures
            r@ == self@.origin,
    {
        self.origin
    }

    pub fn direction(&self) -> (r: Vec3)
        ensures
            r@ == self@.direction,
    {
        self.direction
    }

    /// The point at parameter `t` along the ray.
    pub fn offset(&self, t: i128) -> (r: Vec3)
        requires
            ray_wf(self@),
            abs(t as int) <= T_LIMIT,
        ensures
            r@ == ray_at(self@, t as int),
            bounded(r@, 0x80000000000),
    {
        proof {
            lemma_abs_mul_le(self@.direction.x, t as int, DIR_MAX as int, T_LIMIT as int);
            lemma_abs_mul_le(self@.direction.y, t as int, DIR_MAX as int, T_LIMIT as int);
            lemma_abs_mul_le(self@.direction.z, t as int, DIR_MAX as int, T_LIMIT as int);
            lemma_tdiv_bound(self@.direction.x * t, ONE as int);
            lemma_tdiv_bound(self@.direction.y * t, ONE as int);
            lemma_tdiv_bound(self@.direction.z * t, ONE as int);
            crate::fixed::lemma_tdiv_quot_le(self@.direction.x * t, ONE as int, 0x40000000000);
            crate::fixed::lemma_tdiv_quot_le(self@.direction.y * t, ONE as int, 0x40000000000);
            crate::fixed::lemma_tdiv_quot_le(self@.direction.z * t, ONE as int, 0x40000000000);
        }
        self.origin.add(&self.direction.scale(t))
    }

    /// Whether `t` lies in the valid-parameter interval.
    pub fn contains(&self, t: i128) -> (b: bool)
        ensures
            b == ray_contains(self@, t as int),
    {
        self.t_min <= t && t < self.t_max
    }

    /// Runtime check of `ray_wf`, for rays built or transformed outside
    /// verified code.
    pub fn is_wf(&self) -> (b: bool)
        ensures
            b == ray_wf(self@),
    {
        self.origin.x >= -ORIGIN_MAX && self.origin.x <= ORIGIN_MAX && self.origin.y
            >= -ORIGIN_MAX && self.origin.y <= ORIGIN_MAX && self.origin.z >= -ORIGIN_MAX
            && self.origin.z <= ORIGIN_MAX && !(self.direction.x == 0 && self.direction.y == 0
            && self.direction.z == 0) && self.direction.x >= -DIR_MAX && self.direction.x <= DIR_MAX
            && self.direction.y >= -DIR_MAX && self.direction.y <= DIR_MAX && self.direction.z
            >= -DIR_MAX && self.direction.z <= DIR_MAX && 0 <= self.t_min && self.t_max <= T_LIMIT
    }
}

impl crate::transform::Transform for Ray {
    open spec fn transform_pre(&self, m: crate::matrix::M4) -> bool {
        &&& bounded_m4(m, MAT_MAX as int)
        &&& bounded(self@.origin, 0x4000000000000000)
        &&& bounded(self@.direction, 0x4000000000000000)
    }

    open spec fn transform_view(&self, m: crate::matrix::M4) -> RayV {
        RayV {
            origin: to_v3(mul_vec_v(m, from_v3(self@.origin))),
            direction: to_v3(mul_vec_v(m, from_v3(self@.direction))),
            t_min: self@.t_min,
            t_max: self@.t_max,
        }
    }

    /// Applies a transform to the ray.  Origin and direction are both
    /// carried as homogeneous points with weight `ONE`; the direction is
    /// not renormalized, and the caller must check well-formedness again
    /// before tracing with the result.
    fn transform(&mut self, transformation: &Matrix4x4) {
        self.origin = transformation.mul_vec(&Vec4::from_vec3(&self.origin)).to_vec3();
        self.direction = transformation.mul_vec(&Vec4::from_vec3(&self.direction)).to_vec3();
    }
}

} // verus!
