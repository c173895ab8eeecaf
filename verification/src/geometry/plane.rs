//! Planes: a point giving the offset from the world origin and a normal
//! giving the orientation.

use crate::fixed::{lemma_abs_mul_le, tdiv, ONE};
use crate::intersection::{opt_hit_view, Intersection, IntersectionV};
use crate::matrix::{
    bounded_m4, inverse_v, mul_vec_v, transform_normal_v, Matrix4x4, M4, MAT_MAX,
};
use crate::ray::{ray_at, ray_contains, ray_wf, Ray, RayV, COORD_MAX};
use crate::vec3::{bounded, dot_raw, lemma_dot_ok, sub_v, V3, Vec3};
use crate::vec4::{from_v3, to_v3, Vec4};
use vstd::prelude::*;

verus! {

/// Ghost image of a plane.
pub struct PlaneV {
    pub point: V3,
    pub normal: V3,
}

pub open spec fn plane_wf(p: PlaneV) -> bool {
    bounded(p.point, COORD_MAX as int) && bounded(p.normal, COORD_MAX as int)
}

/// The hit of a ray against a plane: `t = N.(P - O) / N.D`, if the ray is
/// not parallel to the plane and `t` lies in the interval.  With exact
/// integer arithmetic, parallel means the raw dot is exactly zero.
pub open spec fn plane_hit(p: PlaneV, r: RayV) -> Option<IntersectionV> {
    let den: int = dot_raw(p.normal, r.direction);
    if den == 0 {
        None
    } else {
        let t: int = tdiv(dot_raw(sub_v(p.point, r.origin), p.normal) * (ONE as int), den);
        if ray_contains(r, t) {
            Some(IntersectionV { t, point: ray_at(r, t), normal: p.normal })
        } else {
            None
        }
    }
}

/// The transformed plane: the point moves as a homogeneous point, the
/// normal by the inverse-transpose convention.
pub open spec fn plane_transform(p: PlaneV, m: M4) -> PlaneV {
    PlaneV {
        point: to_v3(mul_vec_v(m, from_v3(p.point))),
        normal: transform_normal_v(p.normal, inverse_v(m)),
    }
}

pub open spec fn plane_in_transform_range(p: PlaneV) -> bool {
    bounded(p.point, 0x4000000000000000) && bounded(p.normal, 0x2000000000000000)
}

/// A plane hit lies inside the ray's interval, and its point and normal
/// are bounded.
pub proof fn lemma_plane_hit_bounds(p: PlaneV, r: RayV)
    requires
        plane_wf(p),
        ray_wf(r),
    ensures
        match plane_hit(p, r) {
            Some(h) => ray_contains(r, h.t) && h.point == ray_at(r, h.t) && bounded(
                h.point,
                0x80000000000,
            ) && bounded(h.normal, COORD_MAX as int),
            None => true,
        },
{
    if plane_hit(p, r) is Some {
        let h: IntersectionV = plane_hit(p, r)->Some_0;
        crate::ray::lemma_ray_at_bounded(r, h.t);
    }
}

/// A plane.
#[derive(Copy, Clone, Debug, PartialEq, Eq, Structural)]
pub struct Plane {
    pub point: Vec3,
    pub normal: Vec3,
}

impl View for Plane {
    type V = PlaneV;

    open spec fn view(&self) -> PlaneV {
        PlaneV { point: self.point@, normal: self.normal@ }
    }
}

impl Plane {
    pub fn new(point: Vec3, normal: Vec3) -> (r: Plane)
        ensures
            r@ == (PlaneV { point: point@, normal: normal@ }),
    {
        Plane { point, normal }
    }

    /// Solves `N.(P - O) / N.D` for the hit parameter.
    pub fn intersection(&self, ray: &Ray) -> (r: Option<Intersection>)
        requires
            plane_wf(self@),
            ray_wf(ray@),
        ensures
            opt_hit_view(r) == plane_hit(self@, ray@),
    {
        proof {
            lemma_dot_ok(self@.normal, ray@.direction, COORD_MAX as int, 0x40000);
        }
        let denominator: i128 = self.normal.dot_wide(&ray.direction());
        if denominator != 0 {
            let p0r0: Vec3 = self.point.sub(&ray.origin());
            proof {
                lemma_dot_ok(p0r0@, self@.normal, 0x20000000000, COORD_MAX as int);
                lemma_abs_mul_le(
                    dot_raw(p0r0@, self@.normal),
                    ONE as int,
                    0x600000000000000000000,
                    ONE as int,
                );
            }
            let num: i128 = p0r0.dot_wide(&self.normal);
            let t: i128 = crate::fixed::div_fx(num, denominator);
            if ray.contains(t) {
                Some(Intersection::new(t, ray.offset(t), self.normal))
            } else {
                None
            }
        } else {
            None
        }
    }

    /// Runtime check of `plane_wf`.
    pub fn is_wf(&self) -> (b: bool)
        ensures
            b == plane_wf(self@),
    {
        self.point.x >= -COORD_MAX && self.point.x <= COORD_MAX && self.point.y >= -COORD_MAX
            && self.point.y <= COORD_MAX && self.point.z >= -COORD_MAX && self.point.z <= COORD_MAX
            && self.normal.x >= -COORD_MAX && self.normal.x <= COORD_MAX && self.normal.y
            >= -COORD_MAX && self.normal.y <= COORD_MAX && self.normal.z >= -COORD_MAX
            && self.normal.z <= COORD_MAX
    }
}

impl crate::transform::Transform for Plane {
    open spec fn transform_pre(&self, m: M4) -> bool {
        &&& bounded_m4(m, MAT_MAX as int)
        &&& crate::matrix::det_v(m) != 0
        &&& bounded_m4(inverse_v(m), 0x2000000000000000)
        &&& plane_in_transform_range(self@)
    }

    open spec fn transform_view(&self, m: M4) -> PlaneV {
        plane_transform(self@, m)
    }

    /// Applies the transform to the plane's point and normal.
    fn transform(&mut self, transformation: &Matrix4x4) {
        self.point = transformation.mul_vec(&Vec4::from_vec3(&self.point)).to_vec3();
        let inverse: Matrix4x4 = transformation.inverse();
        self.normal = Matrix4x4::transform_normal(&self.normal, inverse);
    }
}

} // verus!
