//! Geometric primitives and their ray-intersection tests.

pub mod mesh;
pub mod plane;
pub mod sphere;

use crate::intersection::{opt_hit_view, Intersection, IntersectionV};
use crate::matrix::{inverse_v, mul_vec_v, Matrix4x4, M4};
use crate::ray::{ray_wf, Ray, RayV};
use crate::transform::Transform;
use vstd::prelude::*;

pub use mesh::{Mesh, MeshV, Triangle, TriV};
pub use plane::{Plane, PlaneV};
pub use sphere::{Sphere, SphereV};

verus! {

/// Ghost image of a primitive.
pub enum GeomV {
    Sphere(SphereV),
    Plane(PlaneV),
    Triangle(TriV),
    Mesh(Seq<TriV>),
}

/// A well-formed primitive: coordinates within the tracer's bounds.
pub open spec fn geom_wf(g: GeomV) -> bool {
    match g {
        GeomV::Sphere(s) => sphere::sphere_wf(s),
        GeomV::Plane(p) => plane::plane_wf(p),
        GeomV::Triangle(t) => mesh::tri_wf(t),
        GeomV::Mesh(m) => mesh::mesh_wf(m),
    }
}

/// The hit of a ray against a primitive: the nearest valid root inside
/// the ray's interval, or nothing.
pub open spec fn geom_hit(g: GeomV, r: RayV) -> Option<IntersectionV> {
    match g {
        GeomV::Sphere(s) => sphere::sphere_hit(s, r),
        GeomV::Plane(p) => plane::plane_hit(p, r),
        GeomV::Triangle(t) => mesh::triangle_hit(t, r),
        GeomV::Mesh(m) => mesh::mesh_hit(m, r),
    }
}

/// One renderable shape: a closed set of variants behind a single
/// intersection and transform dispatch.
#[derive(Clone, Debug)]
pub enum Geometry {
    Sphere(Sphere),
    Plane(Plane),
    Triangle(Triangle),
    Mesh(Mesh),
}

impl View for Geometry {
    type V = GeomV;

    open spec fn view(&self) -> GeomV {
        match self {
            Geometry::Sphere(s) => GeomV::Sphere(s@),
            Geometry::Plane(p) => GeomV::Plane(p@),
            Geometry::Triangle(t) => GeomV::Triangle(t@),
            Geometry::Mesh(m) => GeomV::Mesh(m@),
        }
    }
}

impl Geometry {
    /// The nearest valid hit of the ray against this primitive.
    pub fn intersection(&self, ray: &Ray) -> (r: Option<Intersection>)
        requires
            geom_wf(self@),
            ray_wf(ray@),
        ensures
            opt_hit_view(r) == geom_hit(self@, ray@),
    {
        match self {
            Geometry::Sphere(s) => s.intersection(ray),
            Geometry::Plane(p) => p.intersection(ray),
            Geometry::Triangle(t) => t.intersection(ray),
            Geometry::Mesh(m) => m.intersection(ray),
        }
    }

    /// Runtime check of `geom_wf`.
    pub fn is_wf(&self) -> (b: bool)
        ensures
            b == geom_wf(self@),
    {
        match self {
            Geometry::Sphere(s) => s.is_wf(),
            Geometry::Plane(p) => p.is_wf(),
            Geometry::Triangle(t) => t.is_wf(),
            Geometry::Mesh(m) => m.is_wf(),
        }
    }
}

impl crate::transform::Transform for Geometry {
    open spec fn transform_pre(&self, m: M4) -> bool {
        match self {
            Geometry::Sphere(s) => s.transform_pre(m),
            Geometry::Plane(p) => p.transform_pre(m),
            Geometry::Triangle(t) => t.transform_pre(m),
            Geometry::Mesh(me) => me.transform_pre(m),
        }
    }

    open spec fn transform_view(&self, m: M4) -> GeomV {
        geom_transform(self@, m)
    }

    /// Applies a transform to all defining points, and to normals by the
    /// inverse-transpose convention.
    fn transform(&mut self, m: &Matrix4x4) {
        match self {
            Geometry::Sphere(s) => s.transform(m),
            Geometry::Plane(p) => p.transform(m),
            Geometry::Triangle(t) => t.transform(m),
            Geometry::Mesh(me) => me.transform(m),
        }
    }
}

/// Any reported hit lies inside the ray's valid interval: every variant
/// checks the interval before it reports.
pub proof fn lemma_geom_hit_contained(g: GeomV, r: RayV)
    ensures
        geom_hit(g, r) matches Some(h) ==> crate::ray::ray_contains(r, h.t),
{
    if g is Mesh {
        mesh::lemma_mesh_hit_contained(g->Mesh_0, r);
    }
}

/// Any hit of a well-formed primitive lies inside the ray's interval,
/// and its point and normal are bounded.
pub proof fn lemma_geom_hit_bounds(g: GeomV, r: RayV)
    requires
        geom_wf(g),
        ray_wf(r),
    ensures
        match geom_hit(g, r) {
            Some(h) => crate::ray::ray_contains(r, h.t) && crate::vec3::bounded(
                h.point,
                0x80000000000,
            ) && crate::vec3::bounded(h.normal, crate::ray::COORD_MAX as int),
            None => true,
        },
{
    match g {
        GeomV::Sphere(s) => sphere::lemma_sphere_hit_bounds(s, r),
        GeomV::Plane(p) => plane::lemma_plane_hit_bounds(p, r),
        GeomV::Triangle(t) => mesh::lemma_triangle_hit_bounds(t, r),
        GeomV::Mesh(m) => mesh::lemma_mesh_hit_bounds(m, r),
    }
}

/// The coordinates are small enough to be run through a transform.
pub open spec fn geom_in_transform_range(g: GeomV) -> bool {
    match g {
        GeomV::Sphere(s) => sphere::sphere_in_transform_range(s),
        GeomV::Plane(p) => plane::plane_in_transform_range(p),
        GeomV::Triangle(t) => mesh::tri_in_transform_range(t),
        GeomV::Mesh(m) => mesh::mesh_in_transform_range(m),
    }
}

/// The transformed primitive.
pub open spec fn geom_transform(g: GeomV, m: M4) -> GeomV {
    match g {
        GeomV::Sphere(s) => GeomV::Sphere(sphere::sphere_transform(s, m)),
        GeomV::Plane(p) => GeomV::Plane(plane::plane_transform(p, m)),
        GeomV::Triangle(t) => GeomV::Triangle(mesh::tri_transform(t, m)),
        GeomV::Mesh(me) => GeomV::Mesh(mesh::mesh_transform(me, m)),
    }
}

/// Applying a translation and then its computed inverse restores the
/// geometry exactly: every product in both transforms is exact, so no
/// rounding accumulates.  (General matrices round: a scale by three
/// followed by its computed inverse may move a coordinate by one unit in
/// the last place.)
pub proof fn lemma_translation_round_trip(g: GeomV, tx: int, ty: int, tz: int)
    ensures
        geom_transform(
            geom_transform(g, crate::matrix::translation_v(tx, ty, tz)),
            inverse_v(crate::matrix::translation_v(tx, ty, tz)),
        ) == g,
{
    crate::matrix::lemma_translation_inverse(tx, ty, tz);
    crate::matrix::lemma_translation_inverse(-tx, -ty, -tz);
    let fwd: M4 = crate::matrix::translation_v(tx, ty, tz);
    let back: M4 = crate::matrix::translation_v(-tx, -ty, -tz);
    match g {
        GeomV::Sphere(s) => {
            crate::matrix::lemma_translation_point(tx, ty, tz, s.center);
            crate::matrix::lemma_translation_point(
                -tx,
                -ty,
                -tz,
                crate::vec3::add_v(s.center, crate::vec3::V3 { x: tx, y: ty, z: tz }),
            );
        },
        GeomV::Plane(p) => {
            lemma_tri_point_round_trip(p.point, tx, ty, tz);
            crate::matrix::lemma_translation_normal(-tx, -ty, -tz, p.normal);
            crate::matrix::lemma_translation_normal(
                tx,
                ty,
                tz,
                crate::matrix::transform_normal_v(p.normal, back),
            );
        },
        GeomV::Triangle(t) => {
            lemma_tri_round_trip(t, tx, ty, tz);
        },
        GeomV::Mesh(m) => {
            let m1: Seq<mesh::TriV> = mesh::mesh_transform(m, fwd);
            let m2: Seq<mesh::TriV> = mesh::mesh_transform(m1, back);
            assert forall|i: int| 0 <= i < m.len() implies m2[i] == m[i] by {
                lemma_tri_round_trip(m[i], tx, ty, tz);
            }
            assert(m2 =~= m);
        },
    }
}

/// One point returns home under a translation and its inverse.
proof fn lemma_tri_point_round_trip(p: crate::vec3::V3, tx: int, ty: int, tz: int)
    ensures
        crate::vec4::to_v3(
            mul_vec_v(
                crate::matrix::translation_v(-tx, -ty, -tz),
                crate::vec4::from_v3(
                    crate::vec4::to_v3(
                        mul_vec_v(
                            crate::matrix::translation_v(tx, ty, tz),
                            crate::vec4::from_v3(p),
                        ),
                    ),
                ),
            ),
        ) == p,
{
    crate::matrix::lemma_translation_point(tx, ty, tz, p);
    crate::matrix::lemma_translation_point(
        -tx,
        -ty,
        -tz,
        crate::vec3::add_v(p, crate::vec3::V3 { x: tx, y: ty, z: tz }),
    );
}

/// One triangle returns home under a translation and its inverse.
proof fn lemma_tri_round_trip(t: TriV, tx: int, ty: int, tz: int)
    ensures
        mesh::tri_transform(
            mesh::tri_transform(t, crate::matrix::translation_v(tx, ty, tz)),
            inverse_v(crate::matrix::translation_v(tx, ty, tz)),
        ) == t,
{
    crate::matrix::lemma_translation_inverse(tx, ty, tz);
    crate::matrix::lemma_translation_inverse(-tx, -ty, -tz);
    let back: M4 = crate::matrix::translation_v(-tx, -ty, -tz);
    lemma_tri_point_round_trip(t.v0, tx, ty, tz);
    lemma_tri_point_round_trip(t.v1, tx, ty, tz);
    lemma_tri_point_round_trip(t.v2, tx, ty, tz);
    crate::matrix::lemma_translation_normal(-tx, -ty, -tz, t.n0);
    crate::matrix::lemma_translation_normal(-tx, -ty, -tz, t.n1);
    crate::matrix::lemma_translation_normal(-tx, -ty, -tz, t.n2);
    crate::matrix::lemma_translation_normal(
        tx,
        ty,
        tz,
        crate::matrix::transform_normal_v(t.n0, back),
    );
    crate::matrix::lemma_translation_normal(
        tx,
        ty,
        tz,
        crate::matrix::transform_normal_v(t.n1, back),
    );
    crate::matrix::lemma_translation_normal(
        tx,
        ty,
        tz,
        crate::matrix::transform_normal_v(t.n2, back),
    );
}

} // verus!
