use photon::fixed::ONE;
use photon::geometry::{Mesh, Plane, Sphere, Triangle};
use photon::matrix::Matrix4x4;
use photon::ray::{Ray, T_LIMIT};
use photon::scene::T_EPS;
use photon::transform::Transform;
use photon::vec3::Vec3;

#[test]
fn unit_sphere_head_on_hit() {
    let sphere = Sphere::new(Vec3::new(0, 0, 0), ONE);
    let ray = Ray::new(Vec3::new(0, 0, -5 * ONE), Vec3::new(0, 0, ONE), T_EPS, T_LIMIT);
    let hit = sphere.intersection(&ray).expect("the ray points at the sphere");
    assert_eq!(4 * ONE, hit.t);
    assert_eq!(Vec3::new(0, 0, -ONE), hit.point);
    assert_eq!(Vec3::new(0, 0, -ONE), hit.normal);
}

#[test]
fn surface_ray_outward_misses() {
    // From a point on the surface, aimed outward along the normal, the
    // sphere reports nothing within a positive interval.
    let sphere = Sphere::new(Vec3::new(0, 0, 0), 2 * ONE);
    let origin = Vec3::new(2 * ONE, 0, 0);
    let ray = Ray::new(origin, Vec3::new(2 * ONE, 0, 0), T_EPS, T_LIMIT);
    assert!(sphere.intersection(&ray).is_none());
}

#[test]
fn sphere_behind_the_ray_misses() {
    let sphere = Sphere::new(Vec3::new(0, 0, -10 * ONE), ONE);
    let ray = Ray::new(Vec3::new(0, 0, 0), Vec3::new(0, 0, ONE), T_EPS, T_LIMIT);
    assert!(sphere.intersection(&ray).is_none());
}

#[test]
fn plane_head_on_hit() {
    let plane = Plane::new(Vec3::new(0, -ONE, 0), Vec3::new(0, ONE, 0));
    let ray = Ray::new(Vec3::new(0, 5 * ONE, 0), Vec3::new(0, -ONE, 0), T_EPS, T_LIMIT);
    let hit = plane.intersection(&ray).expect("the ray points at the plane");
    assert_eq!(6 * ONE, hit.t);
    assert_eq!(Vec3::new(0, -ONE, 0), hit.point);
    assert_eq!(Vec3::new(0, ONE, 0), hit.normal);
}

#[test]
fn parallel_ray_misses_plane() {
    let plane = Plane::new(Vec3::new(0, -ONE, 0), Vec3::new(0, ONE, 0));
    let ray = Ray::new(Vec3::new(0, 5 * ONE, 0), Vec3::new(ONE, 0, 0), T_EPS, T_LIMIT);
    assert!(plane.intersection(&ray).is_none());
}

#[test]
fn triangle_interior_hit() {
    let tri = Triangle::new([
        Vec3::new(0, 0, 0),
        Vec3::new(4 * ONE, 0, 0),
        Vec3::new(0, 4 * ONE, 0),
    ]);
    let ray = Ray::new(Vec3::new(ONE, ONE, -5 * ONE), Vec3::new(0, 0, ONE), T_EPS, T_LIMIT);
    let hit = tri.intersection(&ray).expect("the ray points inside the triangle");
    assert_eq!(5 * ONE, hit.t);
    assert_eq!(Vec3::new(ONE, ONE, 0), hit.point);
    assert_eq!(Vec3::new(0, 0, ONE), hit.normal);
}

#[test]
fn triangle_outside_misses() {
    let tri = Triangle::new([
        Vec3::new(0, 0, 0),
        Vec3::new(4 * ONE, 0, 0),
        Vec3::new(0, 4 * ONE, 0),
    ]);
    let ray = Ray::new(
        Vec3::new(3 * ONE, 3 * ONE, -5 * ONE),
        Vec3::new(0, 0, ONE),
        T_EPS,
        T_LIMIT,
    );
    assert!(tri.intersection(&ray).is_none());
}

#[test]
fn reversed_winding_flips_only_the_normal() {
    let a = Vec3::new(0, 0, 0);
    let b = Vec3::new(4 * ONE, 0, 0);
    let c = Vec3::new(0, 4 * ONE, 0);
    let forward = Triangle::new([a, b, c]);
    let reversed = Triangle::new([a, c, b]);
    let ray = Ray::new(Vec3::new(ONE, ONE, -5 * ONE), Vec3::new(0, 0, ONE), T_EPS, T_LIMIT);
    let h1 = forward.intersection(&ray).expect("forward winding hits");
    let h2 = reversed.intersection(&ray).expect("reversed winding hits");
    assert_eq!(h1.t, h2.t);
    assert_eq!(h1.point, h2.point);
    assert_eq!(h1.normal.inverse(), h2.normal);
}

#[test]
fn interpolated_normals_blend_at_the_hit() {
    let tri = Triangle::new([
        Vec3::new(0, 0, 0),
        Vec3::new(4 * ONE, 0, 0),
        Vec3::new(0, 4 * ONE, 0),
    ])
    .with_normals([
        Vec3::new(0, 0, 4 * ONE),
        Vec3::new(0, 0, 8 * ONE),
        Vec3::new(0, 0, 16 * ONE),
    ]);
    let ray = Ray::new(Vec3::new(ONE, ONE, -5 * ONE), Vec3::new(0, 0, ONE), T_EPS, T_LIMIT);
    let hit = tri.intersection(&ray).expect("the ray points inside the triangle");
    // alpha = 1/2, beta = gamma = 1/4: z = 2 + 2 + 4 at scale ONE.
    assert_eq!(Vec3::new(0, 0, 8 * ONE), hit.normal);
}

#[test]
fn mesh_reports_the_nearest_triangle() {
    let near = Triangle::new([
        Vec3::new(-4 * ONE, -4 * ONE, 2 * ONE),
        Vec3::new(4 * ONE, -4 * ONE, 2 * ONE),
        Vec3::new(0, 4 * ONE, 2 * ONE),
    ]);
    let far = Triangle::new([
        Vec3::new(-4 * ONE, -4 * ONE, 9 * ONE),
        Vec3::new(4 * ONE, -4 * ONE, 9 * ONE),
        Vec3::new(0, 4 * ONE, 9 * ONE),
    ]);
    let mesh = Mesh::new(vec![far, near]);
    let ray = Ray::new(Vec3::new(0, 0, 0), Vec3::new(0, 0, ONE), T_EPS, T_LIMIT);
    let hit = mesh.intersection(&ray).expect("both triangles face the ray");
    assert_eq!(2 * ONE, hit.t);
}

#[test]
fn empty_mesh_reports_no_hit() {
    let mesh = Mesh::new(Vec::new());
    let ray = Ray::new(Vec3::new(0, 0, 0), Vec3::new(0, 0, ONE), T_EPS, T_LIMIT);
    assert!(mesh.intersection(&ray).is_none());
}

#[test]
fn translation_round_trip_restores_the_sphere() {
    let mut sphere = Sphere::new(Vec3::new(3 * ONE, -2 * ONE, 5 * ONE), ONE);
    let original = sphere;
    let t = Matrix4x4::new([
        [ONE, 0, 0, 10 * ONE],
        [0, ONE, 0, -4 * ONE],
        [0, 0, ONE, ONE],
        [0, 0, 0, ONE],
    ]);
    sphere.transform(&t);
    assert_eq!(Vec3::new(13 * ONE, -6 * ONE, 6 * ONE), sphere.center);
    sphere.transform(&t.inverse());
    assert_eq!(original, sphere);
}

#[test]
fn translation_round_trip_restores_the_triangle() {
    let mut tri = Triangle::new([
        Vec3::new(0, 0, 0),
        Vec3::new(4 * ONE, 0, 0),
        Vec3::new(0, 4 * ONE, 0),
    ]);
    let original = tri;
    let t = Matrix4x4::new([
        [ONE, 0, 0, 2 * ONE],
        [0, ONE, 0, 3 * ONE],
        [0, 0, ONE, -5 * ONE],
        [0, 0, 0, ONE],
    ]);
    tri.transform(&t);
    tri.transform(&t.inverse());
    assert_eq!(original, tri);
}

#[test]
fn ray_contains_is_half_open() {
    let ray = Ray::new(Vec3::new(0, 0, 0), Vec3::new(0, 0, ONE), ONE, 10 * ONE);
    assert!(ray.contains(ONE));
    assert!(ray.contains(10 * ONE - 1));
    assert!(!ray.contains(10 * ONE));
    assert!(!ray.contains(0));
}

#[test]
fn ray_offset_walks_the_direction() {
    let ray = Ray::new(Vec3::new(ONE, 0, 0), Vec3::new(0, ONE, 0), T_EPS, T_LIMIT);
    assert_eq!(Vec3::new(ONE, 3 * ONE, 0), ray.offset(3 * ONE));
}
