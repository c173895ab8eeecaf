use photon::fixed::ONE;
use photon::geometry::{Geometry, Plane, Sphere};
use photon::ray::{Ray, T_LIMIT};
use photon::scene::{Material, Model, PointLight, Rgb, Scene, T_EPS};
use photon::vec3::Vec3;

fn matte(color: Rgb) -> Material {
    Material { color, reflective: 0 }
}

#[test]
fn empty_scene_traces_to_background() {
    let scene = Scene::new(Rgb::new(30, 30, 30));
    let ray = Ray::new(Vec3::new(0, 0, -2 * ONE), Vec3::new(ONE, ONE, 3 * ONE), T_EPS, T_LIMIT);
    assert_eq!(Rgb::new(30, 30, 30), scene.trace(&ray));
    assert!(scene.closest_intersection(&ray).is_none());
}

#[test]
fn closest_intersection_picks_the_nearer_sphere() {
    let mut scene = Scene::new(Rgb::new(0, 0, 0));
    scene.objects.push(Model {
        geometry: Geometry::Sphere(Sphere::new(Vec3::new(0, 0, 12 * ONE), 2 * ONE)),
        material: matte(Rgb::new(10, 10, 10)),
    });
    scene.objects.push(Model {
        geometry: Geometry::Sphere(Sphere::new(Vec3::new(0, 0, 10 * ONE), 2 * ONE)),
        material: matte(Rgb::new(200, 200, 200)),
    });
    let ray = Ray::new(Vec3::new(0, 0, 0), Vec3::new(0, 0, ONE), T_EPS, T_LIMIT);
    let (idx, hit) = scene.closest_intersection(&ray).expect("both spheres face the ray");
    // The nearer sphere is the second model: never the farther one.
    assert_eq!(1, idx);
    assert_eq!(8 * ONE, hit.t);
}

#[test]
fn fully_lit_surface_keeps_its_color() {
    let mut scene = Scene::new(Rgb::new(0, 0, 0));
    scene.objects.push(Model {
        geometry: Geometry::Plane(Plane::new(Vec3::new(0, -ONE, 0), Vec3::new(0, ONE, 0))),
        material: matte(Rgb::new(100, 200, 60)),
    });
    scene.lights.push(PointLight { intensity: ONE, position: Vec3::new(0, 4 * ONE, 0) });
    let ray = Ray::new(Vec3::new(0, 5 * ONE, 0), Vec3::new(0, -ONE, 0), T_EPS, T_LIMIT);
    assert_eq!(Rgb::new(100, 200, 60), scene.trace(&ray));
}

#[test]
fn occluder_casts_a_hard_shadow() {
    let mut scene = Scene::new(Rgb::new(0, 0, 0));
    scene.objects.push(Model {
        geometry: Geometry::Plane(Plane::new(Vec3::new(0, -ONE, 0), Vec3::new(0, ONE, 0))),
        material: matte(Rgb::new(100, 200, 60)),
    });
    // An occluder halfway between the lit point and the light.
    scene.objects.push(Model {
        geometry: Geometry::Sphere(Sphere::new(Vec3::new(2 * ONE, 3 * ONE / 2, 0), ONE)),
        material: matte(Rgb::new(50, 50, 50)),
    });
    scene.lights.push(PointLight { intensity: ONE, position: Vec3::new(0, 4 * ONE, 0) });
    let ray = Ray::new(Vec3::new(4 * ONE, 5 * ONE, 0), Vec3::new(0, -ONE, 0), T_EPS, T_LIMIT);
    // The primary ray misses the sphere; the shadow ray runs straight
    // through its center.
    let traced = scene.trace(&ray);
    assert_eq!(Rgb::new(0, 0, 0), traced);
}

#[test]
fn zero_reflectivity_ignores_the_depth_limit() {
    let mut scene = Scene::new(Rgb::new(15, 25, 35));
    scene.objects.push(Model {
        geometry: Geometry::Sphere(Sphere::new(Vec3::new(0, 0, 10 * ONE), 2 * ONE)),
        material: matte(Rgb::new(90, 120, 150)),
    });
    scene.lights.push(PointLight { intensity: ONE, position: Vec3::new(0, 0, 0) });
    let ray = Ray::new(Vec3::new(0, 0, 0), Vec3::new(0, 0, ONE), T_EPS, T_LIMIT);
    let shallow = scene.trace_limited(&ray, 0);
    let deep = scene.trace_limited(&ray, 7);
    assert_eq!(shallow, deep);
    assert_eq!(shallow, scene.trace(&ray));
}

#[test]
fn reflection_blends_with_the_background() {
    let mut scene = Scene::new(Rgb::new(40, 60, 80));
    scene.objects.push(Model {
        geometry: Geometry::Sphere(Sphere::new(Vec3::new(0, 0, 10 * ONE), 2 * ONE)),
        material: Material { color: Rgb::new(100, 100, 100), reflective: ONE / 2 },
    });
    let ray = Ray::new(Vec3::new(0, 0, 0), Vec3::new(0, 0, ONE), T_EPS, T_LIMIT);
    // No lights: the local color shades to black, and the mirror ray
    // escapes to the background; half of each channel remains.
    assert_eq!(Rgb::new(20, 30, 40), scene.trace(&ray));
}

#[test]
fn unlit_surface_is_black() {
    let mut scene = Scene::new(Rgb::new(1, 2, 3));
    scene.objects.push(Model {
        geometry: Geometry::Sphere(Sphere::new(Vec3::new(0, 0, 10 * ONE), 2 * ONE)),
        material: matte(Rgb::new(255, 255, 255)),
    });
    let ray = Ray::new(Vec3::new(0, 0, 0), Vec3::new(0, 0, ONE), T_EPS, T_LIMIT);
    assert_eq!(Rgb::new(0, 0, 0), scene.trace(&ray));
}

#[test]
fn light_behind_the_surface_adds_nothing() {
    let mut scene = Scene::new(Rgb::new(0, 0, 0));
    scene.objects.push(Model {
        geometry: Geometry::Plane(Plane::new(Vec3::new(0, -ONE, 0), Vec3::new(0, ONE, 0))),
        material: matte(Rgb::new(100, 100, 100)),
    });
    // Below the plane: the Lambertian term is negative and clamps to
    // zero.
    scene.lights.push(PointLight { intensity: ONE, position: Vec3::new(0, -6 * ONE, 0) });
    let ray = Ray::new(Vec3::new(0, 5 * ONE, 0), Vec3::new(0, -ONE, 0), T_EPS, T_LIMIT);
    assert_eq!(Rgb::new(0, 0, 0), scene.trace(&ray));
}

#[test]
fn scene_wf_check_accepts_and_rejects() {
    let mut scene = Scene::new(Rgb::new(0, 0, 0));
    scene.objects.push(Model {
        geometry: Geometry::Sphere(Sphere::new(Vec3::new(0, 0, 10 * ONE), 2 * ONE)),
        material: matte(Rgb::new(90, 120, 150)),
    });
    scene.lights.push(PointLight { intensity: ONE, position: Vec3::new(0, 0, 0) });
    assert!(scene.is_wf());
    scene.objects.push(Model {
        geometry: Geometry::Sphere(Sphere::new(Vec3::new(0, 0, 0), -ONE)),
        material: matte(Rgb::new(0, 0, 0)),
    });
    assert!(!scene.is_wf());
}
