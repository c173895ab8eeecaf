use photon::fixed::ONE;
use photon::ray::{Ray, T_LIMIT};
use photon::transform::Transform;
use photon::matrix::Matrix4x4;
use photon::vec3::Vec3;
use photon::vec4::Vec4;

#[test]
fn mul_matrix_vec() {
    let matrix = &Matrix4x4::new([
        [ONE, 0, 0, 10 * ONE],
        [0, ONE, 0, 0],
        [0, 0, ONE, 0],
        [0, 0, 0, ONE],
    ]);
    let vec = Vec4::new(10 * ONE, 10 * ONE, 10 * ONE, ONE);

    assert_eq!(Vec4::new(20 * ONE, 10 * ONE, 10 * ONE, ONE), matrix.mul_vec(&vec));
}

#[test]
fn inverse_identity() {
    let i = Matrix4x4::identity();
    assert_eq!(i, i.inverse());
}

#[test]
fn translation_inverse_is_opposite_translation() {
    let t = Matrix4x4::new([
        [ONE, 0, 0, 7 * ONE],
        [0, ONE, 0, -3 * ONE],
        [0, 0, ONE, ONE / 2],
        [0, 0, 0, ONE],
    ]);
    let expected = Matrix4x4::new([
        [ONE, 0, 0, -7 * ONE],
        [0, ONE, 0, 3 * ONE],
        [0, 0, ONE, -(ONE / 2)],
        [0, 0, 0, ONE],
    ]);
    assert_eq!(expected, t.inverse());
}

#[test]
fn matrix_composition_applies_right_then_left() {
    let shift_x = Matrix4x4::new([
        [ONE, 0, 0, 2 * ONE],
        [0, ONE, 0, 0],
        [0, 0, ONE, 0],
        [0, 0, 0, ONE],
    ]);
    let shift_y = Matrix4x4::new([
        [ONE, 0, 0, 0],
        [0, ONE, 0, 5 * ONE],
        [0, 0, ONE, 0],
        [0, 0, 0, ONE],
    ]);
    let both = shift_x.mul_mat(&shift_y);
    let v = Vec4::new(ONE, ONE, ONE, ONE);
    assert_eq!(Vec4::new(3 * ONE, 6 * ONE, ONE, ONE), both.mul_vec(&v));
}

#[test]
fn transform_normal_uses_the_transpose() {
    let m = Matrix4x4::new([
        [0, ONE, 0, 0],
        [2 * ONE, 0, 0, 0],
        [0, 0, ONE, 0],
        [0, 0, 0, ONE],
    ]);
    let n = Vec3::new(3 * ONE, 4 * ONE, 5 * ONE);
    // Columns of `m` become rows: (0, 2, 0), (1, 0, 0), (0, 0, 1).
    let out = Matrix4x4::transform_normal(&n, m);
    assert_eq!(Vec3::new(8 * ONE, 3 * ONE, 5 * ONE), out);
}

#[test]
fn identity_determinant_is_one() {
    assert_eq!(ONE, Matrix4x4::identity().det());
}

#[test]
fn ray_transform_carries_both_points() {
    let mut ray = Ray::new(Vec3::new(ONE, 0, 0), Vec3::new(0, ONE, 0), 0, T_LIMIT);
    let shift = Matrix4x4::new([
        [ONE, 0, 0, 3 * ONE],
        [0, ONE, 0, 0],
        [0, 0, ONE, 0],
        [0, 0, 0, ONE],
    ]);
    ray.transform(&shift);
    // Origin and direction both travel as homogeneous points with
    // weight ONE, so the translation reaches the direction too.
    assert_eq!(Vec3::new(4 * ONE, 0, 0), ray.origin());
    assert_eq!(Vec3::new(3 * ONE, ONE, 0), ray.direction());
    assert!(ray.contains(ONE));
}

#[test]
fn vec3_dot_and_scale() {
    let a = Vec3::new(ONE, 2 * ONE, 3 * ONE);
    let b = Vec3::new(4 * ONE, -5 * ONE, 6 * ONE);
    assert_eq!(12 * ONE, a.dot(&b));
    assert_eq!(Vec3::new(2 * ONE, 4 * ONE, 6 * ONE), a.scale(2 * ONE));
    assert_eq!(Vec3::new(5 * ONE, -3 * ONE, 9 * ONE), a.add(&b));
    assert_eq!(Vec3::new(-3 * ONE, 7 * ONE, -3 * ONE), a.sub(&b));
    assert_eq!(Vec3::new(-ONE, -2 * ONE, -3 * ONE), a.inverse());
}

#[test]
fn vec3_len_and_unit() {
    let v = Vec3::new(3 * ONE, 4 * ONE, 0);
    assert_eq!(5 * ONE, v.len());
    let u = v.unit();
    // 3/5 and 4/5, truncated at the fixed-point scale.
    assert_eq!(Vec3::new(3 * ONE / 5, 4 * ONE / 5, 0), u);
}

#[test]
fn negative_components_round_toward_zero() {
    // Fixed-point rounding truncates toward zero, also below zero.
    let v = Vec3::new(-5, 0, 0);
    assert_eq!(Vec3::new(-2, 0, 0), v.scale(ONE / 2));
    let w = Vec3::new(-3 * ONE, 4 * ONE, 0);
    assert_eq!(5 * ONE, w.len());
    assert_eq!(Vec3::new(-(3 * ONE / 5), 4 * ONE / 5, 0), w.unit());
}

#[test]
fn vec3_cross_follows_the_right_hand_rule() {
    let x = Vec3::new(ONE, 0, 0);
    let y = Vec3::new(0, ONE, 0);
    assert_eq!(Vec3::new(0, 0, ONE), x.cross(&y));
    assert_eq!(Vec3::new(0, 0, -ONE), y.cross(&x));
}

#[test]
fn vec4_accessors_and_sum() {
    let v = Vec4::new(ONE, 2 * ONE, 3 * ONE, ONE);
    assert_eq!(ONE, v.x());
    assert_eq!(2 * ONE, v.y());
    assert_eq!(3 * ONE, v.z());
    assert_eq!(ONE, v.w());
    assert_eq!(7 * ONE, v.sum());
    assert_eq!(Vec3::new(ONE, 2 * ONE, 3 * ONE), v.to_vec3());
    assert_eq!(v, Vec4::from_vec3(&v.to_vec3()));
}
