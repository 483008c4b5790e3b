use approx::AbsDiffEq;
use raytracer::scalar::Scalar;
use raytracer::tuples::{
    add, cross, div, dot, magnitude, mul, negate, normalize, point, reflect, sub, vector, Tuple,
};

fn s(x: f32) -> Scalar {
    Scalar::from_bits(x.to_bits())
}

fn f(x: Scalar) -> f32 {
    f32::from_bits(x.to_bits())
}

fn tuple(x: f32, y: f32, z: f32, w: f32) -> Tuple {
    Tuple { x: s(x), y: s(y), z: s(z), w: s(w) }
}

fn vec3(x: f32, y: f32, z: f32) -> Tuple {
    vector(s(x), s(y), s(z))
}

fn close(a: f32, b: f32) -> bool {
    f32::abs_diff_eq(&a, &b, f32::default_epsilon())
}

#[test]
fn a_vector_has_w_0() {
    assert_eq!(f(vector(s(1.0), s(1.1), s(1.2)).w), 0.0)
}

#[test]
fn a_point_has_w_1() {
    assert_eq!(f(point(s(1.0), s(1.1), s(1.2)).w), 1.0)
}

#[test]
fn adding_tuples() {
    assert_eq!(
        add(&tuple(1.0, 2.0, 3.0, 1.0), &tuple(4.0, 5.0, 0.0, 3.0)),
        tuple(5.0, 7.0, 3.0, 4.0)
    )
}

#[test]
fn substracting_tuples() {
    assert_eq!(
        sub(&tuple(1.0, 2.0, 3.0, 1.0), &tuple(4.0, 5.0, 0.0, 3.0)),
        tuple(-3.0, -3.0, 3.0, -2.0)
    )
}

#[test]
fn negating_tuples() {
    assert_eq!(negate(&tuple(1.0, 2.0, 3.0, 1.0)), tuple(-1.0, -2.0, -3.0, -1.0))
}

#[test]
fn multiplying_tuples_by_scalars() {
    assert_eq!(mul(&tuple(1.0, 2.0, 3.0, 1.0), s(2.0)), tuple(2.0, 4.0, 6.0, 2.0))
}

#[test]
fn dividing_tuples_by_scalars() {
    assert_eq!(div(&tuple(2.0, 4.0, 6.0, 2.0), s(2.0)), tuple(1.0, 2.0, 3.0, 1.0))
}

#[test]
fn magnitude_of_a_unit_vector() {
    assert!(close(f(magnitude(&vec3(1.0, 0.0, 0.0))), 1.0));
}

#[test]
fn magnitude_of_a_negative_vector() {
    assert_eq!(f(magnitude(&vec3(-1.0, -2.0, -3.0))), 14.0_f32.sqrt());
}

#[test]
fn magnitude_of_a_normalized_vector_is_1() {
    assert!(close(f(magnitude(&normalize(&vec3(-1.0, -2.0, -3.0)))), 1.0));
}

#[test]
fn dot_product_of_two_tuples() {
    assert!(close(f(dot(&vec3(1.0, 2.0, 3.0), &vec3(2.0, 3.0, 4.0))), 20.0));
}

#[test]
fn cross_product_of_two_vectors() {
    let cross_vector = cross(&vec3(1.0, 2.0, 3.0), &vec3(2.0, 3.0, 4.0));
    assert!(cross_vector.abs_diff_eq(&vec3(-1.0, 2.0, -1.0), Tuple::default_epsilon()));
}

#[test]
fn reflecting_a_vector() {
    let vector_to_reflect = vec3(1.0, -1.0, 0.0);
    let normal = vec3(0.0, 1.0, 0.0);
    assert!(reflect(&vector_to_reflect, &normal)
        .abs_diff_eq(&vec3(1.0, 1.0, 0.0), Tuple::default_epsilon()));
}

#[test]
fn reflecting_on_a_slanted_surface() {
    let vector_to_reflect = vec3(0.0, -1.0, 0.0);
    let normal = vec3(2.0_f32.sqrt() / 2.0, 2.0_f32.sqrt() / 2.0, 0.0);
    assert!(reflect(&vector_to_reflect, &normal)
        .abs_diff_eq(&vec3(1.0, 0.0, 0.0), Tuple::default_epsilon()));
}

#[test]
fn getters_return_the_components() {
    let t = tuple(1.5, -2.5, 3.25, 1.0);
    assert_eq!(f(t.x()), 1.5);
    assert_eq!(f(t.y()), -2.5);
    assert_eq!(f(t.z()), 3.25);
    assert_eq!(f(t.w()), 1.0);
}

#[test]
fn tuple_operations_agree_with_the_machine() {
    let a = [0.3_f32, -1.7, 2.9, 1.0];
    let b = [4.1_f32, 0.6, -0.2, 0.0];
    let ta = tuple(a[0], a[1], a[2], a[3]);
    let tb = tuple(b[0], b[1], b[2], b[3]);
    let expected_dot = a[0] * b[0] + a[1] * b[1] + a[2] * b[2] + a[3] * b[3];
    assert_eq!(f(dot(&ta, &tb)), expected_dot);
    let expected_magnitude = (a[0] * a[0] + a[1] * a[1] + a[2] * a[2]).sqrt();
    assert_eq!(f(magnitude(&ta)), expected_magnitude);
    let unit = normalize(&ta);
    assert_eq!(f(unit.x), a[0] / expected_magnitude);
    assert_eq!(f(unit.y), a[1] / expected_magnitude);
    assert_eq!(f(unit.z), a[2] / expected_magnitude);
    assert_eq!(f(unit.w), a[3] / expected_magnitude);
    let c = cross(&ta, &tb);
    assert_eq!(f(c.x), a[1] * b[2] - a[2] * b[1]);
    assert_eq!(f(c.y), a[2] * b[0] - a[0] * b[2]);
    assert_eq!(f(c.z), a[0] * b[1] - a[1] * b[0]);
    assert_eq!(f(c.w), 0.0);
    let r = reflect(&ta, &tb);
    assert_eq!(f(r.x), a[0] - (b[0] * expected_dot) * 2.0);
    assert_eq!(f(r.y), a[1] - (b[1] * expected_dot) * 2.0);
}

#[test]
fn magnitude_does_not_count_w() {
    assert_eq!(f(magnitude(&tuple(3.0, 4.0, 0.0, 100.0))), 5.0);
}

#[test]
fn normalizing_the_zero_vector_gives_no_numbers() {
    let unit = normalize(&vec3(0.0, 0.0, 0.0));
    assert!(f(unit.x).is_nan());
    assert!(f(unit.w).is_nan());
}

#[test]
fn equality_is_that_of_the_numbers() {
    assert_eq!(tuple(0.0, 1.0, 2.0, 0.0), tuple(-0.0, 1.0, 2.0, 0.0));
    assert_ne!(tuple(f32::NAN, 1.0, 2.0, 0.0), tuple(f32::NAN, 1.0, 2.0, 0.0));
    assert_ne!(tuple(0.0, 1.0, 2.0, 0.0), tuple(0.0, 1.0, 2.0, 1.0));
}

#[test]
fn abs_diff_eq_agrees_with_approx() {
    let pairs = [
        (1.0_f32, 1.0_f32),
        (1.0, 1.000_000_1),
        (1.0, 1.000_000_2),
        (1.0, 1.000_000_3),
        (0.0, -0.0),
        (0.0, 1.0e-7),
        (0.0, 1.3e-7),
        (-5.0, -5.000_000_5),
        (f32::NAN, 1.0),
        (f32::INFINITY, f32::INFINITY),
    ];
    for (a, b) in pairs {
        let expected = f32::abs_diff_eq(&a, &b, f32::default_epsilon());
        let ours = vec3(a, 0.0, 0.0).abs_diff_eq(&vec3(b, 0.0, 0.0), Tuple::default_epsilon());
        assert_eq!(ours, expected, "{} {}", a, b);
    }
    assert_eq!(f(Tuple::default_epsilon()), f32::default_epsilon());
}
