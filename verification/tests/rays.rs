use raytracer::rays::Ray;
use raytracer::scalar::Scalar;
use raytracer::transformations::{scale, translation};
use raytracer::tuples::{point, vector, Tuple};

fn s(x: f32) -> Scalar {
    Scalar::from_bits(x.to_bits())
}

fn pt(x: f32, y: f32, z: f32) -> Tuple {
    point(s(x), s(y), s(z))
}

fn vec3(x: f32, y: f32, z: f32) -> Tuple {
    vector(s(x), s(y), s(z))
}

fn near(a: Tuple, b: Tuple) -> bool {
    a.abs_diff_eq(&b, Tuple::default_epsilon())
}

#[test]
fn computing_a_point_from_a_0_distance() {
    let ray = Ray { origin: pt(2.0, 3.0, 4.0), direction: vec3(1.0, 0.0, 0.0) };
    assert!(near(ray.position(s(0.0)), pt(2.0, 3.0, 4.0)));
}

#[test]
fn computing_a_point_from_a_float_distance() {
    let ray = Ray { origin: pt(2.0, 3.0, 4.0), direction: vec3(1.0, 0.0, 0.0) };
    assert!(near(ray.position(s(2.5)), pt(4.5, 3.0, 4.0)));
}

#[test]
fn translating_a_ray() {
    let ray = Ray { origin: pt(1.0, 2.0, 3.0), direction: vec3(0.0, 1.0, 0.0) };
    let transformed_ray = ray.transform(translation(s(3.0), s(4.0), s(5.0)));
    assert!(near(transformed_ray.origin, pt(4.0, 6.0, 8.0)));
    assert!(near(transformed_ray.direction, vec3(0.0, 1.0, 0.0)));
}

#[test]
fn scaling_a_ray() {
    let ray = Ray { origin: pt(1.0, 2.0, 3.0), direction: vec3(0.0, 1.0, 0.0) };
    let transformed_ray = ray.transform(scale(s(2.0), s(3.0), s(4.0)));
    assert!(near(transformed_ray.origin, pt(2.0, 6.0, 12.0)));
    assert!(near(transformed_ray.direction, vec3(0.0, 3.0, 0.0)));
}

#[test]
fn position_is_origin_plus_direction_times_t() {
    let ray = Ray { origin: pt(0.1, -0.2, 0.3), direction: vec3(0.7, 0.11, -1.3) };
    let p = ray.position(s(3.7));
    assert_eq!(f32::from_bits(p.x.to_bits()), 0.1_f32 + 0.7_f32 * 3.7_f32);
    assert_eq!(f32::from_bits(p.y.to_bits()), -0.2_f32 + 0.11_f32 * 3.7_f32);
    assert_eq!(f32::from_bits(p.z.to_bits()), 0.3_f32 + -1.3_f32 * 3.7_f32);
    assert_eq!(f32::from_bits(p.w.to_bits()), 1.0);
}

#[test]
fn transforming_a_ray_leaves_it_as_it_was() {
    let ray = Ray { origin: pt(1.0, 2.0, 3.0), direction: vec3(0.0, 1.0, 0.0) };
    let moved = ray.transform(translation(s(3.0), s(4.0), s(5.0)));
    assert_eq!(ray, Ray { origin: pt(1.0, 2.0, 3.0), direction: vec3(0.0, 1.0, 0.0) });
    assert_ne!(moved, ray);
}

#[test]
fn negative_distances_lie_behind_the_origin() {
    let ray = Ray { origin: pt(2.0, 3.0, 4.0), direction: vec3(1.0, 0.0, 0.0) };
    assert_eq!(ray.position(s(-1.0)), pt(1.0, 3.0, 4.0));
}
