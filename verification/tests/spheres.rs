use raytracer::materials::Material;
use raytracer::rays::Ray;
use raytracer::scalar::Scalar;
use raytracer::spheres::Sphere;
use raytracer::transformations::{identity, scale, translation, SingularMatrix};
use raytracer::tuples::{point, vector, Tuple};

fn s(x: f32) -> Scalar {
    Scalar::from_bits(x.to_bits())
}

fn f(x: Scalar) -> f32 {
    f32::from_bits(x.to_bits())
}

fn pt(x: f32, y: f32, z: f32) -> Tuple {
    point(s(x), s(y), s(z))
}

fn vec3(x: f32, y: f32, z: f32) -> Tuple {
    vector(s(x), s(y), s(z))
}

fn near(a: Tuple, b: Tuple) -> bool {
    a.abs_diff_eq(&b, Tuple::default_epsilon())
}

#[test]
fn the_default_transformation_for_a_sphere_is_the_identity() {
    let sphere = Sphere::new();
    assert_eq!(sphere.transformation, identity());
}

#[test]
fn a_ray_intersects_a_sphere_in_two_points() {
    let ray = Ray { origin: pt(0.0, 0.0, -5.0), direction: vec3(0.0, 0.0, 1.0) };
    let sphere = Sphere::new();
    let intersections = sphere.intersect(&ray).unwrap();
    assert_eq!(intersections.len(), 2);
    assert_eq!(f(intersections[0].t), 4.0);
    assert_eq!(intersections[0].object, sphere);
    assert_eq!(f(intersections[1].t), 6.0);
    assert_eq!(intersections[1].object, sphere);
}

#[test]
fn a_ray_is_tangent_to_a_sphere() {
    let ray = Ray { origin: pt(0.0, 1.0, -5.0), direction: vec3(0.0, 0.0, 1.0) };
    let sphere = Sphere::new();
    let intersections = sphere.intersect(&ray).unwrap();
    assert_eq!(intersections.len(), 2);

    assert_eq!(f(intersections[0].t), 5.0);
    assert_eq!(intersections[0].object, sphere);

    assert_eq!(f(intersections[1].t), 5.0);
    assert_eq!(intersections[1].object, sphere);
}

#[test]
fn a_ray_misses_a_sphere() {
    let ray = Ray { origin: pt(0.0, 2.0, -5.0), direction: vec3(0.0, 0.0, 1.0) };
    let sphere = Sphere::new();
    let intersections = sphere.intersect(&ray).unwrap();
    assert_eq!(intersections.len(), 0);
}

#[test]
fn a_ray_originates_inside_a_sphere() {
    let ray = Ray { origin: pt(0.0, 0.0, 0.0), direction: vec3(0.0, 0.0, 1.0) };
    let sphere = Sphere::new();
    let intersections = sphere.intersect(&ray).unwrap();
    assert_eq!(intersections.len(), 2);

    assert_eq!(f(intersections[0].t), -1.0);
    assert_eq!(intersections[0].object, sphere);

    assert_eq!(f(intersections[1].t), 1.0);
    assert_eq!(intersections[1].object, sphere);
}

#[test]
fn the_sphere_is_behind_the_ray() {
    let ray = Ray { origin: pt(0.0, 0.0, 5.0), direction: vec3(0.0, 0.0, 1.0) };
    let sphere = Sphere::new();
    let intersections = sphere.intersect(&ray).unwrap();
    assert_eq!(intersections.len(), 2);
    assert_eq!(f(intersections[0].t), -6.0);
    assert_eq!(intersections[0].object, sphere);

    assert_eq!(f(intersections[1].t), -4.0);
    assert_eq!(intersections[1].object, sphere);
}

#[test]
fn intersecting_a_scaled_shpere_with_a_ray() {
    let ray = Ray { origin: pt(0.0, 0.0, -5.0), direction: vec3(0.0, 0.0, 1.0) };
    let mut sphere = Sphere::new();
    sphere.transformation = scale(s(2.0), s(2.0), s(2.0));
    let intersections = sphere.intersect(&ray).unwrap();
    assert_eq!(intersections.len(), 2);
    assert_eq!(f(intersections[0].t), 3.0);
    assert_eq!(f(intersections[1].t), 7.0);
}

#[test]
fn normal_at_x_axis() {
    let sphere = Sphere::new();
    assert!(near(sphere.normal_at(pt(1.0, 0.0, 0.0)).unwrap(), vec3(1.0, 0.0, 0.0)))
}

#[test]
fn normal_at_y_axis() {
    let sphere = Sphere::new();
    assert!(near(sphere.normal_at(pt(0.0, 1.0, 0.0)).unwrap(), vec3(0.0, 1.0, 0.0)))
}

#[test]
fn normal_at_z_axis() {
    let sphere = Sphere::new();
    assert!(near(sphere.normal_at(pt(0.0, 0.0, 1.0)).unwrap(), vec3(0.0, 0.0, 1.0)))
}

#[test]
fn normal_at_non_axial_point() {
    let sphere = Sphere::new();
    assert!(near(
        sphere
            .normal_at(pt(3.0_f32.sqrt() / 3.0, 3.0_f32.sqrt() / 3.0, 3.0_f32.sqrt() / 3.0))
            .unwrap(),
        vec3(3.0_f32.sqrt() / 3.0, 3.0_f32.sqrt() / 3.0, 3.0_f32.sqrt() / 3.0)
    ))
}

#[test]
fn normal_at_a_translated_sphere() {
    let mut sphere = Sphere::new();
    sphere.transformation = translation(s(0.0), s(1.0), s(0.0));
    // The point is given to five decimals, so the normal is a unit vector to
    // five decimals.
    assert!(sphere
        .normal_at(pt(0.0, 1.70711, -0.70711))
        .unwrap()
        .abs_diff_eq(&vec3(0.0, 0.70711, -0.70711), s(0.00001)))
}

#[test]
fn the_normal_is_a_unit_vector() {
    let mut sphere = Sphere::new();
    sphere.transformation = translation(s(0.0), s(1.0), s(0.0));
    let n = sphere.normal_at(pt(0.0, 1.70711, -0.70711)).unwrap();
    let x = 0.0_f32;
    let y = 1.70711_f32 - 1.0;
    let z = -0.70711_f32;
    let length = (x * x + y * y + z * z).sqrt();
    assert_eq!(f(n.x), x / length);
    assert_eq!(f(n.y), y / length);
    assert_eq!(f(n.z), z / length);
    assert_eq!(f(n.w), 0.0);
}

#[test]
fn normal_on_a_scaled_sphere() {
    let mut sphere = Sphere::new();
    sphere.transformation = scale(s(1.0), s(0.5), s(1.0));
    let half = 2.0_f32.sqrt() / 2.0;
    let n = sphere.normal_at(pt(0.0, half, -half)).unwrap();
    assert!(n.abs_diff_eq(&vec3(0.0, 0.97014, -0.24254), s(0.00001)));
}

#[test]
fn a_sphere_without_inverse_has_no_intersections_and_no_normal() {
    let ray = Ray { origin: pt(0.0, 0.0, -5.0), direction: vec3(0.0, 0.0, 1.0) };
    let mut sphere = Sphere::new();
    sphere.transformation = scale(s(0.0), s(1.0), s(1.0));
    assert_eq!(sphere.intersect(&ray).err(), Some(SingularMatrix));
    assert_eq!(sphere.normal_at(pt(1.0, 0.0, 0.0)), Err(SingularMatrix));
}

#[test]
fn intersecting_a_translated_sphere_with_a_ray() {
    let ray = Ray { origin: pt(0.0, 0.0, -5.0), direction: vec3(0.0, 0.0, 1.0) };
    let mut sphere = Sphere::new();
    sphere.transformation = translation(s(5.0), s(0.0), s(0.0));
    assert_eq!(sphere.intersect(&ray).unwrap().len(), 0);
    sphere.transformation = translation(s(0.0), s(0.0), s(2.0));
    let intersections = sphere.intersect(&ray).unwrap();
    assert_eq!(f(intersections[0].t), 6.0);
    assert_eq!(f(intersections[1].t), 8.0);
}

#[test]
fn the_roots_follow_the_formula() {
    let ray = Ray { origin: pt(0.25, -0.125, -3.0), direction: vec3(0.1, 0.05, 1.0) };
    let sphere = Sphere::new();
    let intersections = sphere.intersect(&ray).unwrap();
    let (ox, oy, oz) = (0.25_f32, -0.125_f32, -3.0_f32);
    let (dx, dy, dz) = (0.1_f32, 0.05_f32, 1.0_f32);
    let a = dx * dx + dy * dy + dz * dz + 0.0 * 0.0;
    let b = (dx * ox + dy * oy + dz * oz + 0.0 * 0.0) * 2.0;
    let c = (ox * ox + oy * oy + oz * oz + 0.0 * 0.0) - 1.0;
    let discriminant = b * b - 4.0 * a * c;
    assert!(discriminant > 0.0);
    assert_eq!(intersections.len(), 2);
    assert_eq!(f(intersections[0].t), (-b - discriminant.sqrt()) / (2.0 * a));
    assert_eq!(f(intersections[1].t), (-b + discriminant.sqrt()) / (2.0 * a));
    assert!(f(intersections[0].t) <= f(intersections[1].t));
}

#[test]
fn a_new_sphere_is_the_default_sphere() {
    assert_eq!(Sphere::new(), Sphere::default());
    assert_eq!(Sphere::new().material, Material::new());
}
