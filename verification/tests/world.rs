use raytracer::intersections::hit;
use raytracer::rays::Ray;
use raytracer::scalar::Scalar;
use raytracer::spheres::Sphere;
use raytracer::transformations::{scale, translation, SingularMatrix};
use raytracer::tuples::{point, vector, Tuple};
use raytracer::world::{intersect_all, surface_at};

fn s(x: f32) -> Scalar {
    Scalar::from_bits(x.to_bits())
}

fn f(x: Scalar) -> f32 {
    f32::from_bits(x.to_bits())
}

fn pt(x: f32, y: f32, z: f32) -> Tuple {
    point(s(x), s(y), s(z))
}

fn vec3(x: f32, y: f32, z: f32) -> Tuple {
    vector(s(x), s(y), s(z))
}

fn sphere_at(z: f32) -> Sphere {
    let mut sphere = Sphere::new();
    sphere.transformation = translation(s(0.0), s(0.0), s(z));
    sphere
}

fn forward() -> Ray {
    Ray { origin: pt(0.0, 0.0, -5.0), direction: vec3(0.0, 0.0, 1.0) }
}

#[test]
fn without_spheres_a_ray_meets_nothing() {
    assert_eq!(intersect_all(&vec![], &forward()).unwrap().len(), 0);
}

#[test]
fn the_meetings_with_all_spheres_come_sphere_after_sphere() {
    let spheres = vec![sphere_at(10.0), sphere_at(0.0), Sphere::new()];
    let found = intersect_all(&spheres, &forward()).unwrap();
    let distances: Vec<f32> = found.iter().map(|m| f(m.t)).collect();
    assert_eq!(distances, vec![14.0, 16.0, 4.0, 6.0, 4.0, 6.0]);
    assert_eq!(found[0].object, spheres[0]);
    assert_eq!(found[1].object, spheres[0]);
    assert_eq!(found[2].object, spheres[1]);
    assert_eq!(found[5].object, spheres[2]);
}

#[test]
fn a_sphere_that_is_missed_adds_nothing() {
    let mut aside = Sphere::new();
    aside.transformation = translation(s(5.0), s(0.0), s(0.0));
    let spheres = vec![aside, sphere_at(3.0), aside];
    let found = intersect_all(&spheres, &forward()).unwrap();
    assert_eq!(found.len(), 2);
    assert_eq!(f(found[0].t), 7.0);
    assert_eq!(f(found[1].t), 9.0);
}

#[test]
fn the_nearest_of_all_spheres_is_seen() {
    let spheres = vec![sphere_at(10.0), sphere_at(2.0), sphere_at(-20.0)];
    let seen = hit(intersect_all(&spheres, &forward()).unwrap()).unwrap();
    assert_eq!(f(seen.t), 6.0);
    assert_eq!(seen.object, spheres[1]);
}

#[test]
fn one_sphere_without_inverse_fails_them_all() {
    let mut flat = Sphere::new();
    flat.transformation = scale(s(1.0), s(0.0), s(1.0));
    assert_eq!(
        intersect_all(&vec![Sphere::new(), flat], &forward()).err(),
        Some(SingularMatrix)
    );
    assert_eq!(
        intersect_all(&vec![flat, Sphere::new()], &forward()).err(),
        Some(SingularMatrix)
    );
}

#[test]
fn the_surface_at_a_hit() {
    let ray = forward();
    let seen = hit(Sphere::new().intersect(&ray).unwrap()).unwrap();
    let surface = surface_at(&ray, &seen).unwrap();
    assert_eq!(surface.point, pt(0.0, 0.0, -1.0));
    assert_eq!(surface.eye, vec3(0.0, 0.0, -1.0));
    assert_eq!(surface.normal, vec3(0.0, 0.0, -1.0));
    assert_eq!(surface.material, Sphere::new().material);
}

#[test]
fn no_surface_on_a_sphere_without_inverse() {
    let mut flat = Sphere::new();
    flat.transformation = scale(s(1.0), s(0.0), s(1.0));
    let meeting = raytracer::intersections::Intersection { t: s(1.0), object: flat };
    assert_eq!(surface_at(&forward(), &meeting).err(), Some(SingularMatrix));
}

#[test]
fn whole_numbers_become_the_numbers_the_machine_casts_them_to() {
    for n in 0..5000u32 {
        assert_eq!(f(Scalar::from_u32(n)), n as f32);
    }
    let mut n: u32 = 1;
    for _ in 0..40000 {
        n = n.wrapping_mul(2654435761).wrapping_add(12345);
        assert_eq!(f(Scalar::from_u32(n)), n as f32, "{}", n);
        let small = n >> (n % 32);
        assert_eq!(f(Scalar::from_u32(small)), small as f32, "{}", small);
    }
    for n in [16777215u32, 16777216, 16777217, 16777218, 16777219, 33554431, u32::MAX, u32::MAX - 127, u32::MAX - 128] {
        assert_eq!(f(Scalar::from_u32(n)), n as f32, "{}", n);
    }
}
