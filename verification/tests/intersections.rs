use raytracer::intersections::{hit, Intersection};
use raytracer::scalar::Scalar;
use raytracer::spheres::Sphere;
use raytracer::transformations::translation;

fn s(x: f32) -> Scalar {
    Scalar::from_bits(x.to_bits())
}

fn f(x: Scalar) -> f32 {
    f32::from_bits(x.to_bits())
}

fn at(t: f32) -> Intersection {
    Intersection { t: s(t), object: Sphere::new() }
}

#[test]
fn finds_hit_on_all_intersections_positive() {
    let intersections = vec![at(1.0), at(3.0)];
    assert_eq!(f(hit(intersections).unwrap().t), 1.0);
}

#[test]
fn finds_hit_on_some_intersections_negative() {
    let intersections = vec![at(1.0), at(-1.0)];
    assert_eq!(f(hit(intersections).unwrap().t), 1.0);
}

#[test]
fn does_not_find_hit_on_all_intersections_negative() {
    let intersections = vec![at(-4.0), at(-1.0)];
    assert!(hit(intersections).is_none());
}

#[test]
fn hit_picks_the_nearest_in_front() {
    assert_eq!(f(hit(vec![at(5.0), at(7.0)]).unwrap().t), 5.0);
    assert_eq!(f(hit(vec![at(-1.0), at(1.0)]).unwrap().t), 1.0);
    assert!(hit(vec![at(-2.0), at(-1.0)]).is_none());
}

#[test]
fn hit_of_nothing_is_nothing() {
    assert!(hit(vec![]).is_none());
}

#[test]
fn a_meeting_at_zero_is_no_hit() {
    assert!(hit(vec![at(0.0)]).is_none());
    assert!(hit(vec![at(-0.0), at(0.0)]).is_none());
    assert_eq!(f(hit(vec![at(0.0), at(2.0)]).unwrap().t), 2.0);
}

#[test]
fn hit_does_not_depend_on_the_order() {
    assert_eq!(f(hit(vec![at(5.0), at(7.0), at(-3.0), at(2.0)]).unwrap().t), 2.0);
    assert_eq!(f(hit(vec![at(2.0), at(-3.0), at(7.0), at(5.0)]).unwrap().t), 2.0);
    assert_eq!(f(hit(vec![at(7.0), at(5.0), at(2.0), at(-3.0)]).unwrap().t), 2.0);
}

#[test]
fn of_equal_distances_the_first_is_the_hit() {
    let mut first = Sphere::new();
    first.transformation = translation(s(1.0), s(0.0), s(0.0));
    let mut second = Sphere::new();
    second.transformation = translation(s(2.0), s(0.0), s(0.0));
    let found = hit(vec![
        Intersection { t: s(9.0), object: Sphere::new() },
        Intersection { t: s(4.0), object: first },
        Intersection { t: s(4.0), object: second },
    ])
    .unwrap();
    assert_eq!(f(found.t), 4.0);
    assert_eq!(found.object, first);
}

#[test]
fn what_is_no_number_is_no_hit() {
    assert!(hit(vec![at(f32::NAN)]).is_none());
    assert_eq!(f(hit(vec![at(f32::NAN), at(3.0), at(f32::NAN)]).unwrap().t), 3.0);
    assert_eq!(f(hit(vec![at(f32::INFINITY), at(3.0)]).unwrap().t), 3.0);
    assert_eq!(f(hit(vec![at(f32::INFINITY)]).unwrap().t), f32::INFINITY);
    assert!(hit(vec![at(f32::NEG_INFINITY)]).is_none());
}

#[test]
fn the_smallest_positive_number_is_a_hit() {
    assert_eq!(hit(vec![at(1.0), Intersection { t: Scalar::from_bits(1), object: Sphere::new() }])
        .unwrap()
        .t
        .to_bits(), 1);
}
