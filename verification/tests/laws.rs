//! The laws of the library on chosen and on random values.

use raytracer::rays::Ray;
use raytracer::scalar::Scalar;
use raytracer::spheres::Sphere;
use raytracer::transformations::{identity, scale, translation, Transformation};
use raytracer::tuples::{dot, magnitude, normalize, point, reflect, vector, Tuple};

struct Numbers {
    state: u64,
}

impl Numbers {
    fn new(seed: u64) -> Numbers {
        Numbers { state: seed }
    }

    fn next_bits(&mut self) -> u32 {
        self.state = self
            .state
            .wrapping_mul(6364136223846793005)
            .wrapping_add(1442695040888963407);
        (self.state >> 32) as u32
    }

    /// A number between -`size` and `size`.
    fn next(&mut self, size: f32) -> f32 {
        let unit = (self.next_bits() >> 8) as f32 / (1u32 << 24) as f32;
        (2.0 * unit - 1.0) * size
    }
}

fn s(x: f32) -> Scalar {
    Scalar::from_bits(x.to_bits())
}

fn f(x: Scalar) -> f32 {
    f32::from_bits(x.to_bits())
}

fn vec3(x: f32, y: f32, z: f32) -> Tuple {
    vector(s(x), s(y), s(z))
}

#[test]
fn normalized_vectors_have_length_one() {
    let mut numbers = Numbers::new(0x1111_2222_3333_4445);
    let bound = 1.0 / (1u32 << 20) as f64;
    for round in 0..5000 {
        let size = [1.0e-15_f32, 1.0e-3, 1.0, 1.0e3, 1.0e15][round % 5];
        let v = vec3(numbers.next(size), numbers.next(size), numbers.next(size));
        if f(magnitude(&v)) < 2.0e-18 {
            continue;
        }
        let length = f(magnitude(&normalize(&v))) as f64;
        assert!((length - 1.0).abs() <= bound, "{:?}", v);
    }
    for v in [vec3(1.0, 0.0, 0.0), vec3(0.0, -1.0, 0.0), vec3(0.0, 0.0, 1.0)] {
        assert_eq!(normalize(&v), v);
        assert_eq!(f(magnitude(&normalize(&v))), 1.0);
    }
}

#[test]
fn the_dot_product_with_itself_is_the_square_of_the_length() {
    let mut numbers = Numbers::new(0x0bad_cafe_dead_beef);
    for round in 0..5000 {
        let size = [1.0e-6_f32, 1.0, 1.0e6][round % 3];
        let v = vec3(numbers.next(size), numbers.next(size), numbers.next(size));
        let square = f(dot(&v, &v));
        let length = magnitude(&v);
        assert_eq!(f(length), square.sqrt());
        let again = f(length.mul(length)) as f64;
        let square = square as f64;
        assert!((again - square).abs() <= 4.0 * square / (1u32 << 24) as f64 + 1.0e-45);
    }
    // an equality it is not: the length is rounded
    let v = vec3(1.0, 1.0, 0.0);
    let length = magnitude(&v);
    assert_eq!(f(dot(&v, &v)), 2.0);
    assert_ne!(f(length.mul(length)), 2.0);
}

#[test]
fn a_composed_translation_there_and_back_moves_no_point() {
    let mut numbers = Numbers::new(0x7777_0000_7777_0001);
    for round in 0..2000 {
        let size = [1.0e-6_f32, 1.0, 1.0e6, 1.0e30][round % 4];
        let (a, b, c) = (numbers.next(size), numbers.next(size), numbers.next(size));
        let p = point(s(numbers.next(10.0)), s(numbers.next(10.0)), s(numbers.next(10.0)));
        let there = translation(s(a), s(b), s(c));
        let back = translation(s(-a), s(-b), s(-c));
        assert_eq!(p.transform(there.compose(&back)), p);
        assert_eq!(there.compose(&back), identity());
    }
}

#[test]
fn translating_step_by_step_may_lose_the_point() {
    // 1 + 2^25 is no binary32 number, so the way there rounds the point off
    let p = point(s(1.0), s(0.0), s(0.0));
    let far = 33554432.0_f32;
    let there = translation(s(far), s(0.0), s(0.0));
    let back = translation(s(-far), s(0.0), s(0.0));
    assert_eq!(f(p.transform(there).transform(back).x), 0.0);
    assert_eq!(p.transform(there.compose(&back)), p);
}

#[test]
fn inverting_a_translation_twice_gives_it_back() {
    let mut numbers = Numbers::new(0x4242_4242_4242_4243);
    for round in 0..500 {
        let size = [1.0e-6_f32, 1.0, 1.0e6, 1.0e30][round % 4];
        let (a, b, c) = (numbers.next(size), numbers.next(size), numbers.next(size));
        let there = translation(s(a), s(b), s(c));
        let back = there.inverse().unwrap();
        assert_eq!(back, translation(s(-a), s(-b), s(-c)));
        assert_eq!(back.inverse().unwrap(), there);
    }
}

#[test]
fn inverting_twice_is_close_for_scalings() {
    let m = scale(s(3.0), s(7.0), s(0.1));
    let back = m.inverse().unwrap().inverse().unwrap();
    assert!((f(back.get(0, 0)) - 3.0).abs() <= 1.0e-6);
    assert!((f(back.get(1, 1)) - 7.0).abs() <= 1.0e-6);
    assert!((f(back.get(2, 2)) - 0.1).abs() <= 1.0e-6);
    assert_eq!(f(back.get(3, 3)), 1.0);
}

#[test]
fn the_identity_is_neutral() {
    let mut numbers = Numbers::new(0x9999_aaaa_bbbb_cccd);
    for _ in 0..500 {
        let m = translation(s(numbers.next(5.0)), s(numbers.next(5.0)), s(numbers.next(5.0)))
            .compose(&scale(s(numbers.next(5.0)), s(numbers.next(5.0)), s(numbers.next(5.0))));
        assert_eq!(identity().compose(&m), m);
        assert_eq!(m.compose(&identity()), m);
        let p = point(s(numbers.next(10.0)), s(numbers.next(10.0)), s(numbers.next(10.0)));
        assert_eq!(p.transform(identity()), p);
    }
}

#[test]
fn the_near_root_is_at_most_the_far_one() {
    let mut numbers = Numbers::new(0x1357_9bdf_0246_8ace);
    let sphere = Sphere::new();
    let mut met = 0;
    for _ in 0..5000 {
        let ray = Ray {
            origin: point(s(numbers.next(3.0)), s(numbers.next(3.0)), s(numbers.next(3.0))),
            direction: vec3(numbers.next(1.0), numbers.next(1.0), numbers.next(1.0)),
        };
        let crossings = sphere.intersect(&ray).unwrap();
        if crossings.len() == 2 {
            met += 1;
            assert!(f(crossings[0].t) <= f(crossings[1].t));
            assert!(crossings[0].t.le(crossings[1].t));
        } else {
            assert_eq!(crossings.len(), 0);
        }
    }
    assert!(met > 100);
}

#[test]
fn a_ray_without_direction_has_roots_that_are_no_numbers() {
    let ray = Ray { origin: point(s(0.0), s(0.0), s(-5.0)), direction: vec3(0.0, 0.0, 0.0) };
    let crossings = Sphere::new().intersect(&ray).unwrap();
    assert_eq!(crossings.len(), 2);
    assert!(f(crossings[0].t).is_nan());
    assert!(f(crossings[1].t).is_nan());
}

#[test]
fn rounding_keeps_the_order() {
    let mut numbers = Numbers::new(0x2468_ace0_1357_9bdf);
    for _ in 0..20000 {
        let a = numbers.next(100.0);
        let b = numbers.next(100.0);
        let c = numbers.next(100.0);
        let d = numbers.next(100.0).abs() + 1.0e-3;
        let (lo, hi) = if a <= b { (a, b) } else { (b, a) };
        assert!(s(lo).add(s(c)).le(s(hi).add(s(c))));
        assert!(s(lo).div(s(d)).le(s(hi).div(s(d))));
    }
}

#[test]
fn exact_results_are_not_rounded() {
    for n in 0..200 {
        let x = n as f32 * 0.25;
        assert_eq!(f(s(x).mul(s(1.0))), x);
        assert_eq!(f(s(1.0).mul(s(x))), x);
        assert_eq!(f(s(x).mul(s(0.0))), 0.0);
        assert_eq!(f(s(x).sub(s(x))), 0.0);
        assert_eq!(f(s(x).add(s(0.5))), x + 0.5);
        assert_eq!(f(s(x).div(s(0.25))), n as f32);
        assert_eq!(f(s(x).add(s(3.0))), f(s(3.0).add(s(x))));
        assert_eq!(f(s(x).mul(s(3.0))), f(s(3.0).mul(s(x))));
    }
}

#[test]
fn inverting_twice_is_far_off_for_a_matrix_near_a_singular_one() {
    let row = |a: f32, b: f32, c: f32, d: f32| Tuple { x: s(a), y: s(b), z: s(c), w: s(d) };
    let m = Transformation {
        r0: row(0.75, -2.0, 0.5, 0.0),
        r1: row(-1.5, 1.75, -1.75, 0.0),
        r2: row(-1.25, -0.75, 1.75, -1.75),
        r3: row(-1.5, -1.25, -0.5, -1.0),
    };
    assert_eq!(f(m.determinant()), 0.01171875);
    let back = m.inverse().unwrap().inverse().unwrap();
    assert_eq!(f(m.get(2, 1)), -0.75);
    assert!((f(back.get(2, 1)) - -0.75).abs() > 0.1);
}

#[test]
fn inverting_a_scaling_twice_gives_it_back_within_a_few_parts() {
    let mut numbers = Numbers::new(0x5ca1_ab1e_0ddb_a11d);
    let bound = 18.0 / (1u32 << 24) as f64;
    for round in 0..3000 {
        let size = [1.0e-6_f32, 1.0e-3, 1.0, 1.0e3, 1.0e6][round % 5];
        let factors = [numbers.next(size), numbers.next(size), numbers.next(size)];
        if factors.iter().any(|v| v.abs() < 1.0e-6 || v.abs() > 1.0e6) {
            continue;
        }
        let m = scale(s(factors[0]), s(factors[1]), s(factors[2]));
        let inverse = m.inverse().unwrap();
        let back = inverse.inverse().unwrap();
        for i in 0..4 {
            for j in 0..4 {
                let found = f(back.get(i, j)) as f64;
                let given = f(m.get(i, j)) as f64;
                if i == j && i < 3 {
                    assert!((found - given).abs() <= bound * given.abs(), "{:?}", factors);
                    assert_eq!(found < 0.0, given < 0.0);
                    let reciprocal = f(inverse.get(i, j)) as f64;
                    assert!((reciprocal * given - 1.0).abs() <= 8.0 / (1u32 << 24) as f64);
                } else {
                    assert_eq!(found, given);
                    assert_eq!(f(inverse.get(i, j)) as f64, given);
                }
            }
        }
    }
}

#[test]
fn a_unit_vector_is_kept_by_normalizing() {
    for v in [vec3(0.6, 0.0, 0.8), vec3(1.0, 0.0, 0.0), vec3(0.0, -1.0, 0.0)] {
        if f(magnitude(&v)) == 1.0 {
            assert_eq!(normalize(&v).x.to_bits(), v.x.to_bits());
            assert_eq!(normalize(&v).y.to_bits(), v.y.to_bits());
            assert_eq!(normalize(&v).z.to_bits(), v.z.to_bits());
            assert_eq!(f(magnitude(&normalize(&v))), 1.0);
        }
        assert_eq!(f(normalize(&v).w), 0.0);
    }
    assert_eq!(f(magnitude(&vec3(1.0, 0.0, 0.0))), 1.0);
}

#[test]
fn the_dot_product_does_not_depend_on_the_order_and_is_not_negative_with_itself() {
    let mut numbers = Numbers::new(0xd07d_07d0_7d07_d07d);
    for round in 0..5000 {
        let size = [1.0e-20_f32, 1.0, 1.0e20][round % 3];
        let a = Tuple {
            x: s(numbers.next(size)),
            y: s(numbers.next(size)),
            z: s(numbers.next(size)),
            w: s(numbers.next(size)),
        };
        let b = Tuple {
            x: s(numbers.next(size)),
            y: s(numbers.next(size)),
            z: s(numbers.next(size)),
            w: s(numbers.next(size)),
        };
        assert_eq!(dot(&a, &b).to_bits(), dot(&b, &a).to_bits());
        assert!(f(dot(&a, &a)) >= 0.0);
        assert!(!f(dot(&a, &a)).is_sign_negative());
    }
}

#[test]
fn normalizing_fails_where_the_squares_overflow() {
    // 2^100 squared is no binary32 number: the length is infinite
    let v = vec3(1.2676506e30, 0.0, 0.0);
    assert!(f(magnitude(&v)).is_infinite());
    assert_eq!(f(magnitude(&normalize(&v))), 0.0);
}

#[test]
fn what_lies_in_the_surface_is_kept_by_reflection() {
    let normal = vec3(0.0, 1.0, 0.0);
    for v in [vec3(1.0, 0.0, 0.0), vec3(-3.5, 0.0, 2.25), vec3(0.0, 0.0, 1.0e10)] {
        assert_eq!(f(dot(&v, &normal)), 0.0);
        assert_eq!(reflect(&v, &normal), v);
    }
    let slanted = vec3(1.0, 1.0, 0.0);
    let along = vec3(2.0, -2.0, 7.0);
    assert_eq!(f(dot(&along, &slanted)), 0.0);
    assert_eq!(reflect(&along, &slanted), along);
}
