use approx::AbsDiffEq;
use raytracer::scalar::Scalar;
use raytracer::transformations::{
    identity, rotate_x, rotate_y, rotate_z, scale, shearing, translation, SingularMatrix,
    Transformation,
};
use raytracer::tuples::{point, vector, Tuple};
use std::f32::consts::PI;

fn s(x: f32) -> Scalar {
    Scalar::from_bits(x.to_bits())
}

fn f(x: Scalar) -> f32 {
    f32::from_bits(x.to_bits())
}

fn pt(x: f32, y: f32, z: f32) -> Tuple {
    point(s(x), s(y), s(z))
}

fn close(a: f32, b: f32) -> bool {
    f32::abs_diff_eq(&a, &b, f32::default_epsilon())
}

fn within(a: f32, b: f32, epsilon: f32) -> bool {
    f32::abs_diff_eq(&a, &b, epsilon)
}

fn row(a: f32, b: f32, c: f32, d: f32) -> Tuple {
    Tuple { x: s(a), y: s(b), z: s(c), w: s(d) }
}

fn matrix(rows: [[f32; 4]; 4]) -> Transformation {
    Transformation {
        r0: row(rows[0][0], rows[0][1], rows[0][2], rows[0][3]),
        r1: row(rows[1][0], rows[1][1], rows[1][2], rows[1][3]),
        r2: row(rows[2][0], rows[2][1], rows[2][2], rows[2][3]),
        r3: row(rows[3][0], rows[3][1], rows[3][2], rows[3][3]),
    }
}

fn entries(m: &Transformation) -> [[f32; 4]; 4] {
    let mut out = [[0.0_f32; 4]; 4];
    for i in 0..4 {
        for j in 0..4 {
            out[i][j] = f(m.get(i, j));
        }
    }
    out
}

fn turn_x(r: f32) -> Transformation {
    rotate_x(s(r.cos()), s(r.sin()))
}

fn turn_y(r: f32) -> Transformation {
    rotate_y(s(r.cos()), s(r.sin()))
}

fn turn_z(r: f32) -> Transformation {
    rotate_z(s(r.cos()), s(r.sin()))
}

#[test]
fn translating_a_point() {
    let translation = translation(s(5.0), s(-3.0), s(2.0));
    let point = pt(-3.0, 4.0, 5.0);
    let transformed_point = point.transform(translation);
    assert_eq!(f(transformed_point.x()), 2.0);
    assert_eq!(f(transformed_point.y()), 1.0);
    assert_eq!(f(transformed_point.z()), 7.0);
}

#[test]
fn translating_a_point_and_back() {
    let translation = translation(s(5.0), s(-3.0), s(2.0));
    let translation_inverse = translation.inverse().expect("Could not invert array");
    let point = pt(-3.0, 4.0, 5.0);
    let transformed_point = point.transform(translation).transform(translation_inverse);
    assert_eq!(f(transformed_point.x()), -3.0);
    assert_eq!(f(transformed_point.y()), 4.0);
    assert_eq!(f(transformed_point.z()), 5.0);
}

#[test]
fn applying_scaling_to_a_point() {
    let scaling = scale(s(-1.0), s(1.0), s(1.0));
    let point = pt(2.0, 3.0, 4.0);
    let transformed_point = point.transform(scaling);
    assert_eq!(f(transformed_point.x()), -2.0);
    assert_eq!(f(transformed_point.y()), 3.0);
    assert_eq!(f(transformed_point.z()), 4.0);
}

#[test]
fn rotating_a_point_in_x_axis() {
    let rotation = turn_x(PI / 2.0);
    let point = pt(0.0, 1.0, 0.0);
    let transformed_point = point.transform(rotation);
    assert!(close(f(transformed_point.x()), 0.0));
    assert!(close(f(transformed_point.y()), 0.0));
    assert!(close(f(transformed_point.z()), 1.0));
}

#[test]
fn rotating_a_point_in_y_axis() {
    let rotation = turn_y(PI / 2.0);
    let point = pt(0.0, 0.0, 1.0);
    let transformed_point = point.transform(rotation);
    assert!(close(f(transformed_point.x()), 1.0));
    assert!(close(f(transformed_point.y()), 0.0));
    assert!(close(f(transformed_point.z()), 0.0));
}

#[test]
fn rotating_a_point_in_z_axis() {
    let rotation = turn_z(PI / 2.0);
    let point = pt(0.0, 1.0, 0.0);
    let transformed_point = point.transform(rotation);
    assert!(close(f(transformed_point.x()), -1.0));
    assert!(close(f(transformed_point.y()), 0.0));
    assert!(close(f(transformed_point.z()), 0.0));
}

#[test]
fn another_rotation_in_z_axis() {
    let rotation = turn_z(PI / 4.0);
    let point = pt(0.0, 1.0, 0.0);
    let transformed_point = point.transform(rotation);
    assert!(close(f(transformed_point.x()), -0.707106781));
    assert!(close(f(transformed_point.y()), 0.707106781));
    assert!(close(f(transformed_point.z()), 0.0));
}

#[test]
fn shearing_x_in_proportion_to_z() {
    let shearing = shearing(s(0.0), s(1.0), s(0.0), s(0.0), s(0.0), s(0.0));
    let point = pt(2.0, 3.0, 4.0);
    let transformed_point = point.transform(shearing);
    assert!(close(f(transformed_point.x()), 6.0));
    assert!(close(f(transformed_point.y()), 3.0));
    assert!(close(f(transformed_point.z()), 4.0));
}

#[test]
fn shearing_y_in_proportion_to_x() {
    let shearing = shearing(s(0.0), s(0.0), s(1.0), s(0.0), s(0.0), s(0.0));
    let point = pt(2.0, 3.0, 4.0);
    let transformed_point = point.transform(shearing);
    assert!(close(f(transformed_point.x()), 2.0));
    assert!(close(f(transformed_point.y()), 5.0));
    assert!(close(f(transformed_point.z()), 4.0));
}

#[test]
fn each_shear_moves_one_coordinate_by_another() {
    let p = pt(2.0, 3.0, 4.0);
    let o = s(0.0);
    let i = s(1.0);
    assert_eq!(p.transform(shearing(i, o, o, o, o, o)), pt(5.0, 3.0, 4.0));
    assert_eq!(p.transform(shearing(o, i, o, o, o, o)), pt(6.0, 3.0, 4.0));
    assert_eq!(p.transform(shearing(o, o, i, o, o, o)), pt(2.0, 5.0, 4.0));
    assert_eq!(p.transform(shearing(o, o, o, i, o, o)), pt(2.0, 7.0, 4.0));
    assert_eq!(p.transform(shearing(o, o, o, o, i, o)), pt(2.0, 3.0, 6.0));
    assert_eq!(p.transform(shearing(o, o, o, o, o, i)), pt(2.0, 3.0, 7.0));
}

#[test]
fn the_builders_fill_the_standard_places() {
    assert_eq!(
        entries(&identity()),
        [[1.0, 0.0, 0.0, 0.0], [0.0, 1.0, 0.0, 0.0], [0.0, 0.0, 1.0, 0.0], [0.0, 0.0, 0.0, 1.0]]
    );
    assert_eq!(
        entries(&translation(s(2.0), s(3.0), s(4.0))),
        [[1.0, 0.0, 0.0, 2.0], [0.0, 1.0, 0.0, 3.0], [0.0, 0.0, 1.0, 4.0], [0.0, 0.0, 0.0, 1.0]]
    );
    assert_eq!(
        entries(&scale(s(2.0), s(3.0), s(4.0))),
        [[2.0, 0.0, 0.0, 0.0], [0.0, 3.0, 0.0, 0.0], [0.0, 0.0, 4.0, 0.0], [0.0, 0.0, 0.0, 1.0]]
    );
    assert_eq!(
        entries(&rotate_x(s(0.6), s(0.8))),
        [[1.0, 0.0, 0.0, 0.0], [0.0, 0.6, -0.8, 0.0], [0.0, 0.8, 0.6, 0.0], [0.0, 0.0, 0.0, 1.0]]
    );
    assert_eq!(
        entries(&rotate_y(s(0.6), s(0.8))),
        [[0.6, 0.0, 0.8, 0.0], [0.0, 1.0, 0.0, 0.0], [-0.8, 0.0, 0.6, 0.0], [0.0, 0.0, 0.0, 1.0]]
    );
    assert_eq!(
        entries(&rotate_z(s(0.6), s(0.8))),
        [[0.6, -0.8, 0.0, 0.0], [0.8, 0.6, 0.0, 0.0], [0.0, 0.0, 1.0, 0.0], [0.0, 0.0, 0.0, 1.0]]
    );
    assert_eq!(
        entries(&shearing(s(2.0), s(3.0), s(4.0), s(5.0), s(6.0), s(7.0))),
        [[1.0, 2.0, 3.0, 0.0], [4.0, 1.0, 5.0, 0.0], [6.0, 7.0, 1.0, 0.0], [0.0, 0.0, 0.0, 1.0]]
    );
}

#[test]
fn translation_does_not_move_a_vector() {
    let v = vector(s(-3.0), s(4.0), s(5.0));
    assert_eq!(v.transform(translation(s(5.0), s(-3.0), s(2.0))), v);
}

#[test]
fn transposing_exchanges_rows_and_columns() {
    let m = matrix([
        [0.0, 9.0, 3.0, 0.0],
        [9.0, 8.0, 0.0, 8.0],
        [1.0, 8.0, 5.0, 3.0],
        [0.0, 0.0, 5.0, 8.0],
    ]);
    assert_eq!(
        entries(&m.transpose()),
        [[0.0, 9.0, 1.0, 0.0], [9.0, 8.0, 8.0, 0.0], [3.0, 0.0, 5.0, 5.0], [0.0, 8.0, 3.0, 8.0]]
    );
    assert_eq!(identity().transpose(), identity());
}

#[test]
fn composing_is_the_matrix_product() {
    let a = matrix([
        [1.0, 2.0, 3.0, 4.0],
        [5.0, 6.0, 7.0, 8.0],
        [9.0, 8.0, 7.0, 6.0],
        [5.0, 4.0, 3.0, 2.0],
    ]);
    let b = matrix([
        [-2.0, 1.0, 2.0, 3.0],
        [3.0, 2.0, 1.0, -1.0],
        [4.0, 3.0, 6.0, 5.0],
        [1.0, 2.0, 7.0, 8.0],
    ]);
    assert_eq!(
        entries(&a.compose(&b)),
        [
            [20.0, 22.0, 50.0, 48.0],
            [44.0, 54.0, 114.0, 108.0],
            [40.0, 58.0, 110.0, 102.0],
            [16.0, 26.0, 46.0, 42.0]
        ]
    );
    assert_eq!(a.compose(&identity()), a);
    assert_eq!(identity().compose(&a), a);
}

#[test]
fn a_composed_transformation_applies_the_second_first() {
    let p = pt(1.0, 0.0, 1.0);
    let a = turn_x(PI / 2.0);
    let b = scale(s(5.0), s(5.0), s(5.0));
    let c = translation(s(10.0), s(5.0), s(7.0));
    let all = c.compose(&b).compose(&a);
    let moved = p.transform(all);
    assert!(within(f(moved.x), 15.0, 1e-5));
    assert!(within(f(moved.y), 0.0, 1e-5));
    assert!(within(f(moved.z), 7.0, 1e-5));
}

#[test]
fn determinants_are_expanded_by_cofactors() {
    let m = matrix([
        [-2.0, -8.0, 3.0, 5.0],
        [-3.0, 1.0, 7.0, 3.0],
        [1.0, 2.0, -9.0, 6.0],
        [-6.0, 7.0, 7.0, -9.0],
    ]);
    assert_eq!(f(m.determinant()), -4071.0);
    assert_eq!(f(identity().determinant()), 1.0);
    assert_eq!(f(scale(s(2.0), s(3.0), s(4.0)).determinant()), 24.0);
}

#[test]
fn inverting_a_matrix() {
    let m = matrix([
        [-5.0, 2.0, 6.0, -8.0],
        [1.0, -5.0, 1.0, 8.0],
        [7.0, 7.0, -6.0, -7.0],
        [1.0, -3.0, 7.0, 4.0],
    ]);
    assert_eq!(f(m.determinant()), 532.0);
    let inverse = m.inverse().unwrap();
    let expected = [
        [0.21805, 0.45113, 0.24060, -0.04511],
        [-0.80827, -1.45677, -0.44361, 0.52068],
        [-0.07895, -0.22368, -0.05263, 0.19737],
        [-0.52256, -0.81391, -0.30075, 0.30639],
    ];
    let found = entries(&inverse);
    for i in 0..4 {
        for j in 0..4 {
            assert!(within(found[i][j], expected[i][j], 1e-5), "{} {}", i, j);
        }
    }
    assert_eq!(found[3][2], -160.0 / 532.0);
    assert_eq!(found[2][3], 105.0 / 532.0);
}

#[test]
fn a_matrix_without_inverse_is_singular() {
    let m = matrix([
        [-4.0, 2.0, -2.0, -3.0],
        [9.0, 6.0, 2.0, 6.0],
        [0.0, -5.0, 1.0, -5.0],
        [0.0, 0.0, 0.0, 0.0],
    ]);
    assert_eq!(f(m.determinant()), 0.0);
    assert_eq!(m.inverse(), Err(SingularMatrix));
    assert_eq!(scale(s(0.0), s(1.0), s(1.0)).inverse(), Err(SingularMatrix));
    assert_eq!(scale(s(1.0), s(-0.0), s(1.0)).inverse(), Err(SingularMatrix));
}

#[test]
fn inverses_of_the_standard_transformations() {
    assert_eq!(identity().inverse(), Ok(identity()));
    assert_eq!(
        translation(s(5.0), s(-3.0), s(2.0)).inverse(),
        Ok(translation(s(-5.0), s(3.0), s(-2.0)))
    );
    assert_eq!(scale(s(2.0), s(4.0), s(8.0)).inverse(), Ok(scale(s(0.5), s(0.25), s(0.125))));
    assert_eq!(rotate_z(s(0.0), s(1.0)).inverse(), Ok(rotate_z(s(0.0), s(-1.0))));
}

#[test]
fn inverting_twice_gives_the_matrix_back() {
    let m = matrix([
        [8.0, -5.0, 9.0, 2.0],
        [7.0, 5.0, 6.0, 1.0],
        [-6.0, 0.0, 9.0, 6.0],
        [-3.0, 0.0, -9.0, -4.0],
    ]);
    let back = m.inverse().unwrap().inverse().unwrap();
    let found = entries(&back);
    let expected = entries(&m);
    for i in 0..4 {
        for j in 0..4 {
            assert!(within(found[i][j], expected[i][j], 1e-4), "{} {}", i, j);
        }
    }
    let t = translation(s(5.0), s(-3.0), s(2.0));
    assert_eq!(t.inverse().unwrap().inverse(), Ok(t));
}

#[test]
fn a_product_times_the_inverse_gives_the_first_factor() {
    let a = matrix([
        [3.0, -9.0, 7.0, 3.0],
        [3.0, -8.0, 2.0, -9.0],
        [-4.0, 4.0, 4.0, 1.0],
        [-6.0, 5.0, -1.0, 1.0],
    ]);
    let b = matrix([
        [8.0, 2.0, 2.0, 2.0],
        [3.0, -1.0, 7.0, 0.0],
        [7.0, 0.0, 5.0, 4.0],
        [6.0, -2.0, 0.0, 5.0],
    ]);
    let c = a.compose(&b);
    let back = c.compose(&b.inverse().unwrap());
    let found = entries(&back);
    let expected = entries(&a);
    for i in 0..4 {
        for j in 0..4 {
            assert!(within(found[i][j], expected[i][j], 1e-4), "{} {}", i, j);
        }
    }
}

#[test]
fn translating_there_and_back_is_the_identity() {
    let there = translation(s(5.5), s(-3.25), s(1.0e10));
    let back = translation(s(-5.5), s(3.25), s(-1.0e10));
    let both = there.compose(&back);
    assert_eq!(both, identity());
    let p = pt(-3.0, 4.0, 5.0);
    assert_eq!(p.transform(both), p);
}

#[test]
fn get_reads_row_then_column() {
    let m = matrix([
        [1.0, 2.0, 3.0, 4.0],
        [5.5, 6.5, 7.5, 8.5],
        [9.0, 10.0, 11.0, 12.0],
        [13.5, 14.5, 15.5, 16.5],
    ]);
    assert_eq!(f(m.get(0, 0)), 1.0);
    assert_eq!(f(m.get(0, 3)), 4.0);
    assert_eq!(f(m.get(1, 0)), 5.5);
    assert_eq!(f(m.get(1, 2)), 7.5);
    assert_eq!(f(m.get(2, 2)), 11.0);
    assert_eq!(f(m.get(3, 0)), 13.5);
    assert_eq!(f(m.get(3, 2)), 15.5);
}

#[test]
fn transforming_is_the_whole_matrix_vector_product() {
    let m = matrix([
        [1.0, 0.0, 0.0, 0.0],
        [0.0, 1.0, 0.0, 0.0],
        [0.0, 0.0, 1.0, 0.0],
        [1.0, 0.0, 0.0, 1.0],
    ]);
    let moved = pt(1.0, 0.0, 0.0).transform(m);
    assert_eq!(
        [f(moved.x), f(moved.y), f(moved.z), f(moved.w)],
        [1.0, 0.0, 0.0, 2.0]
    );
    let m = matrix([
        [1.0, 2.0, 3.0, 4.0],
        [2.0, 4.0, 4.0, 2.0],
        [8.0, 6.0, 4.0, 1.0],
        [0.5, 0.25, 2.0, 3.0],
    ]);
    let moved = row(1.0, 2.0, 3.0, 1.0).transform(m);
    assert_eq!(
        [f(moved.x), f(moved.y), f(moved.z), f(moved.w)],
        [18.0, 24.0, 33.0, 10.0]
    );
}

#[test]
fn affine_transformations_keep_points_points_and_vectors_vectors() {
    let m = translation(s(5.0), s(-3.0), s(2.0)).compose(&scale(s(2.0), s(3.0), s(4.0)));
    assert_eq!(f(pt(1.0, 2.0, 3.0).transform(m).w), 1.0);
    assert_eq!(f(vector(s(1.0), s(2.0), s(3.0)).transform(m).w), 0.0);
    let back = m.inverse().unwrap();
    assert_eq!(f(pt(1.0, 2.0, 3.0).transform(back).w), 1.0);
    assert_eq!(f(vector(s(1.0), s(2.0), s(3.0)).transform(back).w), 0.0);
}
