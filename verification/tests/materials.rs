use raytracer::colors::Color;
use raytracer::lights::Light;
use raytracer::materials::{lighting, specular_base, Material};
use raytracer::scalar::Scalar;
use raytracer::tuples::{point, vector, Tuple};

fn s(x: f32) -> Scalar {
    Scalar::from_bits(x.to_bits())
}

fn f(x: Scalar) -> f32 {
    f32::from_bits(x.to_bits())
}

fn pt(x: f32, y: f32, z: f32) -> Tuple {
    point(s(x), s(y), s(z))
}

fn vec3(x: f32, y: f32, z: f32) -> Tuple {
    vector(s(x), s(y), s(z))
}

fn color(r: f32, g: f32, b: f32) -> Color {
    Color { r: s(r), g: s(g), b: s(b) }
}

/// The whole shading: the library's two steps, with the power between them.
fn shade(
    material: Material,
    light: Light,
    point_at: &Tuple,
    eye_vector: &Tuple,
    normal_vector: &Tuple,
) -> Color {
    let factor = match specular_base(&light, point_at, eye_vector, normal_vector) {
        Some(base) => f(base).powf(f(material.shininess)),
        None => 0.0,
    };
    lighting(material, light, point_at, eye_vector, normal_vector, s(factor))
}

fn near(a: Color, b: Color) -> bool {
    a.abs_diff_eq(&b, Color::default_epsilon())
}

#[test]
fn lighting_with_the_eye_between_the_light_and_the_surface() {
    let material = Material::new();
    let position = pt(0.0, 0.0, 0.0);
    let eye_vector = vec3(0.0, 1.0, -1.0);
    let normal_vector = vec3(0.0, 0.0, -1.0);
    let light = Light { position: pt(0.0, 0.0, -10.0), intensity: color(1.0, 1.0, 1.0) };
    let calculated_color = shade(material, light, &position, &eye_vector, &normal_vector);
    assert!(near(calculated_color, color(1.9, 1.9, 1.9)));
}

#[test]
fn lighting_with_the_eye_between_the_light_and_the_surface_changing_angle() {
    let material = Material::new();
    let position = pt(0.0, 0.0, 0.0);
    let eye_vector = vec3(0.0, 2.0_f32.sqrt() / 2.0, -2.0_f32.sqrt() / 2.0);
    let normal_vector = vec3(0.0, 0.0, -1.0);
    let light = Light { position: pt(0.0, 0.0, -10.0), intensity: color(1.0, 1.0, 1.0) };
    let calculated_color = shade(material, light, &position, &eye_vector, &normal_vector);
    assert!(near(calculated_color, color(1.0, 1.0, 1.0)));
}

#[test]
fn lighting_with_the_eye_between_the_light_and_the_surface_changing_angle_of_light() {
    let material = Material::new();
    let position = pt(0.0, 0.0, 0.0);
    let eye_vector = vec3(0.0, 0.0, -1.0);
    let normal_vector = vec3(0.0, 0.0, -1.0);
    let light = Light { position: pt(0.0, 10.0, -10.0), intensity: color(1.0, 1.0, 1.0) };
    let calculated_color = shade(material, light, &position, &eye_vector, &normal_vector);
    assert!(near(calculated_color, color(0.7363961, 0.7363961, 0.7363961)));
}

#[test]
fn lightning_with_eye_in_the_path_of_the_reflection_vector() {
    let material = Material::new();
    let position = pt(0.0, 0.0, 0.0);
    let eye_vector = vec3(0.0, -2.0_f32.sqrt() / 2.0, -2.0_f32.sqrt() / 2.0);
    let normal_vector = vec3(0.0, 0.0, -1.0);
    let light = Light { position: pt(0.0, 10.0, -10.0), intensity: color(1.0, 1.0, 1.0) };
    let calculated_color = shade(material, light, &position, &eye_vector, &normal_vector);
    assert!(near(calculated_color, color(1.6363853, 1.6363853, 1.6363853)));
}

#[test]
fn light_behind_surface() {
    let material = Material::new();
    let position = pt(0.0, 0.0, 0.0);
    let eye_vector = vec3(0.0, 1.0, -1.0);
    let normal_vector = vec3(0.0, 0.0, -1.0);
    let light = Light { position: pt(0.0, 0.0, 10.0), intensity: color(1.0, 1.0, 1.0) };
    let calculated_color = shade(material, light, &position, &eye_vector, &normal_vector);
    assert!(near(calculated_color, color(0.1, 0.1, 0.1)));
}

#[test]
fn a_new_material_has_the_standard_shares() {
    let m = Material::new();
    assert_eq!(m.color, color(1.0, 1.0, 1.0));
    assert_eq!(f(m.ambient), 0.1);
    assert_eq!(f(m.diffuse), 0.9);
    assert_eq!(f(m.specular), 0.9);
    assert_eq!(f(m.shininess), 200.0);
    assert_eq!(Material::default(), m);
}

#[test]
fn there_is_a_highlight_where_light_and_eye_are_on_the_same_side() {
    let position = pt(0.0, 0.0, 0.0);
    let normal_vector = vec3(0.0, 0.0, -1.0);
    let front = Light { position: pt(0.0, 0.0, -10.0), intensity: color(1.0, 1.0, 1.0) };
    let behind = Light { position: pt(0.0, 0.0, 10.0), intensity: color(1.0, 1.0, 1.0) };
    let eye = vec3(0.0, 0.0, -1.0);
    let away = vec3(0.0, 0.0, 1.0);
    assert_eq!(specular_base(&front, &position, &eye, &normal_vector).map(f), Some(1.0));
    assert_eq!(specular_base(&front, &position, &away, &normal_vector), None);
    assert_eq!(specular_base(&behind, &position, &eye, &normal_vector), None);
    assert_eq!(specular_base(&behind, &position, &away, &normal_vector), None);
}

#[test]
fn light_along_the_surface_still_counts_as_lit() {
    // the cosine between light and normal is exactly zero: not below zero
    let position = pt(0.0, 0.0, 0.0);
    let normal_vector = vec3(0.0, 0.0, -1.0);
    let light = Light { position: pt(0.0, 10.0, 0.0), intensity: color(1.0, 1.0, 1.0) };
    // the light runs on along the surface, and the eye looks into it
    let eye = vec3(0.0, -1.0, 0.0);
    let base = specular_base(&light, &position, &eye, &normal_vector);
    assert_eq!(base.map(f), Some(1.0));
    let c = lighting(Material::new(), light, &position, &eye, &normal_vector, s(0.25));
    // ambient 0.1, diffuse 0.9 * 0 and specular 0.9 * 0.25
    assert_eq!(f(c.r), 0.1_f32 + 0.9_f32 * 0.0 + 0.9_f32 * 0.25);
}

#[test]
fn the_factor_is_not_read_without_a_highlight() {
    let position = pt(0.0, 0.0, 0.0);
    let normal_vector = vec3(0.0, 0.0, -1.0);
    let eye = vec3(0.0, 0.0, -1.0);
    let behind = Light { position: pt(0.0, 0.0, 10.0), intensity: color(1.0, 1.0, 1.0) };
    let one = lighting(Material::new(), behind, &position, &eye, &normal_vector, s(0.0));
    let other = lighting(Material::new(), behind, &position, &eye, &normal_vector, s(1000.0));
    assert_eq!(one, other);
    assert_eq!(one, color(0.1, 0.1, 0.1));
}

#[test]
fn the_three_parts_add_up() {
    let mut material = Material::new();
    material.color = color(1.0, 0.2, 1.0);
    let position = pt(0.0, 0.0, 0.0);
    let normal_vector = vec3(0.0, 0.0, -1.0);
    let eye = vec3(0.0, 0.0, -1.0);
    let light = Light { position: pt(0.0, 0.0, -10.0), intensity: color(1.0, 0.5, 0.25) };
    let c = lighting(material, light, &position, &eye, &normal_vector, s(0.5));
    // light straight on: both cosines are 1
    assert_eq!(f(c.r), (1.0_f32 * 1.0) * 0.1 + ((1.0_f32 * 1.0) * 0.9) * 1.0 + (1.0_f32 * 0.9) * 0.5);
    assert_eq!(f(c.g), (0.2_f32 * 0.5) * 0.1 + ((0.2_f32 * 0.5) * 0.9) * 1.0 + (0.5_f32 * 0.9) * 0.5);
    assert_eq!(
        f(c.b),
        (1.0_f32 * 0.25) * 0.1 + ((1.0_f32 * 0.25) * 0.9) * 1.0 + (0.25_f32 * 0.9) * 0.5
    );
}
