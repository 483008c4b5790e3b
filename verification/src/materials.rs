//! Surface materials and the Phong reflection model.

use vstd::prelude::*;
use vstd::std_specs::cmp::PartialEqSpecImpl;
use crate::colors::{Color, multiply, hadamard_product};
use crate::lights::Light;
use crate::scalar::{Scalar, ZERO, ONE};
use crate::tuples::{Tuple, dot, normalize, negate, reflect};

verus! {

/// The bits of 0.1, the ambient share of a new material.
pub const DEFAULT_AMBIENT: u32 = 0x3dcc_cccd;

/// The bits of 0.9, the diffuse share of a new material.
pub const DEFAULT_DIFFUSE: u32 = 0x3f66_6666;

/// The bits of 0.9, the specular share of a new material.
pub const DEFAULT_SPECULAR: u32 = 0x3f66_6666;

/// The bits of 200, the shininess of a new material.
pub const DEFAULT_SHININESS: u32 = 0x4348_0000;

/// What a surface does with light: its color, the shares of ambient, diffuse
/// and specular light that it gives back, and how sharp its highlight is.
#[derive(Clone, Copy, Debug)]
pub struct Material {
    pub color: Color,
    pub ambient: Scalar,
    pub diffuse: Scalar,
    pub specular: Scalar,
    pub shininess: Scalar,
}

impl PartialEq for Material {
    fn eq(&self, other: &Material) -> (r: bool) {
        self.color == other.color && self.ambient == other.ambient && self.diffuse == other.diffuse
            && self.specular == other.specular && self.shininess == other.shininess
    }
}

impl PartialEqSpecImpl for Material {
    open spec fn obeys_eq_spec() -> bool {
        true
    }

    open spec fn eq_spec(&self, other: &Material) -> bool {
        self.equals(*other)
    }
}

impl Default for Material {
    fn default() -> (m: Material)
        ensures
            m == Material::standard(),
    {
        Material::new()
    }
}

impl Material {
    /// Color and the four shares are equal as numbers.
    pub open spec fn equals(self, other: Material) -> bool {
        self.color.equals(other.color) && self.ambient.equals(other.ambient)
            && self.diffuse.equals(other.diffuse) && self.specular.equals(other.specular)
            && self.shininess.equals(other.shininess)
    }

    /// White, ambient 0.1, diffuse 0.9, specular 0.9, shininess 200.
    pub open spec fn standard() -> Material {
        Material {
            color: Color {
                r: Scalar { bits: ONE },
                g: Scalar { bits: ONE },
                b: Scalar { bits: ONE },
            },
            ambient: Scalar { bits: DEFAULT_AMBIENT },
            diffuse: Scalar { bits: DEFAULT_DIFFUSE },
            specular: Scalar { bits: DEFAULT_SPECULAR },
            shininess: Scalar { bits: DEFAULT_SHININESS },
        }
    }

    /// The standard material: white, ambient 0.1, diffuse 0.9, specular 0.9,
    /// shininess 200.
    pub fn new() -> (m: Material)
        ensures
            m == Material::standard(),
    {
        Material {
            color: Color {
                r: Scalar { bits: ONE },
                g: Scalar { bits: ONE },
                b: Scalar { bits: ONE },
            },
            ambient: Scalar { bits: DEFAULT_AMBIENT },
            diffuse: Scalar { bits: DEFAULT_DIFFUSE },
            specular: Scalar { bits: DEFAULT_SPECULAR },
            shininess: Scalar { bits: DEFAULT_SHININESS },
        }
    }
}

/// The unit vector from the point to the light.
pub open spec fn light_direction(light: Light, point: Tuple) -> Tuple {
    light.position.minus(point).unit()
}

/// The cosine of the angle between the light and the normal.
pub open spec fn light_dot_normal(light: Light, point: Tuple, normal: Tuple) -> Scalar {
    light_direction(light, point).dot(normal)
}

/// The cosine of the angle between the mirrored light and the eye.
pub open spec fn reflect_dot_eye(light: Light, point: Tuple, eye: Tuple, normal: Tuple) -> Scalar {
    light_direction(light, point).negated().reflected(normal).dot(eye)
}

/// The light is on the surface's side: its cosine is not below zero.
pub open spec fn is_lit(light: Light, point: Tuple, normal: Tuple) -> bool {
    !light_dot_normal(light, point, normal).is_below_zero()
}

/// The mirrored light points to the eye's side: the surface is lit, and the
/// cosine to the eye is not below zero.
pub open spec fn has_highlight(light: Light, point: Tuple, eye: Tuple, normal: Tuple) -> bool {
    is_lit(light, point, normal) && !reflect_dot_eye(light, point, eye, normal).is_below_zero()
}

/// The material's color under the light's.
pub open spec fn effective_color(material: Material, light: Light) -> Color {
    material.color.blended(light.intensity)
}

/// The light that reaches the surface from all around.
pub open spec fn ambient_part(material: Material, light: Light) -> Color {
    effective_color(material, light).times(material.ambient)
}

/// The light that the surface scatters: none where the light is on the
/// other side.
pub open spec fn diffuse_part(
    material: Material,
    light: Light,
    point: Tuple,
    normal: Tuple,
) -> Color {
    if is_lit(light, point, normal) {
        effective_color(material, light).times(material.diffuse).times(
            light_dot_normal(light, point, normal),
        )
    } else {
        Color::dark()
    }
}

/// The highlight, for a given `factor`: the cosine to the eye raised to the
/// material's shininess.
pub open spec fn specular_part(
    material: Material,
    light: Light,
    point: Tuple,
    eye: Tuple,
    normal: Tuple,
    factor: Scalar,
) -> Color {
    if has_highlight(light, point, eye, normal) {
        light.intensity.times(material.specular).times(factor)
    } else {
        Color::dark()
    }
}

/// Ambient plus diffuse plus specular.
pub open spec fn shade(
    material: Material,
    light: Light,
    point: Tuple,
    eye: Tuple,
    normal: Tuple,
    factor: Scalar,
) -> Color {
    ambient_part(material, light).plus(diffuse_part(material, light, point, normal)).plus(
        specular_part(material, light, point, eye, normal, factor),
    )
}

/// The cosine between the mirrored light and the eye where there is a
/// highlight, and nothing where there is none. Raised to the material's
/// shininess it is the factor that `lighting` takes.
pub fn specular_base(
    light: &Light,
    point_at: &Tuple,
    eye_vector: &Tuple,
    normal_vector: &Tuple,
) -> (r: Option<Scalar>)
    ensures
        r == (if has_highlight(*light, *point_at, *eye_vector, *normal_vector) {
            Some(reflect_dot_eye(*light, *point_at, *eye_vector, *normal_vector))
        } else {
            None
        }),
{
    let direction_to_light_source = normalize(&crate::tuples::sub(&light.position, point_at));
    let light_dot_normal = dot(&direction_to_light_source, normal_vector);
    if light_dot_normal.lt(Scalar { bits: ZERO }) {
        return None;
    }
    let reflect_vector = reflect(&negate(&direction_to_light_source), normal_vector);
    let reflect_dot_eye = dot(&reflect_vector, eye_vector);
    if reflect_dot_eye.lt(Scalar { bits: ZERO }) {
        None
    } else {
        Some(reflect_dot_eye)
    }
}

/// The color of a surface point under one light: ambient, diffuse and
/// specular light added up. `specular_factor` is what `specular_base`
/// returns, raised to the material's shininess; it is not read where there
/// is no highlight.
pub fn lighting(
    material: Material,
    light: Light,
    point_at: &Tuple,
    eye_vector: &Tuple,
    normal_vector: &Tuple,
    specular_factor: Scalar,
) -> (c: Color)
    ensures
        c == shade(material, light, *point_at, *eye_vector, *normal_vector, specular_factor),
{
    let effective_color = hadamard_product(&material.color, &light.intensity);
    let ambient_contribution = multiply(&effective_color, material.ambient);
    let direction_to_light_source = normalize(&crate::tuples::sub(&light.position, point_at));
    let light_dot_normal = dot(&direction_to_light_source, normal_vector);
    let diffuse_contribution: Color;
    let specular_contribution: Color;
    if light_dot_normal.lt(Scalar { bits: ZERO }) {
        diffuse_contribution = Color::black();
        specular_contribution = Color::black();
    } else {
        diffuse_contribution =
        multiply(&multiply(&effective_color, material.diffuse), light_dot_normal);
        let reflect_vector = reflect(&negate(&direction_to_light_source), normal_vector);
        let reflect_dot_eye = dot(&reflect_vector, eye_vector);
        if reflect_dot_eye.lt(Scalar { bits: ZERO }) {
            specular_contribution = Color::black();
        } else {
            specular_contribution =
            multiply(&multiply(&light.intensity, material.specular), specular_factor);
        }
    }
    crate::colors::add(
        crate::colors::add(ambient_contribution, diffuse_contribution),
        specular_contribution,
    )
}

} // verus!
