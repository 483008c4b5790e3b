//! The unit sphere, placed in the world by a transformation.

use vstd::prelude::*;
use vstd::std_specs::cmp::PartialEqSpecImpl;
use crate::intersections::Intersection;
use crate::materials::Material;
use crate::rays::Ray;
use crate::scalar::{Scalar, ZERO, ONE, TWO, FOUR};
use crate::transformations::{Transformation, SingularMatrix, identity, identity_matrix};
use crate::tuples::{Tuple, dot, normalize, point};

verus! {

/// A sphere: in its own frame the unit sphere about the origin, in the world
/// what `transformation` makes of it.
#[derive(Clone, Copy, Debug)]
pub struct Sphere {
    pub transformation: Transformation,
    pub material: Material,
}

impl PartialEq for Sphere {
    fn eq(&self, other: &Sphere) -> (r: bool) {
        self.transformation == other.transformation && self.material == other.material
    }
}

impl PartialEqSpecImpl for Sphere {
    open spec fn obeys_eq_spec() -> bool {
        true
    }

    open spec fn eq_spec(&self, other: &Sphere) -> bool {
        self.equals(*other)
    }
}

impl Default for Sphere {
    fn default() -> (s: Sphere)
        ensures
            s == Sphere::standard(),
    {
        Sphere::new()
    }
}

/// The origin of a frame, as a point.
pub open spec fn origin_point() -> Tuple {
    Tuple {
        x: Scalar { bits: ZERO },
        y: Scalar { bits: ZERO },
        z: Scalar { bits: ZERO },
        w: Scalar { bits: ONE },
    }
}

/// The discriminant `b * b - 4 * a * c` of the quadratic that a ray in the
/// sphere's frame gives: with `from_center` the ray's origin less the
/// center, `a = dir . dir`, `b = 2 * (dir . from_center)` and
/// `c = from_center . from_center - 1`.
pub open spec fn discriminant(ray: Ray) -> Scalar {
    quadratic_b(ray).times(quadratic_b(ray)).minus(
        Scalar { bits: FOUR }.times(quadratic_a(ray)).times(quadratic_c(ray)),
    )
}

/// `a`: the direction times itself.
pub open spec fn quadratic_a(ray: Ray) -> Scalar {
    ray.direction.dot(ray.direction)
}

/// `b`: twice the direction times the way from the center to the origin.
pub open spec fn quadratic_b(ray: Ray) -> Scalar {
    ray.direction.dot(ray.origin.minus(origin_point())).times(Scalar { bits: TWO })
}

/// `c`: the way from the center to the origin times itself, less one.
pub open spec fn quadratic_c(ray: Ray) -> Scalar {
    ray.origin.minus(origin_point()).dot(ray.origin.minus(origin_point())).minus(
        Scalar { bits: ONE },
    )
}

/// What the roots are divided by, `2 * a`.
pub open spec fn quadratic_divisor(ray: Ray) -> Scalar {
    Scalar { bits: TWO }.times(quadratic_a(ray))
}

/// The smaller root, `(-b - sqrt(disc)) / (2 * a)`.
pub open spec fn near_root(ray: Ray) -> Scalar {
    quadratic_b(ray).negated().minus(discriminant(ray).root()).over(quadratic_divisor(ray))
}

/// The larger root, `(-b + sqrt(disc)) / (2 * a)`.
pub open spec fn far_root(ray: Ray) -> Scalar {
    quadratic_b(ray).negated().plus(discriminant(ray).root()).over(quadratic_divisor(ray))
}

impl Sphere {
    /// Transformation and material are equal as numbers.
    pub open spec fn equals(self, other: Sphere) -> bool {
        self.transformation.equals(other.transformation) && self.material.equals(other.material)
    }

    /// The unit sphere about the world's origin, of the standard material.
    pub open spec fn standard() -> Sphere {
        Sphere { transformation: identity_matrix(), material: Material::standard() }
    }

    /// The ray in the sphere's own frame.
    pub open spec fn object_ray(self, ray: Ray) -> Ray {
        ray.moved_by(self.transformation.inverted())
    }

    /// Where the ray meets the sphere: nowhere where the discriminant is
    /// below zero, else at the two roots, the smaller first. The distances
    /// hold along the ray as it was given.
    pub open spec fn crossings(self, ray: Ray) -> Seq<Intersection> {
        let local = self.object_ray(ray);
        if discriminant(local).is_below_zero() {
            Seq::empty()
        } else {
            seq![
                Intersection { t: near_root(local), object: self },
                Intersection { t: far_root(local), object: self },
            ]
        }
    }

    /// The surface normal at a point of the world: in the sphere's frame
    /// the point less the center; brought back by the transpose of the
    /// inverse; `w` cleared; and made a unit vector.
    pub open spec fn normal(self, world_point: Tuple) -> Tuple {
        let inverse = self.transformation.inverted();
        let object_normal = world_point.moved_by(inverse).minus(origin_point());
        let world_normal = object_normal.moved_by(inverse.transposed());
        Tuple {
            x: world_normal.x,
            y: world_normal.y,
            z: world_normal.z,
            w: Scalar { bits: ZERO },
        }.unit()
    }

    /// The unit sphere about the origin of the world, of the standard
    /// material.
    pub fn new() -> (s: Sphere)
        ensures
            s == Sphere::standard(),
    {
        Sphere { transformation: identity(), material: Material::new() }
    }

    /// The meetings of a ray with the sphere, or `SingularMatrix` where the
    /// sphere's transformation has no inverse.
    pub fn intersect(self: &Self, ray: &Ray) -> (r: Result<Vec<Intersection>, SingularMatrix>)
        ensures
            self.transformation.is_singular() <==> r is Err,
            r is Ok ==> r->Ok_0@ == self.crossings(*ray),
    {
        let inverse = match self.transformation.inverse() {
            Ok(m) => m,
            Err(e) => {
                return Err(e);
            },
        };
        let transformed_ray = ray.transform(inverse);
        let origin = point(Scalar { bits: ZERO }, Scalar { bits: ZERO }, Scalar { bits: ZERO });
        let sphere_to_ray = crate::tuples::sub(&transformed_ray.origin, &origin);
        let a = dot(&transformed_ray.direction, &transformed_ray.direction);
        let b = dot(&transformed_ray.direction, &sphere_to_ray).mul(Scalar { bits: TWO });
        let c = dot(&sphere_to_ray, &sphere_to_ray).sub(Scalar { bits: ONE });
        let discriminant = b.mul(b).sub(Scalar { bits: FOUR }.mul(a).mul(c));
        let mut found: Vec<Intersection> = Vec::new();
        if discriminant.lt(Scalar { bits: ZERO }) {
            assert(found@ =~= self.crossings(*ray));
            return Ok(found);
        }
        let t1 = b.neg().sub(discriminant.sqrt()).div(Scalar { bits: TWO }.mul(a));
        let t2 = b.neg().add(discriminant.sqrt()).div(Scalar { bits: TWO }.mul(a));
        found.push(Intersection { t: t1, object: *self });
        found.push(Intersection { t: t2, object: *self });
        assert(found@ =~= self.crossings(*ray));
        Ok(found)
    }

    /// The unit normal of the surface at a point of the world that lies on
    /// it, or `SingularMatrix` where the sphere's transformation has no
    /// inverse.
    pub fn normal_at(self: &Self, world_point: Tuple) -> (r: Result<Tuple, SingularMatrix>)
        ensures
            self.transformation.is_singular() <==> r is Err,
            r is Ok ==> r->Ok_0 == self.normal(world_point),
    {
        let inverse = match self.transformation.inverse() {
            Ok(m) => m,
            Err(e) => {
                return Err(e);
            },
        };
        let object_point = world_point.transform(inverse);
        let origin = point(Scalar { bits: ZERO }, Scalar { bits: ZERO }, Scalar { bits: ZERO });
        let object_normal = crate::tuples::sub(&object_point, &origin);
        let mut world_normal = object_normal.transform(inverse.transpose());
        world_normal.w = Scalar { bits: ZERO };
        Ok(normalize(&world_normal))
    }
}

} // verus!
