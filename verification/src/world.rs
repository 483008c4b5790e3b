//! What a ray sees: the meetings with all spheres pooled, and the surface
//! at the one that is seen.

use vstd::prelude::*;
use crate::intersections::Intersection;
use crate::materials::Material;
use crate::rays::Ray;
use crate::spheres::Sphere;
use crate::transformations::SingularMatrix;
use crate::tuples::{Tuple, negate};

verus! {

/// What shading needs to know of a visible point.
#[derive(Clone, Copy, Debug)]
pub struct Surface {
    /// The point in the world.
    pub point: Tuple,
    /// The direction from the point to the eye.
    pub eye: Tuple,
    /// The unit normal of the surface at the point.
    pub normal: Tuple,
    /// The material of the object.
    pub material: Material,
}

/// The meetings of the ray with the first `n` spheres, sphere after sphere.
pub open spec fn pooled(spheres: Seq<Sphere>, ray: Ray, n: int) -> Seq<Intersection>
    decreases n,
{
    if n <= 0 {
        Seq::empty()
    } else {
        pooled(spheres, ray, n - 1) + spheres[n - 1].crossings(ray)
    }
}

/// One of the first `n` spheres has a transformation without inverse.
pub open spec fn any_singular(spheres: Seq<Sphere>, n: int) -> bool {
    exists|i: int| 0 <= i < n && (#[trigger] spheres[i]).transformation.is_singular()
}

/// The surface at a meeting of the ray: the point at the meeting's distance,
/// the direction back along the ray, and the object's normal and material.
pub open spec fn surface(ray: Ray, meeting: Intersection) -> Surface {
    Surface {
        point: ray.at(meeting.t),
        eye: ray.direction.negated(),
        normal: meeting.object.normal(ray.at(meeting.t)),
        material: meeting.object.material,
    }
}

/// The meetings of a ray with all spheres, sphere after sphere, or
/// `SingularMatrix` where one of the transformations has no inverse.
pub fn intersect_all(spheres: &Vec<Sphere>, ray: &Ray) -> (r: Result<
    Vec<Intersection>,
    SingularMatrix,
>)
    ensures
        any_singular(spheres@, spheres@.len() as int) <==> r is Err,
        r is Ok ==> r->Ok_0@ == pooled(spheres@, *ray, spheres@.len() as int),
{
    let mut all: Vec<Intersection> = Vec::new();
    let mut i: usize = 0;
    while i < spheres.len()
        invariant
            i <= spheres.len(),
            !any_singular(spheres@, i as int),
            all@ == pooled(spheres@, *ray, i as int),
        decreases spheres.len() - i,
    {
        let found = match spheres[i].intersect(ray) {
            Ok(found) => found,
            Err(e) => {
                return Err(e);
            },
        };
        let mut k: usize = 0;
        while k < found.len()
            invariant
                k <= found.len(),
                i < spheres.len(),
                found@ == spheres@[i as int].crossings(*ray),
                all@ == pooled(spheres@, *ray, i as int) + found@.take(k as int),
            decreases found.len() - k,
        {
            all.push(found[k]);
            proof {
                assert(found@.take(k as int + 1) =~= found@.take(k as int).push(found@[k as int]));
                assert(all@ =~= pooled(spheres@, *ray, i as int) + found@.take(k as int + 1));
            }
            k = k + 1;
        }
        proof {
            assert(found@.take(found@.len() as int) =~= found@);
        }
        i = i + 1;
    }
    Ok(all)
}

/// The surface that a ray sees at one of its meetings, or `SingularMatrix`
/// where the object's transformation has no inverse.
pub fn surface_at(ray: &Ray, meeting: &Intersection) -> (r: Result<Surface, SingularMatrix>)
    ensures
        meeting.object.transformation.is_singular() <==> r is Err,
        r is Ok ==> r->Ok_0 == surface(*ray, *meeting),
{
    let point = ray.position(meeting.t);
    let normal = match meeting.object.normal_at(point) {
        Ok(n) => n,
        Err(e) => {
            return Err(e);
        },
    };
    Ok(
        Surface {
            point: point,
            eye: negate(&ray.direction),
            normal: normal,
            material: meeting.object.material,
        },
    )
}

} // verus!
