//! Where a ray meets an object, and which meeting is seen.

use vstd::prelude::*;
use crate::scalar::{Scalar, ZERO};
use crate::spheres::Sphere;

verus! {

/// A meeting of a ray with an object, at the distance `t` along the ray.
#[derive(Clone, Copy, Debug)]
pub struct Intersection {
    pub t: Scalar,
    pub object: Sphere,
}

/// The meeting at `i` lies in front of the ray's origin.
pub open spec fn in_front(intersections: Seq<Intersection>, i: int) -> bool {
    0 <= i < intersections.len() && intersections[i].t.is_above_zero()
}

/// The meeting at `i` is the one that is seen: it lies in front, none in
/// front is nearer, and those before it in the list are farther.
pub open spec fn is_hit(intersections: Seq<Intersection>, i: int) -> bool {
    &&& in_front(intersections, i)
    &&& forall|j: int| #[trigger]
        in_front(intersections, j) ==> !intersections[j].t.below(intersections[i].t)
    &&& forall|j: int|
        j < i && #[trigger] in_front(intersections, j) ==> intersections[i].t.below(
            intersections[j].t,
        )
}

/// The nearest meeting in front of the ray's origin; of several at the same
/// distance, the first. Nothing where no meeting lies in front.
pub fn hit(intersections: Vec<Intersection>) -> (r: Option<Intersection>)
    ensures
        r is None <==> forall|j: int| !in_front(intersections@, j),
        r is Some ==> exists|i: int|
            is_hit(intersections@, i) && r->Some_0 == #[trigger] intersections@[i],
{
    let mut best: Option<usize> = None;
    let mut i: usize = 0;
    while i < intersections.len()
        invariant
            i <= intersections.len(),
            best is None ==> forall|j: int| j < i ==> !in_front(intersections@, j),
            best is Some ==> best->Some_0 < i && in_front(intersections@, best->Some_0 as int),
            best is Some ==> forall|j: int|
                j < i && #[trigger] in_front(intersections@, j) ==> !intersections@[j].t.below(
                    intersections@[best->Some_0 as int].t,
                ),
            best is Some ==> forall|j: int|
                j < best->Some_0 && #[trigger] in_front(intersections@, j)
                    ==> intersections@[best->Some_0 as int].t.below(intersections@[j].t),
        decreases intersections.len() - i,
    {
        let t = intersections[i].t;
        if t.gt(Scalar { bits: ZERO }) {
            match best {
                None => {
                    best = Some(i);
                },
                Some(b) => {
                    if t.lt(intersections[b].t) {
                        best = Some(i);
                    }
                },
            }
        }
        i = i + 1;
    }
    match best {
        None => None,
        Some(b) => {
            assert(is_hit(intersections@, b as int));
            Some(intersections[b])
        },
    }
}

} // verus!
