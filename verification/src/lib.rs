//! A ray caster core: homogeneous vectors, affine transformations, ray and
//! sphere intersection, hit selection and Phong shading, computed in IEEE 754
//! binary32 arithmetic that is carried out on bit patterns and proved against
//! the exact values those patterns stand for.

pub mod ieee;
pub mod scalar;
pub mod tuples;
pub mod transformations;
pub mod colors;
pub mod lights;
pub mod rays;
pub mod materials;
pub mod spheres;
pub mod intersections;
pub mod world;
pub mod canvas;
pub mod laws;
