//! Laws of the geometry: what holds of every vector, point, transformation
//! and ray, proved from what the functions of the library are stated to
//! return.

pub mod exact;
pub mod lengths;
pub mod matrices;
pub mod rays;
pub mod shading;
pub mod scalings;
