//! Marching polygons: triangulating the active part of a regular polygon.
//!
//! A [`Mask`] marks each of the `N` vertices of a regular polygon as active or
//! inactive. [`Mask::march`] turns it into a list of triangles whose corners are
//! [`MarchPoint`]s: polygon vertices and midpoints of polygon edges.
//!
//! What the list holds is defined in [`model`]. What holds of it is proved in
//! [`laws`] (its corners and its length), in [`area`] (the area it covers) and
//! in [`turn`] (the way its triangles turn).

pub mod area;
pub mod bits;
pub mod count;
pub mod laws;
pub mod march_indices;
pub mod mask;
pub mod model;
pub mod point;
pub mod turn;
pub mod wrap;

pub use crate::march_indices::MarchIndices;
pub use crate::march_indices::Triangle;
pub use crate::mask::Mask;
pub use crate::point::MarchPoint;
