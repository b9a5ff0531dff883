//! Adaptive quadtree extraction of the zero set of a sampled 2D field, on an
//! integer lattice: construction, collapse, classification and the edges
//! where the field changes sign; with a few small utilities.
mod arena;
pub mod easing;
mod geometry;
mod hermite;
mod line_intersect;
pub mod midi;
mod model;
pub mod models;
mod quadtree;

pub use arena::{QtInterior, QtLeaf, QtNode};
pub use geometry::{Point, Rect, COORD_LIMIT};
pub use hermite::HermiteData;
pub use line_intersect::{PointTest, RayInt};
pub use model::{CellClass, Tree};
pub use models::add_linear_index;
pub use quadtree::{QuadTree, MAX_DEPTH};
