//! Route planning for boxes in a three-dimensional storage grid.
//!
//! The library models the grid as a dense matrix of cells together with an
//! index from box identifiers to positions, validates elementary single-axis
//! moves, finds routes with a label-correcting search ordered by
//! lexicographic cost (impeded steps before non-impeded steps), and resolves a
//! raw route into an executable sequence of elementary moves, displacing
//! blocking occupants where needed.

pub mod model;
pub mod grid;
pub mod moves;
pub mod pq;
pub mod search;
pub mod route;

pub use model::BoxId;
pub use model::BoxPosition;
pub use model::Demand;
