//! Per-node neighbor lists of a connectivity graph, built from the pattern
//! of nonzero entries of its adjacency matrix.
pub mod model;
pub mod qubit;
pub mod rows;
pub mod table;

pub use qubit::PhysicalQubit;
pub use rows::{build_neighbors, IndexConversionError};
pub use table::{ConstructOptions, NeighborTable};
