//! Locality-driven layout search for a cubic voxel grid.
//!
//! A [`layout::Layout`] assigns every cell of a `W x W x W` grid a distinct
//! slot of a flat array. The crate provides the Morton (Z-order) codec used
//! as a baseline, the locality cost of a layout, and a randomized
//! hill-climbing search that only ever keeps non-worsening batches of swaps.
//!
//! Everything is verified except the calls into `bevy`'s hash map, which
//! holds a layout, and into `rand`, which shuffles and draws. Those calls
//! are gathered in [`store`] and [`chance`], each behind a small function
//! whose contract is taken on trust.

pub mod coord;
pub mod morton;
pub mod store;
pub mod text;
pub mod cost;
pub mod chance;
pub mod layout;
pub mod search;

pub use coord::linearize;
pub use coord::Coord;
pub use coord::UCoord;
pub use coord::WIDTH;
pub use cost::CostPolicy;
pub use layout::Layout;
pub use layout::SnapshotError;
pub use morton::to_morton_index;
pub use morton::Morton3D;
pub use search::random_search;
pub use search::RandomSearch;
