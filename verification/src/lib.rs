//! Packing of rectangles into one bounding rectangle, on a fixed-point grid.
//!
//! [`PotPack::new`] takes a list of sized items and gives each a place, so
//! that no two overlap and the rectangle that bounds them wastes little.

pub mod units;
pub mod space;
pub mod boxes;
pub mod area;
pub mod sort;
pub mod start;
pub mod place;
pub mod layout;
pub mod pack;
pub mod prelude;

pub use crate::pack::{Packing, PotPack, Ratio};
pub use crate::space::{Id, SizedItem, Space};
