//! The types that a caller of the packer needs.

pub use crate::pack::{Packing, PotPack, Ratio};
pub use crate::space::{Id, SizedItem, Space};
