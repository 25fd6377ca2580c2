//! Utilities.

pub mod bit;
pub mod core_affinity;
pub mod fastrand;
pub mod slab;
pub mod slots;
