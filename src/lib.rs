//! Tracks versioned schema migrations and decides which of them to apply or
//! revert, and in which order, to reach a requested version. The schema work
//! itself and the record of applied versions belong to an [`Adapter`].

pub mod laws;
pub mod migrator;
pub mod range;
pub mod traits;

pub use migrator::Migrator;
pub use range::within_range;
pub use traits::{Adapter, Direction, Error, Migration, Version};
