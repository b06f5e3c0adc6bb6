//! A shared mutable cell whose handle reads independent snapshots and
//! replaces the stored value under a lock.

pub mod linalg;
pub mod mem;

pub use linalg::{Matrix, Vector};
pub use mem::Ptr;
