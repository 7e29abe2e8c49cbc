//! A capacity-bounded buffer of records that keeps the most recent ones in a
//! file, through an encode/decode pair of the caller's choosing.
//!
//! The verified core, [`VecCache`], holds the records, applies the
//! eviction rule and says, as a [`FileOp`], what the backing file must
//! undergo after each operation. Performing that file work is left to the
//! caller's I/O binding.
pub mod cache;
pub mod error;
pub mod laws;

pub use cache::{FileOp, Rewrite, VecCache};
pub use error::{Error, ErrorKind};
