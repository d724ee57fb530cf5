//! Sizes and data readers shared by the loader and the opcodes.
pub mod bits;
pub mod bitsize;
pub mod data_reader;
pub mod sizes;

pub use self::bitsize::BitSize;
pub use self::sizes::{SizeBytes, SizeWords};
