//! Small verified building blocks used across the library.
pub mod assoc;
pub mod text;
