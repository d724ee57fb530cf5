//! Helpers for reading data.
pub mod bin_reader;
