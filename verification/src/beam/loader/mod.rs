//! Loading modules.
pub mod beam_file;
pub mod load_time_structs;
