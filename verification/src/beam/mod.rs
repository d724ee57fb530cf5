//! BEAM code: reading it from a file, and running its opcodes.
pub mod disp_result;
pub mod loader;
pub mod opcodes;
pub mod runtime;
