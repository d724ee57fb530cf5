//! The opcodes.
pub mod binary;
pub mod op_float;
pub mod op_map;
pub mod op_message;
pub mod op_try_catch;
