//! An agent runtime: processes that exchange messages, tasks handed out to workers, tools spoken
//! to over JSON-RPC, and a loader and opcodes for BEAM code.
pub mod agent_rt;
pub mod beam;
pub mod command_line;
pub mod defs;
pub mod ext_term_format;
pub mod fail;
pub mod json;
pub mod rt_util;
pub mod term;
pub mod util;
