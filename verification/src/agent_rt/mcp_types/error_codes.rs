//! The codes of the errors that the server answers with.
use vstd::prelude::*;

verus! {

/// There is no session, or it was not initialized.
pub const SESSION_NOT_INITIALIZED: i64 = -32001;

/// The session is gone.
pub const SESSION_EXPIRED: i64 = -32002;

/// There is no such tool.
pub const TOOL_NOT_FOUND: i64 = -32004;

/// The text is not JSON.
pub const PARSE_ERROR: i64 = -32700;

/// The value is not a request.
pub const INVALID_REQUEST: i64 = -32600;

/// There is no such method.
pub const METHOD_NOT_FOUND: i64 = -32601;

/// The parameters do not fit the method.
pub const INVALID_PARAMS: i64 = -32602;

/// The server itself failed.
pub const INTERNAL_ERROR: i64 = -32603;

} // verus!
