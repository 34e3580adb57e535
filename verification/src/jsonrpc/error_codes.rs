//! The JSON-RPC and LSP error codes that the server returns.

use vstd::prelude::*;

verus! {

pub const PARSE_ERROR: i64 = -32700;

pub const INVALID_REQUEST: i64 = -32600;

pub const METHOD_NOT_FOUND: i64 = -32601;

pub const INVALID_PARAMS: i64 = -32602;

pub const INTERNAL_ERROR: i64 = -32603;

/// A request arrived before `initialize`.
pub const SERVER_NOT_INITIALIZED: i64 = -32002;

/// A request failed for a known reason.
pub const REQUEST_FAILED: i64 = -32803;

} // verus!
