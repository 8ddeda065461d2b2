//! The numeric JSON-RPC error codes of the tool server.
use vstd::prelude::*;
use crate::text::str_eq;

verus! {

/// The JSON-RPC code of an internal error name: the protocol's own codes for
/// parse, request, method, parameter and internal errors, codes in the
/// server range for a missing tool or a tool's failure, and the generic
/// server error for any other name.
pub open spec fn spec_error_code(code: Seq<char>) -> i64 {
    if code == "parse_error"@ {
        -32700i64
    } else if code == "invalid_request"@ {
        -32600i64
    } else if code == "method_not_found"@ {
        -32601i64
    } else if code == "invalid_params"@ {
        -32602i64
    } else if code == "internal_error"@ {
        -32603i64
    } else if code == "tool_not_found"@ {
        -32001i64
    } else if code == "tool_error"@ {
        -32002i64
    } else {
        -32000i64
    }
}

/// Maps an internal error name to its JSON-RPC error code.
pub fn map_error_code(code: &str) -> (r: i64)
    ensures
        r == spec_error_code(code@),
{
    if str_eq(code, "parse_error") {
        -32700
    } else if str_eq(code, "invalid_request") {
        -32600
    } else if str_eq(code, "method_not_found") {
        -32601
    } else if str_eq(code, "invalid_params") {
        -32602
    } else if str_eq(code, "internal_error") {
        -32603
    } else if str_eq(code, "tool_not_found") {
        -32001
    } else if str_eq(code, "tool_error") {
        -32002
    } else {
        -32000
    }
}

} // verus!
