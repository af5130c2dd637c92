//! The error that a request to the host is answered with.

use crate::text::{concat2, concat3, text_equals};
use vstd::prelude::*;

verus! {

/// The error that a request to the host is answered with.
#[derive(Debug)]
pub struct RuntimeHostError {
    pub code: String,
    pub message: String,
}

/// The kind of error that a caller of the runtime protocol is told.
#[derive(Clone, Copy, Debug, PartialEq, Eq, Structural)]
pub enum RpcErrorKind {
    InvalidRequest,
    MethodNotFound,
    InternalError,
}

impl RuntimeHostError {
    /// Whether this error has the given code and message.
    pub open spec fn says(&self, code: Seq<char>, message: Seq<char>) -> bool {
        self.code@ == code && self.message@ == message
    }

    pub fn new(code: &str, message: &str) -> (result: RuntimeHostError)
        ensures
            result.says(code@, message@),
    {
        RuntimeHostError { code: code.to_owned(), message: message.to_owned() }
    }

    /// The request makes no sense.
    pub fn invalid_request(message: &str) -> (result: RuntimeHostError)
        ensures
            result.says("invalid_request"@, message@),
    {
        RuntimeHostError::new("invalid_request", message)
    }

    /// There is no such command.
    pub fn unknown_command(command: &str) -> (result: RuntimeHostError)
        ensures
            result.says("unknown_command"@, "unknown command: "@ + command@),
    {
        RuntimeHostError::new("unknown_command", concat2("unknown command: ", command).as_str())
    }

    /// The request could not be carried.
    pub fn transport(message: &str) -> (result: RuntimeHostError)
        ensures
            result.says("transport_error"@, message@),
    {
        RuntimeHostError::new("transport_error", message)
    }

    /// The payload of the request is not the JSON that the command takes.
    pub fn json_parse_failed(error: &str) -> (result: RuntimeHostError)
        ensures
            result.says("invalid_request"@, "json parse failed: "@ + error@),
    {
        RuntimeHostError::invalid_request(concat2("json parse failed: ", error).as_str())
    }

    /// The kind of error that a caller of the runtime protocol is told, beside the code and the
    /// message.
    pub fn rpc_error_kind(&self) -> (result: RpcErrorKind)
        ensures
            result == if self.code@ == "invalid_request"@ {
                RpcErrorKind::InvalidRequest
            } else if self.code@ == "unknown_command"@ {
                RpcErrorKind::MethodNotFound
            } else {
                RpcErrorKind::InternalError
            },
    {
        if text_equals(self.code.as_str(), "invalid_request") {
            RpcErrorKind::InvalidRequest
        } else if text_equals(self.code.as_str(), "unknown_command") {
            RpcErrorKind::MethodNotFound
        } else {
            RpcErrorKind::InternalError
        }
    }

    /// The error as text: its code and its message.
    pub fn display_text(&self) -> (result: String)
        ensures
            result@ == self.code@ + ": "@ + self.message@,
    {
        concat3(self.code.as_str(), ": ", self.message.as_str())
    }
}

} // verus!
