//! Requests and replies as lines.

use crate::json::{parse, to_line};
use crate::sdk::error::ClientError;
use serde_json::Value;
use vstd::prelude::*;

verus! {

broadcast use vstd::string::group_string_axioms;

/// A connection to a node: one line for each request, one line for each reply.
pub struct Connection;

impl Connection {
    /// The line of a request.
    pub fn request_line(request: &Value) -> (line: Vec<u8>)
        ensures
            line@ == crate::json::line_bytes(crate::json::json_of(*request)),
    {
        to_line(request)
    }

    /// The reply on a line, line end and all. An empty line means that the node
    /// closed the connection.
    pub fn read_reply(line: &str) -> (reply: Result<Value, ClientError>)
        ensures
            match reply {
                Ok(value) => line@.len() > 0 && crate::json::parsed_json(line@) == Some(crate::json::json_of(value)),
                Err(ClientError::ConnectionClosed) => line@.len() == 0,
                Err(ClientError::MalformedResponse(fault)) => line@.len() > 0 && crate::json::parsed_json(line@) is None
                    && fault@ == crate::json::json_fault(line@),
                Err(_) => false,
            },
    {
        if line.unicode_len() == 0 {
            return Err(ClientError::ConnectionClosed);
        }
        match parse(line) {
            Ok(value) => Ok(value),
            Err(fault) => Err(ClientError::MalformedResponse(fault)),
        }
    }
}

} // verus!
