//! The protocol engine facade a connection-handling layer drives: compose
//! the envelope codec with the line framer.
//!
//! The engine is stateless across calls — it owns nothing but a diagnostic
//! identifier — so one independent instance serves each connection.  The
//! transport itself (sockets, buffered streams) lives outside: the read
//! path takes the outcome of one line-read attempt as a [`ReadEvent`], and
//! the send paths hand back the exact newline-terminated line to put on
//! the wire.

use crate::codec::{
    encode_error_response, encode_request, encode_response, req_data, request_id, resp_data,
    ser_request, ser_response,
};
use crate::framer::{frame_message, framed, read_outcome, ReadEvent};
use crate::json::{json_seq, JsonData, JsonVal};
use crate::msgs::{rpc_error_data, RpcError};
use vstd::prelude::*;

verus! {

/// The exact unframed wire text of a request built from the given parts.
pub open spec fn request_line(
    method: Seq<char>,
    params: Option<JsonVal>,
    id: Option<String>,
) -> Seq<char> {
    json_seq(
        JsonData::Obj(
            seq![
                ("id"@, JsonData::Str(request_id(id))),
                ("jsonrpc"@, JsonData::Str("2.0"@)),
                ("method"@, JsonData::Str(method)),
                (
                    "params"@,
                    match params {
                        Some(v) => v@,
                        None => JsonData::Null,
                    },
                ),
            ],
        ),
    )
}

/// The exact unframed wire text of a success response built from the
/// given parts: result present, error null.
pub open spec fn response_line(method: Seq<char>, result: JsonVal, id: Seq<char>) -> Seq<char> {
    json_seq(
        JsonData::Obj(
            seq![
                ("id"@, JsonData::Str(id)),
                ("jsonrpc"@, JsonData::Str("2.0"@)),
                ("method"@, JsonData::Str(method)),
                ("result"@, result@),
                ("error"@, JsonData::Null),
            ],
        ),
    )
}

/// The exact unframed wire text of an error response built from the given
/// parts: result null, error present.
pub open spec fn error_line(method: Seq<char>, error: RpcError, id: Seq<char>) -> Seq<char> {
    json_seq(
        JsonData::Obj(
            seq![
                ("id"@, JsonData::Str(id)),
                ("jsonrpc"@, JsonData::Str("2.0"@)),
                ("method"@, JsonData::Str(method)),
                ("result"@, JsonData::Null),
                ("error"@, rpc_error_data(error)),
            ],
        ),
    )
}

/// The protocol engine for one connection.
pub struct StratumProtocol {
    id: String,
}

impl StratumProtocol {
    /// The engine's diagnostic identifier.
    pub closed spec fn spec_id(&self) -> Seq<char> {
        self.id@
    }

    /// A new engine, tagged with its connection's diagnostic identifier.
    pub fn new(id: String) -> (r: StratumProtocol)
        ensures
            r.spec_id() == id@,
    {
        StratumProtocol { id }
    }

    /// Interpret one line-read attempt: a ready terminated line is handed
    /// out and the buffer cleared, except that a lone terminator is
    /// absorbed as "no message"; a closed peer — a zero-byte read, or end
    /// of input mid-line — is a connection-level error; a would-block is
    /// "no message yet", never an error, the buffer kept; any other
    /// failure clears the buffer and is a connection-level error.
    fn read_message(&self, event: ReadEvent, buffer: &mut String) -> (r: Result<
        Option<String>,
        String,
    >)
        ensures
            crate::framer::read_contract(event, old(buffer)@, final(buffer)@, r),
    {
        read_outcome(event, buffer)
    }

    /// Pull at most one raw line per invocation, given what the transport
    /// saw on its read attempt.  The contract is the read path's: blank
    /// lines are absorbed, would-block is no message, a closed peer and
    /// every other failure are connection errors.
    pub fn get_message(&self, event: ReadEvent, buffer: &mut String) -> (r: Result<
        Option<String>,
        String,
    >)
        ensures
            crate::framer::read_contract(event, old(buffer)@, final(buffer)@, r),
    {
        self.read_message(event, buffer)
    }

    /// The exact line the write path puts on the wire for a message: the
    /// message itself when it already ends with the terminator, otherwise
    /// the message with exactly one terminator appended.
    pub fn write_message(&self, message_in: String) -> (r: String)
        ensures
            r@ == framed(message_in@),
    {
        frame_message(message_in)
    }

    /// Build and frame a request: the wire line carrying the method, the
    /// params (null when none), and the given or reserved correlation id.
    pub fn send_request(
        &self,
        method: String,
        params: Option<JsonVal>,
        connection_id: Option<String>,
    ) -> (r: String)
        ensures
            r@ == framed(request_line(method@, params, connection_id)),
    {
        let ghost gparams = params;
        let ghost gid = connection_id;
        let req = encode_request(method, params, connection_id);
        proof {
            assert(req_data(req)->Obj_0 =~= JsonData::Obj(
                seq![
                    ("id"@, JsonData::Str(request_id(gid))),
                    ("jsonrpc"@, JsonData::Str("2.0"@)),
                    ("method"@, JsonData::Str(req.method@)),
                    (
                        "params"@,
                        match gparams {
                            Some(v) => v@,
                            None => JsonData::Null,
                        },
                    ),
                ],
            )->Obj_0);
        }
        let text = ser_request(req);
        frame_message(text)
    }

    /// Build and frame a success response.  An id is mandatory: with none
    /// supplied this fails deterministically, before any line is produced.
    pub fn send_response(&self, method: String, result: JsonVal, id: Option<String>) -> (r:
        Result<String, String>)
        ensures
            r is Ok <==> id is Some,
            r matches Ok(line) ==> (id matches Some(s) && line@ == framed(
                response_line(method@, result, s@),
            )),
            r matches Err(e) ==> e@ == "response requires an id"@,
    {
        let ghost gresult = result;
        let ghost gid = id;
        let resp = match encode_response(method, result, id) {
            Ok(resp) => resp,
            Err(e) => {
                return Err(e);
            },
        };
        proof {
            assert(resp_data(resp)->Obj_0 =~= JsonData::Obj(
                seq![
                    ("id"@, JsonData::Str(resp.id@)),
                    ("jsonrpc"@, JsonData::Str("2.0"@)),
                    ("method"@, JsonData::Str(resp.method@)),
                    ("result"@, gresult@),
                    ("error"@, JsonData::Null),
                ],
            )->Obj_0);
        }
        let text = ser_response(resp);
        Ok(frame_message(text))
    }

    /// Build and frame an error response, under the same id requirement.
    pub fn send_error_response(&self, method: String, error: RpcError, id: Option<String>) -> (r:
        Result<String, String>)
        ensures
            r is Ok <==> id is Some,
            r matches Ok(line) ==> (id matches Some(s) && line@ == framed(
                error_line(method@, error, s@),
            )),
            r matches Err(e) ==> e@ == "response requires an id"@,
    {
        let ghost gerror = error;
        let resp = match encode_error_response(method, error, id) {
            Ok(resp) => resp,
            Err(e) => {
                return Err(e);
            },
        };
        proof {
            assert(resp_data(resp)->Obj_0 =~= JsonData::Obj(
                seq![
                    ("id"@, JsonData::Str(resp.id@)),
                    ("jsonrpc"@, JsonData::Str("2.0"@)),
                    ("method"@, JsonData::Str(resp.method@)),
                    ("result"@, JsonData::Null),
                    ("error"@, rpc_error_data(gerror)),
                ],
            )->Obj_0);
        }
        let text = ser_response(resp);
        Ok(frame_message(text))
    }
}

} // verus!
