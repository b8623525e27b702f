//! The JSON-RPC envelope codec: requests and responses, their canonical
//! wire text, and the decoder that turns a received line back into one of
//! the two envelope shapes.
//!
//! A response carries exactly one of result and error; the encoders make
//! that structural.  The decoder first detects the shape — a member named
//! `result` or `error` marks a response, otherwise a member named `method`
//! marks a request — and then checks the envelope's typed fields, refusing
//! the text with the original line when anything is missing or mis-shaped.

use crate::json::{
    get_string, json_text, lemma_rep_obj_len, obj_find, obj_index, opt_str, rep_obj, JsonData,
    JsonVal,
};
use crate::msgs::{rpc_error_data, RpcError};
use crate::parse::{parse_json, sp_doc};
use vstd::prelude::*;
use vstd::string::StringExecFns;

verus! {

/// An outbound or inbound call envelope.
#[derive(Debug)]
pub struct RpcRequest {
    pub id: String,
    pub jsonrpc: String,
    pub method: String,
    pub params: Option<JsonVal>,
}

/// A reply envelope: result and error are mutually exclusive on any
/// envelope this codec produces.
#[derive(Debug)]
pub struct RpcResponse {
    pub id: String,
    pub jsonrpc: String,
    pub method: String,
    pub result: Option<JsonVal>,
    pub error: Option<JsonVal>,
}

/// What a received line decodes to: a call or a reply, told apart by
/// shape.
#[derive(Debug)]
pub enum RpcMessage {
    Request(RpcRequest),
    Response(RpcResponse),
}

/// A well-formed response carries exactly one of result and error.
pub open spec fn response_wf(r: RpcResponse) -> bool {
    (r.result is Some) <==> (r.error is None)
}

/// The model of an optional envelope member: absent encodes as null.
pub open spec fn opt_data(p: Option<JsonVal>) -> JsonData {
    match p {
        Some(v) => v@,
        None => JsonData::Null,
    }
}

/// The structured value a request envelope serializes to.
pub open spec fn req_data(r: RpcRequest) -> JsonData {
    JsonData::Obj(
        seq![
            ("id"@, JsonData::Str(r.id@)),
            ("jsonrpc"@, JsonData::Str(r.jsonrpc@)),
            ("method"@, JsonData::Str(r.method@)),
            ("params"@, opt_data(r.params)),
        ],
    )
}

/// The structured value a response envelope serializes to.
pub open spec fn resp_data(r: RpcResponse) -> JsonData {
    JsonData::Obj(
        seq![
            ("id"@, JsonData::Str(r.id@)),
            ("jsonrpc"@, JsonData::Str(r.jsonrpc@)),
            ("method"@, JsonData::Str(r.method@)),
            ("result"@, opt_data(r.result)),
            ("error"@, opt_data(r.error)),
        ],
    )
}

/// The correlation id an outbound request carries: the caller's, or the
/// reserved no-correlation id `"0"` when none was supplied.
pub open spec fn request_id(id: Option<String>) -> Seq<char> {
    match id {
        Some(s) => s@,
        None => "0"@,
    }
}

/// Build a request envelope: protocol version `"2.0"`, the given or
/// reserved id, and the params value (null when none) always present.
pub fn encode_request(method: String, params: Option<JsonVal>, id: Option<String>) -> (r:
    RpcRequest)
    ensures
        r.id@ == request_id(id),
        r.jsonrpc@ == "2.0"@,
        r.method == method,
        r.params is Some,
        opt_data(r.params) == (match params {
            Some(v) => v@,
            None => JsonData::Null,
        }),
{
    let rid = match id {
        None => String::from_str("0"),
        Some(s) => s,
    };
    let p = match params {
        Some(v) => v,
        None => JsonVal::Null,
    };
    RpcRequest { id: rid, jsonrpc: String::from_str("2.0"), method, params: Some(p) }
}

/// Build a success response envelope: result present, error absent.
/// An id is mandatory: with none supplied this fails deterministically,
/// before any text is produced.
pub fn encode_response(method: String, result: JsonVal, id: Option<String>) -> (r: Result<
    RpcResponse,
    String,
>)
    ensures
        r is Ok <==> id is Some,
        r matches Ok(resp) ==> (id matches Some(s) && resp.id == s && resp.jsonrpc@ == "2.0"@
            && resp.method == method && resp.result == Some(result) && resp.error is None
            && response_wf(resp)),
        r matches Err(e) ==> e@ == "response requires an id"@,
{
    let rid = match id {
        Some(s) => s,
        None => {
            return Err(String::from_str("response requires an id"));
        },
    };
    Ok(
        RpcResponse {
            id: rid,
            jsonrpc: String::from_str("2.0"),
            method,
            result: Some(result),
            error: None,
        },
    )
}

/// Build an error response envelope: error present, result absent.
/// The same id requirement holds as for a success response.
pub fn encode_error_response(method: String, error: RpcError, id: Option<String>) -> (r: Result<
    RpcResponse,
    String,
>)
    ensures
        r is Ok <==> id is Some,
        r matches Ok(resp) ==> (id matches Some(s) && resp.id == s && resp.jsonrpc@ == "2.0"@
            && resp.method == method && resp.result is None && (resp.error matches Some(e)
            && e@ == rpc_error_data(error)) && response_wf(resp)),
        r matches Err(e) ==> e@ == "response requires an id"@,
{
    let rid = match id {
        Some(s) => s,
        None => {
            return Err(String::from_str("response requires an id"));
        },
    };
    let payload = error.to_json();
    Ok(
        RpcResponse {
            id: rid,
            jsonrpc: String::from_str("2.0"),
            method,
            result: None,
            error: Some(payload),
        },
    )
}

/// The canonical wire text of a request envelope.
pub fn ser_request(req: RpcRequest) -> (out: String)
    ensures
        out@ == crate::json::json_seq(req_data(req)),
{
    let RpcRequest { id, jsonrpc, method, params } = req;
    let mut ms: Vec<(String, JsonVal)> = Vec::new();
    ms.push((String::from_str("id"), JsonVal::Str(id)));
    ms.push((String::from_str("jsonrpc"), JsonVal::Str(jsonrpc)));
    ms.push((String::from_str("method"), JsonVal::Str(method)));
    ms.push(
        (
            String::from_str("params"),
            match params {
                Some(v) => v,
                None => JsonVal::Null,
            },
        ),
    );
    let ghost m = ms@;
    let v = JsonVal::Obj(ms);
    proof {
        lemma_rep_obj_len(m);
        assert(rep_obj(m) =~= req_data(req)->Obj_0);
    }
    json_text(&v)
}

/// The canonical wire text of a response envelope.
pub fn ser_response(resp: RpcResponse) -> (out: String)
    ensures
        out@ == crate::json::json_seq(resp_data(resp)),
{
    let RpcResponse { id, jsonrpc, method, result, error } = resp;
    let mut ms: Vec<(String, JsonVal)> = Vec::new();
    ms.push((String::from_str("id"), JsonVal::Str(id)));
    ms.push((String::from_str("jsonrpc"), JsonVal::Str(jsonrpc)));
    ms.push((String::from_str("method"), JsonVal::Str(method)));
    ms.push(
        (
            String::from_str("result"),
            match result {
                Some(v) => v,
                None => JsonVal::Null,
            },
        ),
    );
    ms.push(
        (
            String::from_str("error"),
            match error {
                Some(v) => v,
                None => JsonVal::Null,
            },
        ),
    );
    let ghost m = ms@;
    let v = JsonVal::Obj(ms);
    proof {
        lemma_rep_obj_len(m);
        assert(rep_obj(m) =~= resp_data(resp)->Obj_0);
    }
    json_text(&v)
}

/// True when the document is shaped as a response: an object with a
/// `result` or `error` member.
pub open spec fn is_response_doc(d: JsonData) -> bool {
    d matches JsonData::Obj(ms) && (obj_index(ms, "result"@) is Some || obj_index(ms, "error"@)
        is Some)
}

/// True when the document is shaped as a request: an object with a
/// `method` member and neither `result` nor `error`.
pub open spec fn is_request_doc(d: JsonData) -> bool {
    d matches JsonData::Obj(ms) && obj_index(ms, "result"@) is None && obj_index(ms, "error"@)
        is None && obj_index(ms, "method"@) is Some
}

/// True when the typed request fields can all be read off the document.
pub open spec fn request_shaped(d: JsonData) -> bool {
    d matches JsonData::Obj(ms) && opt_str(obj_index(ms, "id"@)) && opt_str(
        obj_index(ms, "jsonrpc"@),
    ) && opt_str(obj_index(ms, "method"@)) && obj_index(ms, "params"@) is Some
}

/// True when the typed response fields can all be read off the document.
pub open spec fn response_shaped(d: JsonData) -> bool {
    d matches JsonData::Obj(ms) && opt_str(obj_index(ms, "id"@)) && opt_str(
        obj_index(ms, "jsonrpc"@),
    ) && opt_str(obj_index(ms, "method"@)) && obj_index(ms, "result"@) is Some && obj_index(
        ms,
        "error"@,
    ) is Some
}

/// How a decoded optional field relates to the member it was read from:
/// a null member reads as absent, any other as present and equal.
pub open spec fn opt_member_matches(m: Option<JsonData>, f: Option<JsonVal>) -> bool {
    match m {
        Some(dv) => if dv == JsonData::Null {
            f is None
        } else {
            f matches Some(v) && v@ == dv
        },
        None => false,
    }
}

/// The decoded request's fields, read off the document.
pub open spec fn req_matches(r: RpcRequest, d: JsonData) -> bool {
    d matches JsonData::Obj(ms) && obj_index(ms, "id"@) == Some(JsonData::Str(r.id@))
        && obj_index(ms, "jsonrpc"@) == Some(JsonData::Str(r.jsonrpc@)) && obj_index(
        ms,
        "method"@,
    ) == Some(JsonData::Str(r.method@)) && opt_member_matches(
        obj_index(ms, "params"@),
        r.params,
    )
}

/// The decoded response's fields, read off the document.
pub open spec fn resp_matches(r: RpcResponse, d: JsonData) -> bool {
    d matches JsonData::Obj(ms) && obj_index(ms, "id"@) == Some(JsonData::Str(r.id@))
        && obj_index(ms, "jsonrpc"@) == Some(JsonData::Str(r.jsonrpc@)) && obj_index(
        ms,
        "method"@,
    ) == Some(JsonData::Str(r.method@)) && opt_member_matches(
        obj_index(ms, "result"@),
        r.result,
    ) && opt_member_matches(obj_index(ms, "error"@), r.error)
}

/// Read an optional envelope member: absent stays absent, null reads as
/// absent, anything else as present.
fn get_member(members: &Vec<(String, JsonVal)>, key: &str) -> (r: Option<Option<JsonVal>>)
    ensures
        r is Some <==> obj_index(rep_obj(members@), key@) is Some,
        r matches Some(f) ==> opt_member_matches(obj_index(rep_obj(members@), key@), f),
{
    match obj_find(members, key) {
        Some(i) => match &members[i].1 {
            JsonVal::Null => Some(None),
            v => Some(Some(v.duplicate())),
        },
        None => None,
    }
}

/// Decode one line of wire text into whichever envelope shape is present.
///
/// Unparseable text, or an envelope missing a typed field, is refused with
/// the original text, for the caller to log and drop.
pub fn decode(text: &str) -> (r: Result<RpcMessage, String>)
    ensures
        match sp_doc(text@) {
            None => r is Err,
            Some(d) => if is_response_doc(d) {
                if response_shaped(d) {
                    r matches Ok(m) && m matches RpcMessage::Response(resp) && resp_matches(
                        resp,
                        d,
                    )
                } else {
                    r is Err
                }
            } else if is_request_doc(d) {
                if request_shaped(d) {
                    r matches Ok(m) && m matches RpcMessage::Request(req) && req_matches(
                        req,
                        d,
                    )
                } else {
                    r is Err
                }
            } else {
                r is Err
            },
        },
        r matches Err(e) ==> e@ == text@,
{
    let v = match parse_json(text) {
        Some(v) => v,
        None => {
            return Err(String::from_str(text));
        },
    };
    match &v {
        JsonVal::Obj(ms) => {
            let has_result = get_member(ms, "result");
            let has_error = get_member(ms, "error");
            if has_result.is_some() || has_error.is_some() {
                let id = match get_string(ms, "id") {
                    Some(x) => x,
                    None => {
                        return Err(String::from_str(text));
                    },
                };
                let jsonrpc = match get_string(ms, "jsonrpc") {
                    Some(x) => x,
                    None => {
                        return Err(String::from_str(text));
                    },
                };
                let method = match get_string(ms, "method") {
                    Some(x) => x,
                    None => {
                        return Err(String::from_str(text));
                    },
                };
                let result = match has_result {
                    Some(f) => f,
                    None => {
                        return Err(String::from_str(text));
                    },
                };
                let error = match has_error {
                    Some(f) => f,
                    None => {
                        return Err(String::from_str(text));
                    },
                };
                Ok(
                    RpcMessage::Response(
                        RpcResponse { id, jsonrpc, method, result, error },
                    ),
                )
            } else {
                let method = match get_string(ms, "method") {
                    Some(x) => x,
                    None => {
                        return Err(String::from_str(text));
                    },
                };
                let id = match get_string(ms, "id") {
                    Some(x) => x,
                    None => {
                        return Err(String::from_str(text));
                    },
                };
                let jsonrpc = match get_string(ms, "jsonrpc") {
                    Some(x) => x,
                    None => {
                        return Err(String::from_str(text));
                    },
                };
                let params = match get_member(ms, "params") {
                    Some(f) => f,
                    None => {
                        return Err(String::from_str(text));
                    },
                };
                Ok(RpcMessage::Request(RpcRequest { id, jsonrpc, method, params }))
            }
        },
        _ => Err(String::from_str(text)),
    }
}

} // verus!
