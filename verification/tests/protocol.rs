//! Scenario tests for the protocol engine facade: exact wire lines,
//! framing, the read path's decisions, and the id requirement.

use stratum::codec::{decode, RpcMessage};
use stratum::framer::ReadEvent;
use stratum::json::JsonVal;
use stratum::msgs::{JobTemplate, LoginParams, RpcError};
use stratum::proto::StratumProtocol;

fn engine() -> StratumProtocol {
    StratumProtocol::new(String::from("proto"))
}

#[test]
fn login_request_exact_line() {
    let p = engine();
    let login = LoginParams {
        login: String::from("worker1"),
        pass: String::from("x"),
        agent: String::from("cli/1.0"),
    };
    let line = p.send_request(
        String::from("login"),
        Some(login.to_json()),
        Some(String::from("1")),
    );
    let expected = "{\"id\":\"1\",\"jsonrpc\":\"2.0\",\"method\":\"login\",\"params\":{\"login\":\"worker1\",\"pass\":\"x\",\"agent\":\"cli/1.0\"}}\n";
    assert_eq!(line, expected);
    assert!(line.ends_with('\n'));
    assert!(!line.ends_with("\n\n"));
}

#[test]
fn request_without_id_uses_reserved_zero() {
    let p = engine();
    let line = p.send_request(String::from("getjobtemplate"), None, None);
    assert_eq!(
        line,
        "{\"id\":\"0\",\"jsonrpc\":\"2.0\",\"method\":\"getjobtemplate\",\"params\":null}\n"
    );
}

#[test]
fn write_message_appends_one_terminator() {
    let p = engine();
    assert_eq!(p.write_message(String::from("hello")), "hello\n");
}

#[test]
fn write_message_terminator_idempotent() {
    let p = engine();
    let once = p.write_message(String::from("hello\n"));
    assert_eq!(once, "hello\n");
    let twice = p.write_message(once);
    assert_eq!(twice, "hello\n");
}

#[test]
fn blank_line_yields_no_message_and_clears_buffer() {
    let p = engine();
    let mut buffer = String::from("\n");
    let r = p.get_message(ReadEvent::Line, &mut buffer);
    assert_eq!(r, Ok(None));
    assert_eq!(buffer, "");
}

#[test]
fn complete_line_is_handed_out_with_terminator() {
    let p = engine();
    let mut buffer = String::from("{\"id\":\"1\"}\n");
    let r = p.get_message(ReadEvent::Line, &mut buffer);
    assert_eq!(r, Ok(Some(String::from("{\"id\":\"1\"}\n"))));
    assert_eq!(buffer, "");
}

#[test]
fn would_block_is_no_message_not_error() {
    let p = engine();
    let mut buffer = String::from("partial");
    let r = p.get_message(ReadEvent::WouldBlock, &mut buffer);
    assert_eq!(r, Ok(None));
    assert_eq!(buffer, "partial");
}

#[test]
fn clean_peer_close_is_connection_error() {
    let p = engine();
    let mut buffer = String::new();
    let first = p.get_message(ReadEvent::Closed, &mut buffer);
    assert_eq!(first, Err(String::from("peer closed the connection")));
    assert_eq!(buffer, "");
    let second = p.get_message(ReadEvent::Closed, &mut buffer);
    assert_eq!(second, Err(String::from("peer closed the connection")));
}

#[test]
fn eof_mid_line_is_connection_error() {
    let p = engine();
    let mut buffer = String::from("{\"id\":\"1");
    let r = p.get_message(ReadEvent::Line, &mut buffer);
    assert_eq!(r, Err(String::from("peer closed the connection")));
    assert_eq!(buffer, "");
}

#[test]
fn reset_reports_connection_error_and_again_on_retry() {
    let p = engine();
    let mut buffer = String::new();
    let first = p.get_message(
        ReadEvent::Failed(String::from("connection reset")),
        &mut buffer,
    );
    assert_eq!(first, Err(String::from("connection reset")));
    let second = p.get_message(
        ReadEvent::Failed(String::from("connection reset")),
        &mut buffer,
    );
    assert_eq!(second, Err(String::from("connection reset")));
}

#[test]
fn response_without_id_fails_before_any_output() {
    let p = engine();
    let r = p.send_response(String::from("job"), JsonVal::Null, None);
    assert!(r.is_err());
    let r2 = p.send_error_response(
        String::from("job"),
        RpcError {
            code: -1,
            message: String::from("x"),
        },
        None,
    );
    assert!(r2.is_err());
}

#[test]
fn job_template_response_round_trip() {
    let p = engine();
    let job = JobTemplate {
        height: 100,
        job_id: 7,
        difficulty: 500,
        pre_pow: String::from("abcd"),
    };
    let line = p
        .send_response(String::from("job"), job.to_json(), Some(String::from("42")))
        .unwrap();
    match decode(&line).unwrap() {
        RpcMessage::Response(resp) => {
            assert_eq!(resp.id, "42");
            assert_eq!(resp.method, "job");
            assert!(resp.error.is_none());
            let payload = resp.result.expect("result must be present");
            let decoded = JobTemplate::from_json(&payload).unwrap();
            assert_eq!(decoded, job);
        }
        RpcMessage::Request(_) => panic!("a response must decode as a response"),
    }
}

#[test]
fn error_response_has_error_set_result_null() {
    let p = engine();
    let err = RpcError {
        code: -32601,
        message: String::from("method not found"),
    };
    let line = p
        .send_error_response(String::from("job"), err, Some(String::from("9")))
        .unwrap();
    match decode(&line).unwrap() {
        RpcMessage::Response(resp) => {
            assert_eq!(resp.id, "9");
            assert!(resp.result.is_none());
            let payload = resp.error.expect("error must be present");
            let decoded = RpcError::from_json(&payload).unwrap();
            assert_eq!(decoded.code, -32601);
            assert_eq!(decoded.message, "method not found");
        }
        RpcMessage::Request(_) => panic!("an error response must decode as a response"),
    }
}

#[test]
fn request_line_decodes_as_request() {
    let p = engine();
    let login = LoginParams {
        login: String::from("w"),
        pass: String::from("p"),
        agent: String::from("a"),
    };
    let line = p.send_request(
        String::from("login"),
        Some(login.to_json()),
        Some(String::from("3")),
    );
    match decode(&line).unwrap() {
        RpcMessage::Request(req) => {
            assert_eq!(req.id, "3");
            assert_eq!(req.method, "login");
            let params = req.params.expect("params were supplied");
            let decoded = LoginParams::from_json(&params).unwrap();
            assert_eq!(decoded, login);
        }
        RpcMessage::Response(_) => panic!("a request must decode as a request"),
    }
}

#[test]
fn null_params_request_decodes_with_absent_params() {
    let p = engine();
    let line = p.send_request(String::from("keepalive"), None, Some(String::from("5")));
    match decode(&line).unwrap() {
        RpcMessage::Request(req) => {
            assert_eq!(req.method, "keepalive");
            assert!(req.params.is_none());
        }
        RpcMessage::Response(_) => panic!("a request must decode as a request"),
    }
}

fn expect_refused(text: &str) {
    match decode(text) {
        Err(e) => assert_eq!(e, text),
        Ok(_) => panic!("decode must refuse: {}", text),
    }
}

#[test]
fn decode_failures_carry_the_original_text() {
    expect_refused("not json");
    // An object that is neither request nor response.
    expect_refused("{\"id\":\"1\"}");
    // A request shape missing its id.
    expect_refused("{\"method\":\"x\",\"params\":null}");
    // A response shape missing its error member.
    expect_refused("{\"id\":\"1\",\"jsonrpc\":\"2.0\",\"method\":\"m\",\"result\":null}");
}

#[test]
fn decode_accepts_reordered_members() {
    let text = "{\"params\":null,\"method\":\"login\",\"jsonrpc\":\"2.0\",\"id\":\"8\"}";
    match decode(text).unwrap() {
        RpcMessage::Request(req) => {
            assert_eq!(req.id, "8");
            assert_eq!(req.method, "login");
            assert!(req.params.is_none());
        }
        RpcMessage::Response(_) => panic!("shape detection must pick request"),
    }
}
