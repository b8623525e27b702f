//! Round trips for every message payload — encode to wire text, parse it
//! back, decode the typed value — and cross-checks of the produced text
//! against an independent JSON implementation.

use stratum::json::{json_text, JsonVal};
use stratum::msgs::{JobTemplate, LoginParams, RpcError, SubmitParams, WorkerStatus};
use stratum::parse::parse_json;

fn text_round_trip(v: &JsonVal) -> JsonVal {
    let text = json_text(v);
    parse_json(&text).expect("canonical text must parse")
}

#[test]
fn job_template_round_trips_through_text() {
    let t = JobTemplate {
        height: 100,
        job_id: 7,
        difficulty: 500,
        pre_pow: String::from("abcd"),
    };
    let back = JobTemplate::from_json(&text_round_trip(&t.to_json())).unwrap();
    assert_eq!(back, t);
}

#[test]
fn worker_status_round_trips_through_text() {
    let w = WorkerStatus {
        id: String::from("w-1"),
        height: 9_000,
        curdiff: 8,
        nextdiff: 16,
        totalwork: u64::MAX,
        accepted: 3,
        rejected: 1,
        stale: 0,
    };
    let back = WorkerStatus::from_json(&text_round_trip(&w.to_json())).unwrap();
    assert_eq!(back, w);
}

#[test]
fn login_params_round_trips_through_text() {
    let l = LoginParams {
        login: String::from("worker\"one\""),
        pass: String::from("p\\a\nss"),
        agent: String::from("agent/1.0\t"),
    };
    let back = LoginParams::from_json(&text_round_trip(&l.to_json())).unwrap();
    assert_eq!(back, l);
}

#[test]
fn submit_params_round_trips_through_text() {
    let s = SubmitParams {
        height: 42,
        job_id: 9,
        nonce: u64::MAX,
        edge_bits: 29,
        pow: vec![1, 2, 3, 0, u64::MAX],
    };
    let back = SubmitParams::from_json(&text_round_trip(&s.to_json())).unwrap();
    assert_eq!(back, s);
}

#[test]
fn rpc_error_round_trips_through_text() {
    let e = RpcError {
        code: i32::MIN,
        message: String::from("fel: \u{e5}\u{e4}\u{f6}"),
    };
    let back = RpcError::from_json(&text_round_trip(&e.to_json())).unwrap();
    assert_eq!(back, e);
}

#[test]
fn empty_payloads_round_trip() {
    let t = JobTemplate::new();
    let back = JobTemplate::from_json(&text_round_trip(&t.to_json())).unwrap();
    assert_eq!(back, t);
    let w = WorkerStatus::new(String::from(""));
    let back_w = WorkerStatus::from_json(&text_round_trip(&w.to_json())).unwrap();
    assert_eq!(back_w, w);
}

#[test]
fn new_constructors_start_at_zero() {
    let t = JobTemplate::new();
    assert_eq!(t.height, 0);
    assert_eq!(t.job_id, 0);
    assert_eq!(t.difficulty, 0);
    assert_eq!(t.pre_pow, "");
    let w = WorkerStatus::new(String::from("w9"));
    assert_eq!(w.id, "w9");
    assert_eq!(
        (w.height, w.curdiff, w.nextdiff, w.totalwork),
        (0, 0, 0, 0)
    );
    assert_eq!((w.accepted, w.rejected, w.stale), (0, 0, 0));
}

#[test]
fn produced_text_is_valid_json_elsewhere() {
    let t = JobTemplate {
        height: 100,
        job_id: 7,
        difficulty: 500,
        pre_pow: String::from("ab\"cd"),
    };
    let text = json_text(&t.to_json());
    let value: serde_json::Value = serde_json::from_str(&text).unwrap();
    assert_eq!(value["height"], serde_json::Value::from(100u64));
    assert_eq!(value["job_id"], serde_json::Value::from(7u64));
    assert_eq!(value["difficulty"], serde_json::Value::from(500u64));
    assert_eq!(value["pre_pow"], serde_json::Value::from("ab\"cd"));
}

#[test]
fn serde_encoded_text_decodes_here() {
    let mut map = serde_json::Map::new();
    map.insert(String::from("login"), serde_json::Value::from("w1"));
    map.insert(String::from("pass"), serde_json::Value::from("s"));
    map.insert(String::from("agent"), serde_json::Value::from("a/2"));
    let text = serde_json::to_string(&serde_json::Value::Object(map)).unwrap();
    let parsed = parse_json(&text).expect("serde output must parse here");
    let l = LoginParams::from_json(&parsed).unwrap();
    assert_eq!(l.login, "w1");
    assert_eq!(l.pass, "s");
    assert_eq!(l.agent, "a/2");
}

#[test]
fn from_json_refuses_missing_and_misshaped_fields() {
    // Missing field.
    let text = "{\"height\":1,\"job_id\":2,\"difficulty\":3}";
    assert!(JobTemplate::from_json(&parse_json(text).unwrap()).is_none());
    // Wrong type.
    let text2 = "{\"height\":\"1\",\"job_id\":2,\"difficulty\":3,\"pre_pow\":\"x\"}";
    assert!(JobTemplate::from_json(&parse_json(text2).unwrap()).is_none());
    // Negative where unsigned is required.
    let text3 = "{\"height\":-1,\"job_id\":2,\"difficulty\":3,\"pre_pow\":\"x\"}";
    assert!(JobTemplate::from_json(&parse_json(text3).unwrap()).is_none());
    // Extra members are ignored.
    let text4 = "{\"height\":1,\"job_id\":2,\"difficulty\":3,\"pre_pow\":\"x\",\"spare\":true}";
    assert!(JobTemplate::from_json(&parse_json(text4).unwrap()).is_some());
}

#[test]
fn parser_handles_whitespace_escapes_and_limits() {
    assert!(parse_json(" { } ").is_some());
    assert!(parse_json("[ 1 , 2 ]").is_some());
    assert!(parse_json("\"a\\nb\\\"c\\\\d\\/e\"").is_some());
    assert!(parse_json("-7").is_some());
    // Fractions, exponents and bare words are refused.
    assert!(parse_json("12.5").is_none());
    assert!(parse_json("1e3").is_none());
    assert!(parse_json("tru").is_none());
    assert!(parse_json("").is_none());
    assert!(parse_json("{\"a\":1,}").is_none());
    // Numbers beyond the engine's range are refused.
    assert!(parse_json("170141183460469231731687303715884105727").is_some());
    assert!(parse_json("170141183460469231731687303715884105728").is_none());
}

#[test]
fn every_engine_number_round_trips() {
    // The most negative number the engine carries serializes and parses
    // back, so everything the serializer emits is accepted again.
    let v = JsonVal::Num(i128::MIN);
    let text = json_text(&v);
    assert_eq!(text, "-170141183460469231731687303715884105728");
    let parsed = parse_json(&text).expect("own output must parse");
    assert_eq!(json_text(&parsed), text);
    // One magnitude further is out of range.
    assert!(parse_json("-170141183460469231731687303715884105729").is_none());
}

#[test]
fn unicode_escapes_decode() {
    let parsed = parse_json("\"\\u0041\\u00e9\\u004A\"").expect("hex escapes must parse");
    assert_eq!(json_text(&parsed), "\"A\u{e9}J\"");
    // Surrogates, bad digits and short escapes are refused.
    assert!(parse_json("\"\\ud800\"").is_none());
    assert!(parse_json("\"\\u00zz\"").is_none());
    assert!(parse_json("\"\\u00\"").is_none());
}
