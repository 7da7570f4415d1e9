//! Tests of the JSON codec, the envelopes, the identifiers and the error
//! mapping, on concrete values.

use a_rs_jsonrpc::json::JsonValue;
use a_rs_jsonrpc::id::{Id, IdGenerator};
use a_rs_jsonrpc::error::{RpcError, JsonRpcError};
use a_rs_jsonrpc::request::{JsonRpcRequest, JsonRpcVersion, parse_request, decode_request};
use a_rs_jsonrpc::response::{JsonRpcResponse, parse_response, respond};
use a_rs_jsonrpc::ser::serialize_json;
use a_rs_jsonrpc::parse::parse_json_chars;
use a_rs_jsonrpc::text::str_to_chars;

fn parse_json(s: &str) -> Option<JsonValue> {
    parse_json_chars(&str_to_chars(s))
}

#[test]
fn test_serialize_scalars() {
    assert_eq!(serialize_json(&JsonValue::Null), "null");
    assert_eq!(serialize_json(&JsonValue::Bool(true)), "true");
    assert_eq!(serialize_json(&JsonValue::Bool(false)), "false");
    assert_eq!(serialize_json(&JsonValue::UInt(0)), "0");
    assert_eq!(serialize_json(&JsonValue::UInt(18446744073709551615)), "18446744073709551615");
    assert_eq!(serialize_json(&JsonValue::Int(-1)), "-1");
    assert_eq!(serialize_json(&JsonValue::Int(i64::MIN)), "-9223372036854775808");
    assert_eq!(serialize_json(&JsonValue::Text("hi".to_string())), "\"hi\"");
}

#[test]
fn test_serialize_escapes() {
    let v = JsonValue::Text("a\"b\\c".to_string());
    assert_eq!(serialize_json(&v), "\"a\\\"b\\\\c\"");
}

#[test]
fn test_serialize_nested() {
    let v = JsonValue::Obj(vec![
        ("a".to_string(), JsonValue::Arr(vec![JsonValue::UInt(1), JsonValue::Null])),
        ("b".to_string(), JsonValue::Obj(vec![])),
    ]);
    assert_eq!(serialize_json(&v), "{\"a\":[1,null],\"b\":{}}");
}

#[test]
fn test_parse_scalars() {
    assert_eq!(parse_json("null"), Some(JsonValue::Null));
    assert_eq!(parse_json("true"), Some(JsonValue::Bool(true)));
    assert_eq!(parse_json("42"), Some(JsonValue::UInt(42)));
    assert_eq!(parse_json("-7"), Some(JsonValue::Int(-7)));
    assert_eq!(parse_json("\"hey\""), Some(JsonValue::Text("hey".to_string())));
    assert_eq!(parse_json("18446744073709551615"), Some(JsonValue::UInt(u64::MAX)));
    assert_eq!(parse_json("-9223372036854775808"), Some(JsonValue::Int(i64::MIN)));
}

#[test]
fn test_parse_rejects_garbage() {
    assert_eq!(parse_json(""), None);
    assert_eq!(parse_json("nul"), None);
    assert_eq!(parse_json("{"), None);
    assert_eq!(parse_json("[1,]"), None);
    assert_eq!(parse_json("\"unterminated"), None);
    assert_eq!(parse_json("1 2"), None);
    // one past the largest 64-bit unsigned value
    assert_eq!(parse_json("18446744073709551616"), None);
}

#[test]
fn test_parse_whitespace_and_order() {
    let v = parse_json(" { \"b\" : 1 , \"a\" : [ true , null ] } ").unwrap();
    assert_eq!(
        v,
        JsonValue::Obj(vec![
            ("b".to_string(), JsonValue::UInt(1)),
            ("a".to_string(), JsonValue::Arr(vec![JsonValue::Bool(true), JsonValue::Null])),
        ])
    );
}

#[test]
fn test_parse_string_escapes() {
    assert_eq!(parse_json("\"a\\\"b\\\\c\\n\""), Some(JsonValue::Text("a\"b\\c\n".to_string())));
}

#[test]
fn test_json_round_trip_value() {
    let v = JsonValue::Obj(vec![
        ("k".to_string(), JsonValue::Arr(vec![
            JsonValue::Int(-5),
            JsonValue::UInt(12),
            JsonValue::Text("x\"y".to_string()),
        ])),
        ("empty".to_string(), JsonValue::Arr(vec![])),
    ]);
    let text = serialize_json(&v);
    assert_eq!(parse_json(&text), Some(v));
}

#[test]
fn test_from_i64_canonical() {
    assert_eq!(JsonValue::from_i64(5), JsonValue::UInt(5));
    assert_eq!(JsonValue::from_i64(0), JsonValue::UInt(0));
    assert_eq!(JsonValue::from_i64(-5), JsonValue::Int(-5));
}

#[test]
fn test_next_number_and_string_share_one_sequence() {
    let mut g = IdGenerator::new();
    let a = Id::next_number(&mut g);
    let b = Id::next_string(&mut g);
    let c = Id::next_number(&mut g);
    assert_eq!(a, Id::Number(1));
    assert_eq!(b, Id::Text("id-2".to_string()));
    assert_eq!(c, Id::Number(3));
}

#[test]
fn test_fresh_ids_distinct() {
    // the distinctness law on a concrete run of mixed draws
    let mut g = IdGenerator::new();
    let mut ids: Vec<Id> = Vec::new();
    for k in 0..100u32 {
        if k % 2 == 0 {
            ids.push(Id::next_number(&mut g));
        } else {
            ids.push(Id::next_string(&mut g));
        }
    }
    for i in 0..ids.len() {
        for j in (i + 1)..ids.len() {
            assert_ne!(ids[i], ids[j]);
        }
    }
}

#[test]
fn test_version_texts() {
    assert_eq!(JsonRpcVersion::V1_0.as_text(), "1.0");
    assert_eq!(JsonRpcVersion::V2_0.as_text(), "2.0");
    assert_eq!(JsonRpcVersion::from_str("1.0"), Ok(JsonRpcVersion::V1_0));
    assert_eq!(JsonRpcVersion::from_str("2.0"), Ok(JsonRpcVersion::V2_0));
    assert_eq!(
        JsonRpcVersion::from_str("3.0"),
        Err(RpcError::InvalidVersion("3.0".to_string()))
    );
}

#[test]
fn test_wire_codes() {
    // the fixed wire code of every internal kind
    let cases: Vec<(RpcError, i64)> = vec![
        (RpcError::IoFailure("io".to_string()), -32000),
        (RpcError::TransportFailure("net".to_string()), -32001),
        (RpcError::SerdeFailure("bad".to_string()), -32002),
        (RpcError::CustomError("boom".to_string()), -32003),
        (RpcError::InvalidVersion("9.9".to_string()), -32600),
        (RpcError::MethodNotFound, -32601),
        (RpcError::InvalidParams("missing".to_string()), -32602),
    ];
    for (err, code) in cases {
        let w = JsonRpcError::from_rpc_error(err);
        assert_eq!(w.code, code);
        assert!(w.data.is_none());
    }
}

#[test]
fn test_wire_messages() {
    assert_eq!(
        JsonRpcError::from_rpc_error(RpcError::MethodNotFound).message,
        "method not found"
    );
    assert_eq!(
        JsonRpcError::from_rpc_error(RpcError::InvalidVersion("9.9".to_string())).message,
        "Invalid JSON-RPC version: 9.9"
    );
    assert_eq!(
        JsonRpcError::from_rpc_error(RpcError::InvalidParams("none given".to_string())).message,
        "Invalid parameters: none given"
    );
    assert_eq!(
        JsonRpcError::from_rpc_error(RpcError::CustomError("boom".to_string())).message,
        "boom"
    );
}

#[test]
fn test_request_serialize_params_omitted() {
    // a request without parameters has no params member at all
    let req: JsonRpcRequest<JsonValue> = JsonRpcRequest::new_v2(Id::Number(7), "ping");
    let text = req.serialize();
    assert_eq!(text, "{\"jsonrpc\":\"2.0\",\"method\":\"ping\",\"id\":7}");
    assert!(!text.contains("params"));
    assert!(!text.contains("null"));
}

#[test]
fn test_request_serialize_with_params() {
    let mut req: JsonRpcRequest<JsonValue> = JsonRpcRequest::new_v1(
        Id::Text("id-9".to_string()),
        "add",
    );
    req.set_params(JsonValue::Arr(vec![JsonValue::UInt(10), JsonValue::UInt(20)]));
    assert_eq!(
        req.serialize(),
        "{\"jsonrpc\":\"1.0\",\"method\":\"add\",\"params\":[10,20],\"id\":\"id-9\"}"
    );
}

#[test]
fn test_add_param_builds_positional_params() {
    let mut req: JsonRpcRequest<Vec<JsonValue>> = JsonRpcRequest::new_v2(Id::Number(1), "add");
    assert!(req.params.is_none());
    req.add_param(JsonValue::UInt(10));
    req.add_param(JsonValue::UInt(20));
    assert_eq!(
        req.params,
        Some(vec![JsonValue::UInt(10), JsonValue::UInt(20)])
    );
}

#[test]
fn test_request_round_trip_both_versions() {
    // serializing and parsing back gives a structurally equal envelope
    for version in [JsonRpcVersion::V1_0, JsonRpcVersion::V2_0] {
        let mut req: JsonRpcRequest<JsonValue> = match version {
            JsonRpcVersion::V1_0 => JsonRpcRequest::new_v1(Id::Number(3), "work"),
            JsonRpcVersion::V2_0 => JsonRpcRequest::new_v2(Id::Number(3), "work"),
        };
        req.set_params(JsonValue::Obj(vec![
            ("lhs".to_string(), JsonValue::UInt(10)),
            ("rhs".to_string(), JsonValue::Int(-4)),
        ]));
        let text = req.serialize();
        let back = parse_request(&text).unwrap();
        assert_eq!(back, req);
    }
}

#[test]
fn test_request_round_trip_no_params() {
    let req: JsonRpcRequest<JsonValue> = JsonRpcRequest::new_v2(
        Id::Text("id-1".to_string()),
        "status",
    );
    let back = parse_request(&req.serialize()).unwrap();
    assert_eq!(back, req);
}

#[test]
fn test_parse_request_accepts_any_member_order() {
    let req = parse_request("{\"id\":5,\"method\":\"m\",\"jsonrpc\":\"2.0\"}").unwrap();
    assert_eq!(req.jsonrpc, JsonRpcVersion::V2_0);
    assert_eq!(req.method, "m");
    assert_eq!(req.id, Id::Number(5));
    assert!(req.params.is_none());
}

#[test]
fn test_parse_request_errors() {
    // not JSON at all
    assert_eq!(
        parse_request("hello"),
        Err(RpcError::SerdeFailure("invalid JSON".to_string()))
    );
    // an id of the wrong JSON type
    assert_eq!(
        parse_request("{\"jsonrpc\":\"2.0\",\"method\":\"m\",\"id\":[1]}"),
        Err(RpcError::SerdeFailure("malformed JSON-RPC request".to_string()))
    );
    // a version that is no version
    assert_eq!(
        parse_request("{\"jsonrpc\":\"9.9\",\"method\":\"m\",\"id\":1}"),
        Err(RpcError::InvalidVersion("9.9".to_string()))
    );
}

#[test]
fn test_decode_request_version_mismatch() {
    // a well-formed 1.0 request handed to a 2.0 handler
    let r = decode_request(
        "{\"jsonrpc\":\"1.0\",\"method\":\"m\",\"id\":1}",
        JsonRpcVersion::V2_0,
    );
    assert_eq!(r, Err(RpcError::InvalidVersion("1.0".to_string())));
}

#[test]
fn test_response_serialize_success_omits_error() {
    let resp: JsonRpcResponse<JsonValue> = JsonRpcResponse::success(
        JsonRpcVersion::V2_0,
        Id::Number(1),
        JsonValue::Text("hello".to_string()),
    );
    let text = resp.serialize();
    assert_eq!(text, "{\"jsonrpc\":\"2.0\",\"result\":\"hello\",\"id\":1}");
    assert!(!text.contains("error"));
}

#[test]
fn test_response_serialize_failure_omits_result() {
    let resp: JsonRpcResponse<JsonValue> = JsonRpcResponse::failure(
        JsonRpcVersion::V2_0,
        Id::Number(1),
        RpcError::MethodNotFound,
    );
    let text = resp.serialize();
    assert_eq!(
        text,
        "{\"jsonrpc\":\"2.0\",\"error\":{\"code\":-32601,\"message\":\"method not found\"},\"id\":1}"
    );
    assert!(!text.contains("result"));
    assert!(!text.contains("data"));
}

#[test]
fn test_response_never_both_never_neither() {
    // exactly one of result and error appears on the wire, on each path
    let ok: JsonRpcResponse<JsonValue> = JsonRpcResponse::success(
        JsonRpcVersion::V1_0,
        Id::Number(2),
        JsonValue::Null,
    );
    let ok_text = ok.serialize();
    assert!(ok_text.contains("\"result\"") && !ok_text.contains("\"error\""));
    let bad: JsonRpcResponse<JsonValue> = JsonRpcResponse::failure(
        JsonRpcVersion::V1_0,
        Id::Number(2),
        RpcError::CustomError("x".to_string()),
    );
    let bad_text = bad.serialize();
    assert!(bad_text.contains("\"error\"") && !bad_text.contains("\"result\""));
}

#[test]
fn test_response_round_trip_success() {
    let resp: JsonRpcResponse<JsonValue> = JsonRpcResponse::success(
        JsonRpcVersion::V2_0,
        Id::Text("id-4".to_string()),
        JsonValue::Arr(vec![JsonValue::UInt(1), JsonValue::Text("two".to_string())]),
    );
    let back = parse_response(&resp.serialize()).unwrap();
    assert_eq!(back, resp);
}

#[test]
fn test_response_round_trip_error() {
    for version in [JsonRpcVersion::V1_0, JsonRpcVersion::V2_0] {
        let resp: JsonRpcResponse<JsonValue> = JsonRpcResponse::failure(
            version,
            Id::Number(9),
            RpcError::InvalidParams("missing argument".to_string()),
        );
        let back = parse_response(&resp.serialize()).unwrap();
        assert_eq!(back, resp);
    }
}

#[test]
fn test_respond_correlates_id_and_version() {
    // the response carries the request's id and version on both paths
    let mut req: JsonRpcRequest<JsonValue> = JsonRpcRequest::new_v1(
        Id::Text("id-77".to_string()),
        "work",
    );
    req.set_params(JsonValue::Null);
    let ok = respond(&req, Ok(JsonValue::UInt(1)));
    assert_eq!(ok.jsonrpc, req.jsonrpc);
    assert_eq!(ok.id, req.id);
    assert!(ok.result.is_some() && ok.error.is_none());
    let bad: JsonRpcResponse<JsonValue> = respond(
        &req,
        Err(RpcError::CustomError("no".to_string())),
    );
    assert_eq!(bad.jsonrpc, req.jsonrpc);
    assert_eq!(bad.id, req.id);
    assert!(bad.result.is_none() && bad.error.is_some());
    assert_eq!(bad.error.unwrap().code, -32003);
}

#[test]
fn test_id_from_conversions() {
    assert_eq!(Id::from(42u64), Id::Number(42));
    assert_eq!(Id::from("id-8".to_string()), Id::Text("id-8".to_string()));
}
