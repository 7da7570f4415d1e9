//! Tests of the registry and the dispatcher: routing, duplicate
//! registration, and the end-to-end wire scenarios.

use a_rs_jsonrpc::echo::EchoService;
use a_rs_jsonrpc::error::RpcError;
use a_rs_jsonrpc::service::{RpcServiceEntry, RouteTable, JsonRpcServiceFn, init, peek_method,
    error_response_body};

fn echo_table() -> RouteTable<EchoService> {
    init(vec![RpcServiceEntry { method: "echo".to_string(), handler: EchoService {} }]).unwrap()
}

#[test]
fn test_init_accepts_distinct_names() {
    let t = init(vec![
        RpcServiceEntry { method: "alpha".to_string(), handler: EchoService {} },
        RpcServiceEntry { method: "beta".to_string(), handler: EchoService {} },
    ]);
    assert!(t.is_ok());
    assert_eq!(t.unwrap().len(), 2);
}

#[test]
fn test_init_rejects_duplicate_names() {
    // registering two entries under one method name fails fatally
    let t = init(vec![
        RpcServiceEntry { method: "alpha".to_string(), handler: EchoService {} },
        RpcServiceEntry { method: "beta".to_string(), handler: EchoService {} },
        RpcServiceEntry { method: "alpha".to_string(), handler: EchoService {} },
    ]);
    assert_eq!(t.err(), Some("alpha".to_string()));
}

#[test]
fn test_peek_method() {
    assert_eq!(
        peek_method("{\"jsonrpc\":\"2.0\",\"method\":\"echo\",\"id\":1}"),
        Some("echo".to_string())
    );
    assert_eq!(peek_method("{\"jsonrpc\":\"2.0\",\"id\":1}"), None);
    assert_eq!(peek_method("{\"method\":42}"), None);
    assert_eq!(peek_method("not json"), None);
}

#[test]
fn test_dispatch_routes_to_registered_handler() {
    // a well-formed request for a registered method reaches its handler
    let t = echo_table();
    let out = t
        .dispatch("{\"jsonrpc\":\"2.0\",\"method\":\"echo\",\"params\":[\"hi\"],\"id\":2}")
        .unwrap();
    assert_eq!(out, "{\"jsonrpc\":\"2.0\",\"result\":\"hi\",\"id\":2}");
}

#[test]
fn test_dispatch_unknown_method() {
    // a method no entry serves fails with MethodNotFound
    let t = echo_table();
    let r = t.dispatch("{\"jsonrpc\":\"2.0\",\"method\":\"missing\",\"id\":1}");
    assert_eq!(r, Err(RpcError::MethodNotFound));
}

#[test]
fn test_dispatch_unreadable_payload() {
    let t = echo_table();
    let r = t.dispatch("###");
    assert_eq!(
        r,
        Err(RpcError::SerdeFailure("malformed JSON-RPC request".to_string()))
    );
}

#[test]
fn test_scenario_ping_not_registered() {
    // request for "ping" with no registered handler: wire code -32601,
    // id and version carried over
    let t = echo_table();
    let body = "{\"jsonrpc\":\"2.0\",\"method\":\"ping\",\"id\":1}";
    let err = t.dispatch(body).unwrap_err();
    assert_eq!(err, RpcError::MethodNotFound);
    let reply = error_response_body(body, err);
    assert_eq!(
        reply,
        "{\"jsonrpc\":\"2.0\",\"error\":{\"code\":-32601,\"message\":\"method not found\"},\"id\":1}"
    );
}

#[test]
fn test_scenario_echo_positional_param() {
    // request routed to a handler expecting one positional text
    let t = echo_table();
    let out = t
        .dispatch("{\"jsonrpc\":\"2.0\",\"method\":\"echo\",\"params\":[\"hi\"],\"id\":2}")
        .unwrap();
    assert_eq!(out, "{\"jsonrpc\":\"2.0\",\"result\":\"hi\",\"id\":2}");
}

#[test]
fn test_scenario_version_mismatch() {
    // jsonrpc 9.9 sent to a handler registered for 2.0: wire code -32600,
    // message holds the offending text
    let t = echo_table();
    let body = "{\"jsonrpc\":\"9.9\",\"method\":\"echo\",\"params\":[\"hi\"],\"id\":3}";
    let err = t.dispatch(body).unwrap_err();
    assert_eq!(err, RpcError::InvalidVersion("9.9".to_string()));
    let reply = error_response_body(body, err);
    assert_eq!(
        reply,
        "{\"jsonrpc\":\"9.9\",\"error\":{\"code\":-32600,\"message\":\"Invalid JSON-RPC version: 9.9\"},\"id\":3}"
    );
    assert!(reply.contains("9.9"));
}

#[test]
fn test_scenario_malformed_input_buffer() {
    // a non-JSON payload: null id and version, serialization-failure code
    let t = echo_table();
    let body = "this is not json";
    let err = t.dispatch(body).unwrap_err();
    let reply = error_response_body(body, err);
    assert_eq!(
        reply,
        "{\"jsonrpc\":null,\"error\":{\"code\":-32002,\"message\":\"malformed JSON-RPC request\"},\"id\":null}"
    );
}

#[test]
fn test_echo_handler_rejects_missing_params() {
    let h = EchoService {};
    let r = h.handle("{\"jsonrpc\":\"2.0\",\"method\":\"echo\",\"id\":4}");
    assert_eq!(
        r,
        Err(RpcError::InvalidParams("expected one positional text parameter".to_string()))
    );
}

#[test]
fn test_echo_handler_rejects_wrong_shape() {
    let h = EchoService {};
    let r = h.handle("{\"jsonrpc\":\"2.0\",\"method\":\"echo\",\"params\":[5],\"id\":4}");
    assert_eq!(
        r,
        Err(RpcError::InvalidParams("expected one positional text parameter".to_string()))
    );
}

#[test]
fn test_echo_handler_keeps_textual_id() {
    let h = EchoService {};
    let out = h
        .handle("{\"jsonrpc\":\"2.0\",\"method\":\"echo\",\"params\":[\"pong\"],\"id\":\"id-12\"}")
        .unwrap();
    assert_eq!(out, "{\"jsonrpc\":\"2.0\",\"result\":\"pong\",\"id\":\"id-12\"}");
}

#[test]
fn test_error_response_recovers_raw_members() {
    // the recovered id and version are carried over even when the request
    // failed for another reason
    let body = "{\"jsonrpc\":\"2.0\",\"method\":7,\"id\":\"abc\"}";
    let reply = error_response_body(
        body,
        RpcError::SerdeFailure("malformed JSON-RPC request".to_string()),
    );
    assert_eq!(
        reply,
        "{\"jsonrpc\":\"2.0\",\"error\":{\"code\":-32002,\"message\":\"malformed JSON-RPC request\"},\"id\":\"abc\"}"
    );
}
