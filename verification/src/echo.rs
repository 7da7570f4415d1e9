//! A verified handler: the positional echo service.
//!
//! Every handler must perform the same envelope discipline itself: a full
//! decode of the raw request, the version check against the version it
//! was registered for, parameter extraction, and a response carrying the
//! request's own version and identifier. This module walks that path for
//! the simplest business logic there is — echoing one positional text —
//! and proves the whole pipeline against its declared meaning.

use vstd::prelude::*;
use crate::error::{RpcError, ErrView};
use crate::json::{JsonValue, JsonView, lemma_json_view_seq};
use crate::request::{JsonRpcRequest, JsonRpcVersion, spec_decode_request, decode_request};
use crate::response::{JsonRpcResponse, RespView, resp_json};
use crate::ser::ser;
use crate::service::JsonRpcServiceFn;
use vstd::string::StringExecFns;

verus! {

/// The description carried when the echo parameters are missing or are
/// not one positional text.
pub open spec fn echo_params_text() -> Seq<char> {
    "expected one positional text parameter"@
}

/// The positional echo handler. It serves version 2.0, expects `params`
/// to be an array whose first element is a text, and answers with that
/// text as the result.
pub struct EchoService {}

impl JsonRpcServiceFn for EchoService {
    open spec fn handle_spec(&self, req: Seq<char>) -> Result<Seq<char>, ErrView> {
        match spec_decode_request(req, JsonRpcVersion::V2_0) {
            Ok(rv) => match rv.params {
                Some(JsonView::Arr(items)) => if items.len() >= 1 && items[0] is Text {
                    Ok(ser(resp_json(RespView {
                        jsonrpc: rv.jsonrpc,
                        result: Some(items[0]),
                        error: None,
                        id: rv.id,
                    })))
                } else {
                    Err(ErrView::InvalidParams(echo_params_text()))
                },
                _ => Err(ErrView::InvalidParams(echo_params_text())),
            },
            Err(e) => Err(e),
        }
    }

    fn handle(&self, req: &str) -> (r: Result<String, RpcError>) {
        match decode_request(req, JsonRpcVersion::V2_0) {
            Err(e) => Err(e),
            Ok(request) => {
                let JsonRpcRequest { jsonrpc, method: _, params, id } = request;
                match params {
                    Some(JsonValue::Arr(mut items)) => {
                        proof {
                            lemma_json_view_seq(items@);
                        }
                        if items.len() >= 1 {
                            let first = items.remove(0);
                            match first {
                                JsonValue::Text(t) => {
                                    let resp = JsonRpcResponse::success(jsonrpc, id,
                                        JsonValue::Text(t));
                                    Ok(resp.serialize())
                                },
                                _ => Err(RpcError::InvalidParams(String::from_str(
                                    "expected one positional text parameter",
                                ))),
                            }
                        } else {
                            Err(RpcError::InvalidParams(String::from_str(
                                "expected one positional text parameter",
                            )))
                        }
                    },
                    _ => Err(RpcError::InvalidParams(String::from_str(
                        "expected one positional text parameter",
                    ))),
                }
            },
        }
    }
}

} // verus!
