//! The response envelope and the wire form of failures.
//!
//! A response carries the protocol version, the identifier of the request
//! it answers, and exactly one of a result or a wire error object. Absent
//! members are left out of the wire form entirely.

use vstd::prelude::*;
use crate::json::{JsonValue, JsonView, json_view, json_wf, json_of_i64, obj_lookup, lookup_key,
    clone_json, json_view_pairs, lemma_json_view_pairs};
use crate::id::{Id, IdView};
use crate::error::{RpcError, ErrView, JsonRpcError, WireErrorView, wire_error_of};
use crate::request::{JsonRpcVersion, version_text, version_of_text, id_json, id_of_json,
    id_to_json, bad_json_text, lemma_version_round_trip};
use crate::ser::{ser, serialize_json};
use crate::parse::{p_json, parse_json_chars};
use crate::text::str_to_chars;
use vstd::string::StringExecFns;

verus! {

/// Spec view of a response envelope.
pub struct RespView<RV> {
    pub jsonrpc: JsonRpcVersion,
    pub result: Option<RV>,
    pub error: Option<WireErrorView>,
    pub id: IdView,
}

/// A JSON-RPC response. `R` is the result payload type; on the wire it is
/// a JSON value.
#[derive(Debug, PartialEq)]
pub struct JsonRpcResponse<R> {
    /// The protocol version.
    pub jsonrpc: JsonRpcVersion,
    /// The result of the call; present exactly when the call succeeded.
    pub result: Option<R>,
    /// The wire error object; present exactly when the call failed.
    pub error: Option<JsonRpcError>,
    /// The identifier of the request this answers.
    pub id: Id,
}

impl<R: DeepView> DeepView for JsonRpcResponse<R> {
    type V = RespView<R::V>;

    open spec fn deep_view(&self) -> RespView<R::V> {
        RespView {
            jsonrpc: self.jsonrpc,
            result: match self.result {
                Some(r) => Some(r.deep_view()),
                None => None,
            },
            error: match self.error {
                Some(e) => Some(e.deep_view()),
                None => None,
            },
            id: self.id.deep_view(),
        }
    }
}

/// A well-formed response answers with exactly one of a result and an
/// error.
pub open spec fn resp_wf<RV>(r: RespView<RV>) -> bool {
    (r.result is Some) != (r.error is Some)
}

impl<R> JsonRpcResponse<R> {
    /// A successful response: the result is present, no error stands
    /// beside it, and version and identifier are the request's own.
    pub fn success(jsonrpc: JsonRpcVersion, id: Id, result: R) -> (r: JsonRpcResponse<R>)
        ensures
            r.jsonrpc == jsonrpc,
            r.id == id,
            r.result == Some(result),
            r.error is None,
    {
        JsonRpcResponse { jsonrpc, result: Some(result), error: None, id }
    }

    /// A failed response: the error is the wire mapping of the internal
    /// error, no result stands beside it, and version and identifier are
    /// the request's own.
    pub fn failure(jsonrpc: JsonRpcVersion, id: Id, err: RpcError) -> (r: JsonRpcResponse<R>)
        ensures
            r.jsonrpc == jsonrpc,
            r.id == id,
            r.result is None,
            r.error matches Some(e) && e.deep_view() == wire_error_of(err.deep_view()),
    {
        JsonRpcResponse { jsonrpc, result: None, error: Some(JsonRpcError::from_rpc_error(err)),
            id }
    }
}

/// Builds the response answering a decoded request: the result on
/// success, the mapped wire error on failure — and in either case under
/// the request's own version and identifier.
pub fn respond<P, R>(req: &crate::request::JsonRpcRequest<P>, outcome: Result<R, RpcError>) -> (r:
    JsonRpcResponse<R>)
    ensures
        r.jsonrpc == req.jsonrpc,
        r.id == req.id,
        outcome matches Ok(res) ==> r.result == Some(res) && r.error is None,
        outcome matches Err(e) ==> r.result is None && (r.error matches Some(w)
            && w.deep_view() == wire_error_of(e.deep_view())),
{
    match outcome {
        Ok(res) => JsonRpcResponse::success(req.jsonrpc, req.id.clone_id(), res),
        Err(e) => JsonRpcResponse::failure(req.jsonrpc, req.id.clone_id(), e),
    }
}

/// The members of a wire error object, in order: `code`, `message`, and
/// `data` where present.
pub open spec fn err_pairs(w: WireErrorView) -> Seq<(Seq<char>, JsonView)> {
    match w.data {
        Some(d) => seq![
            ("code"@, json_of_i64(w.code)),
            ("message"@, JsonView::Text(w.message)),
            ("data"@, d),
        ],
        None => seq![("code"@, json_of_i64(w.code)), ("message"@, JsonView::Text(w.message))],
    }
}

/// The wire form of a wire error object.
pub open spec fn err_json(w: WireErrorView) -> JsonView {
    JsonView::Obj(err_pairs(w))
}

/// Which wire error object a JSON value denotes.
pub open spec fn err_of_json(v: JsonView) -> Option<WireErrorView> {
    match v {
        JsonView::Obj(pairs) => {
            let code = match obj_lookup(pairs, "code"@) {
                Some(JsonView::UInt(n)) => if n <= i64::MAX as u64 {
                    Some(n as i64)
                } else {
                    None
                },
                Some(JsonView::Int(n)) => Some(n),
                _ => None,
            };
            match code {
                Some(code) => match obj_lookup(pairs, "message"@) {
                    Some(JsonView::Text(m)) => Some(
                        WireErrorView { code, message: m, data: obj_lookup(pairs, "data"@) },
                    ),
                    _ => None,
                },
                None => None,
            }
        },
        _ => None,
    }
}

/// The members of a response's wire object, in order: `jsonrpc`, `result`
/// where present, `error` where present, `id`.
pub open spec fn resp_pairs(r: RespView<JsonView>) -> Seq<(Seq<char>, JsonView)> {
    match (r.result, r.error) {
        (Some(res), Some(w)) => seq![
            ("jsonrpc"@, JsonView::Text(version_text(r.jsonrpc))),
            ("result"@, res),
            ("error"@, err_json(w)),
            ("id"@, id_json(r.id)),
        ],
        (Some(res), None) => seq![
            ("jsonrpc"@, JsonView::Text(version_text(r.jsonrpc))),
            ("result"@, res),
            ("id"@, id_json(r.id)),
        ],
        (None, Some(w)) => seq![
            ("jsonrpc"@, JsonView::Text(version_text(r.jsonrpc))),
            ("error"@, err_json(w)),
            ("id"@, id_json(r.id)),
        ],
        (None, None) => seq![
            ("jsonrpc"@, JsonView::Text(version_text(r.jsonrpc))),
            ("id"@, id_json(r.id)),
        ],
    }
}

/// The wire form of a response.
pub open spec fn resp_json(r: RespView<JsonView>) -> JsonView {
    JsonView::Obj(resp_pairs(r))
}

/// Reads a response from its wire object.
pub open spec fn resp_of_json(v: JsonView) -> Result<RespView<JsonView>, ErrView> {
    match v {
        JsonView::Obj(pairs) => match obj_lookup(pairs, "jsonrpc"@) {
            Some(JsonView::Text(vt)) => match version_of_text(vt) {
                Some(version) => match obj_lookup(pairs, "id"@) {
                    Some(idv) => match id_of_json(idv) {
                        Some(id) => match obj_lookup(pairs, "error"@) {
                            Some(ev) => match err_of_json(ev) {
                                Some(w) => Ok(RespView {
                                    jsonrpc: version,
                                    result: obj_lookup(pairs, "result"@),
                                    error: Some(w),
                                    id,
                                }),
                                None => Err(ErrView::Serde(bad_response_text())),
                            },
                            None => Ok(RespView {
                                jsonrpc: version,
                                result: obj_lookup(pairs, "result"@),
                                error: None,
                                id,
                            }),
                        },
                        None => Err(ErrView::Serde(bad_response_text())),
                    },
                    None => Err(ErrView::Serde(bad_response_text())),
                },
                None => Err(ErrView::InvalidVersion(vt)),
            },
            _ => Err(ErrView::Serde(bad_response_text())),
        },
        _ => Err(ErrView::Serde(bad_response_text())),
    }
}

/// The message carried when a response envelope has the wrong shape.
pub open spec fn bad_response_text() -> Seq<char> {
    "malformed JSON-RPC response"@
}

/// What parsing a response text yields.
pub open spec fn spec_parse_response(s: Seq<char>) -> Result<RespView<JsonView>, ErrView> {
    match p_json(s) {
        Some(v) => resp_of_json(v),
        None => Err(ErrView::Serde(bad_json_text())),
    }
}

/// The wire error object as a JSON value, executable side.
pub fn err_to_json(e: &JsonRpcError) -> (r: JsonValue)
    ensures
        r.deep_view() == err_json(e.deep_view()),
{
    let mut pairs: Vec<(String, JsonValue)> = Vec::new();
    pairs.push((String::from_str("code"), JsonValue::from_i64(e.code)));
    pairs.push((String::from_str("message"), JsonValue::Text(e.message.clone())));
    match &e.data {
        Some(d) => {
            pairs.push((String::from_str("data"), clone_json(d)));
        },
        None => {},
    }
    proof {
        lemma_json_view_pairs(pairs@);
        let target = err_pairs(e.deep_view());
        assert(json_view_pairs(pairs@)[0] == (pairs@[0].0@, json_view(pairs@[0].1)));
        assert(json_view_pairs(pairs@)[0] == target[0]);
        assert(json_view_pairs(pairs@)[1] == (pairs@[1].0@, json_view(pairs@[1].1)));
        assert(json_view_pairs(pairs@)[1] == target[1]);
        if e.data is Some {
            assert(json_view_pairs(pairs@)[2] == (pairs@[2].0@, json_view(pairs@[2].1)));
            assert(json_view_pairs(pairs@)[2] == target[2]);
        }
        assert(json_view_pairs(pairs@) =~= target);
    }
    JsonValue::Obj(pairs)
}

impl JsonRpcResponse<JsonValue> {
    /// The wire text of the response. `result` and `error` are omitted
    /// entirely when absent, and so is the error's `data`.
    pub fn serialize(&self) -> (r: String)
        ensures
            r@ == ser(resp_json(self.deep_view())),
    {
        let mut pairs: Vec<(String, JsonValue)> = Vec::new();
        pairs.push((String::from_str("jsonrpc"),
            JsonValue::Text(String::from_str(self.jsonrpc.as_text()))));
        match &self.result {
            Some(res) => {
                pairs.push((String::from_str("result"), clone_json(res)));
            },
            None => {},
        }
        match &self.error {
            Some(e) => {
                pairs.push((String::from_str("error"), err_to_json(e)));
            },
            None => {},
        }
        pairs.push((String::from_str("id"), id_to_json(&self.id)));
        proof {
            lemma_json_view_pairs(pairs@);
            let target = resp_pairs(self.deep_view());
            assert forall|k: int| 0 <= k < pairs@.len() implies json_view_pairs(pairs@)[k]
                == target[k] by {
                assert(json_view_pairs(pairs@)[k] == (pairs@[k].0@, json_view(pairs@[k].1)));
            }
            assert(json_view_pairs(pairs@) =~= target);
        }
        let v = JsonValue::Obj(pairs);
        serialize_json(&v)
    }
}

/// Reads a wire error object from a parsed JSON value.
pub fn err_from_json(v: &JsonValue) -> (r: Option<JsonRpcError>)
    ensures
        match r {
            Some(e) => err_of_json(v.deep_view()) == Some(e.deep_view()),
            None => err_of_json(v.deep_view()) is None,
        },
{
    match v {
        JsonValue::Obj(pairs) => {
            let code: i64 = match lookup_key(pairs, "code") {
                Some(JsonValue::UInt(n)) => {
                    if *n <= i64::MAX as u64 {
                        *n as i64
                    } else {
                        return None;
                    }
                },
                Some(JsonValue::Int(n)) => *n,
                _ => {
                    return None;
                },
            };
            let message = match lookup_key(pairs, "message") {
                Some(JsonValue::Text(m)) => m.clone(),
                _ => {
                    return None;
                },
            };
            let data = match lookup_key(pairs, "data") {
                Some(d) => Some(clone_json(d)),
                None => None,
            };
            Some(JsonRpcError { code, message, data })
        },
        _ => None,
    }
}

/// Reads a response from a parsed wire object.
pub fn resp_from_json(v: JsonValue) -> (r: Result<JsonRpcResponse<JsonValue>, RpcError>)
    ensures
        match r {
            Ok(resp) => resp_of_json(v.deep_view()) == Ok::<RespView<JsonView>, ErrView>(
                resp.deep_view(),
            ),
            Err(e) => resp_of_json(v.deep_view()) == Err::<RespView<JsonView>, ErrView>(
                e.deep_view(),
            ),
        },
{
    match v {
        JsonValue::Obj(pairs) => {
            let version = match lookup_key(&pairs, "jsonrpc") {
                Some(JsonValue::Text(vt)) => match JsonRpcVersion::from_str(vt.as_str()) {
                    Ok(version) => version,
                    Err(e) => {
                        return Err(e);
                    },
                },
                _ => {
                    return Err(RpcError::SerdeFailure(String::from_str(
                        "malformed JSON-RPC response",
                    )));
                },
            };
            let id = match lookup_key(&pairs, "id") {
                Some(JsonValue::UInt(n)) => Id::Number(*n),
                Some(JsonValue::Text(t)) => Id::Text(t.clone()),
                _ => {
                    return Err(RpcError::SerdeFailure(String::from_str(
                        "malformed JSON-RPC response",
                    )));
                },
            };
            let error = match lookup_key(&pairs, "error") {
                Some(ev) => match err_from_json(ev) {
                    Some(e) => Some(e),
                    None => {
                        return Err(RpcError::SerdeFailure(String::from_str(
                            "malformed JSON-RPC response",
                        )));
                    },
                },
                None => None,
            };
            let result = match lookup_key(&pairs, "result") {
                Some(res) => Some(clone_json(res)),
                None => None,
            };
            Ok(JsonRpcResponse { jsonrpc: version, result, error, id })
        },
        _ => Err(RpcError::SerdeFailure(String::from_str("malformed JSON-RPC response"))),
    }
}

/// Parses a response from its wire text.
pub fn parse_response(text: &str) -> (r: Result<JsonRpcResponse<JsonValue>, RpcError>)
    ensures
        match r {
            Ok(resp) => spec_parse_response(text@) == Ok::<RespView<JsonView>, ErrView>(
                resp.deep_view(),
            ),
            Err(e) => spec_parse_response(text@) == Err::<RespView<JsonView>, ErrView>(
                e.deep_view(),
            ),
        },
{
    let cs = str_to_chars(text);
    match parse_json_chars(&cs) {
        Some(v) => resp_from_json(v),
        None => Err(RpcError::SerdeFailure(String::from_str("invalid JSON"))),
    }
}


/// The keys of a response's wire object are pairwise distinct, so one
/// lookup step at a time settles each member.
proof fn lemma_resp_keys()
    ensures
        "jsonrpc"@.len() == 7,
        "result"@.len() == 6,
        "error"@.len() == 5,
        "id"@.len() == 2,
        "code"@.len() == 4,
        "message"@.len() == 7,
        "data"@.len() == 4,
        "jsonrpc"@ != "message"@,
        "code"@ != "data"@,
{
    reveal_strlit("jsonrpc");
    reveal_strlit("result");
    reveal_strlit("error");
    reveal_strlit("id");
    reveal_strlit("code");
    reveal_strlit("message");
    reveal_strlit("data");
    assert("jsonrpc"@[0] == 'j' && "message"@[0] == 'm');
    assert("code"@[0] == 'c' && "data"@[0] == 'd');
}

/// A well-formed response serializes exactly one of `result` and `error`:
/// the wire object holds a `result` member exactly when the result is
/// present, an `error` member exactly when the error is present, and
/// never both or neither.
pub proof fn lemma_response_exclusive(r: RespView<JsonView>)
    requires
        resp_wf(r),
    ensures
        (obj_lookup(resp_pairs(r), "result"@) is Some) <==> (r.result is Some),
        (obj_lookup(resp_pairs(r), "error"@) is Some) <==> (r.error is Some),
        (obj_lookup(resp_pairs(r), "result"@) is Some) != (obj_lookup(
            resp_pairs(r),
            "error"@,
        ) is Some),
{
    lemma_resp_keys();
    let pairs = resp_pairs(r);
    let p1 = pairs.drop_first();
    let p2 = p1.drop_first();
    assert(p1[0] == pairs[1] && p2[0] == pairs[2]);
    assert(p2.drop_first().len() == 0);
    if r.result is Some {
        assert(obj_lookup(p2.drop_first(), "error"@) is None);
        assert(obj_lookup(p2, "error"@) is None);
        assert(obj_lookup(p1, "result"@) == Some(pairs[1].1));
        assert(obj_lookup(p1, "error"@) is None);
        assert(obj_lookup(pairs, "result"@) == Some(pairs[1].1));
        assert(obj_lookup(pairs, "error"@) is None);
    } else {
        assert(obj_lookup(p2.drop_first(), "result"@) is None);
        assert(obj_lookup(p2, "result"@) is None);
        assert(obj_lookup(p1, "error"@) == Some(pairs[1].1));
        assert(obj_lookup(p1, "result"@) is None);
        assert(obj_lookup(pairs, "error"@) == Some(pairs[1].1));
        assert(obj_lookup(pairs, "result"@) is None);
    }
}

/// A wire error object reads back from its wire form.
pub proof fn lemma_err_round_trip(w: WireErrorView)
    ensures
        err_of_json(err_json(w)) == Some(w),
{
    lemma_resp_keys();
    let pairs = err_pairs(w);
    let p1 = pairs.drop_first();
    assert(p1[0] == pairs[1]);
    if w.data is Some {
        let p2 = p1.drop_first();
        assert(p2[0] == pairs[2] && p2.len() == 1);
        assert(p2.drop_first().len() == 0);
        assert(obj_lookup(pairs, "code"@) == Some(json_of_i64(w.code)));
        assert(obj_lookup(p1, "message"@) == Some(JsonView::Text(w.message)));
        assert(obj_lookup(pairs, "message"@) == Some(JsonView::Text(w.message)));
        assert(obj_lookup(p2, "data"@) == w.data);
        assert(obj_lookup(p1, "data"@) == w.data);
        assert(obj_lookup(pairs, "data"@) == w.data);
    } else {
        assert(p1.drop_first().len() == 0);
        assert(obj_lookup(pairs, "code"@) == Some(json_of_i64(w.code)));
        assert(obj_lookup(p1, "message"@) == Some(JsonView::Text(w.message)));
        assert(obj_lookup(pairs, "message"@) == Some(JsonView::Text(w.message)));
        assert(obj_lookup(p1.drop_first(), "data"@) is None);
        assert(obj_lookup(p1, "data"@) is None);
        assert(obj_lookup(pairs, "data"@) is None);
    }
    if w.code < 0 {
        assert(json_of_i64(w.code) == JsonView::Int(w.code));
    } else {
        assert(json_of_i64(w.code) == JsonView::UInt(w.code as u64));
    }
}

/// Round trip: serializing a well-formed response and parsing the text
/// back yields a response equal in every field, for both protocol
/// versions, on the success path and on the error path.
pub proof fn lemma_response_round_trip(r: RespView<JsonView>)
    requires
        resp_wf(r),
        match r.result {
            Some(res) => json_wf(res),
            None => true,
        },
        match r.error {
            Some(w) => match w.data {
                Some(d) => json_wf(d),
                None => true,
            },
            None => true,
        },
    ensures
        spec_parse_response(ser(resp_json(r))) == Ok::<RespView<JsonView>, ErrView>(r),
{
    lemma_resp_keys();
    let pairs = resp_pairs(r);
    // the wire object is well formed
    assert(json_wf(id_json(r.id))) by {
        match r.id {
            IdView::Number(_) => {},
            IdView::Text(_) => {},
        }
    }
    if r.error is Some {
        let w = r.error->0;
        assert forall|i: int| 0 <= i < err_pairs(w).len() implies json_wf(
            (#[trigger] err_pairs(w)[i]).1,
        ) by {
            assert(json_wf(json_of_i64(w.code)));
            assert(json_wf(JsonView::Text(w.message)));
        }
        assert(json_wf(err_json(w)));
    }
    assert forall|i: int| 0 <= i < pairs.len() implies json_wf((#[trigger] pairs[i]).1) by {
        assert(json_wf(JsonView::Text(version_text(r.jsonrpc))));
    }
    assert(json_wf(resp_json(r)));
    crate::roundtrip::lemma_parse_ser_json(resp_json(r));
    // walk the members
    let p1 = pairs.drop_first();
    let p2 = p1.drop_first();
    assert(p1[0] == pairs[1] && p2[0] == pairs[2]);
    assert(p2.drop_first().len() == 0);
    lemma_version_round_trip(r.jsonrpc);
    assert(obj_lookup(pairs, "jsonrpc"@) == Some(JsonView::Text(version_text(r.jsonrpc))));
    if r.result is Some {
        assert(obj_lookup(p2, "id"@) == Some(id_json(r.id)));
        assert(obj_lookup(p1, "id"@) == Some(id_json(r.id)));
        assert(obj_lookup(pairs, "id"@) == Some(id_json(r.id)));
        assert(obj_lookup(p1, "result"@) == r.result);
        assert(obj_lookup(pairs, "result"@) == r.result);
        assert(obj_lookup(p2.drop_first(), "error"@) is None);
        assert(obj_lookup(p2, "error"@) is None);
        assert(obj_lookup(p1, "error"@) is None);
        assert(obj_lookup(pairs, "error"@) is None);
    } else {
        let w = r.error->0;
        assert(obj_lookup(p2, "id"@) == Some(id_json(r.id)));
        assert(obj_lookup(p1, "id"@) == Some(id_json(r.id)));
        assert(obj_lookup(pairs, "id"@) == Some(id_json(r.id)));
        assert(obj_lookup(p1, "error"@) == Some(err_json(w)));
        assert(obj_lookup(pairs, "error"@) == Some(err_json(w)));
        lemma_err_round_trip(w);
        assert(obj_lookup(p2.drop_first(), "result"@) is None);
        assert(obj_lookup(p2, "result"@) is None);
        assert(obj_lookup(p1, "result"@) is None);
        assert(obj_lookup(pairs, "result"@) is None);
    }
    assert(id_of_json(id_json(r.id)) == Some(r.id)) by {
        match r.id {
            IdView::Number(_) => {},
            IdView::Text(_) => {},
        }
    }
    assert(resp_of_json(resp_json(r)) == Ok::<RespView<JsonView>, ErrView>(r));
}

} // verus!
