//! The request envelope and the protocol version.
//!
//! A request carries the protocol version, a method name, an optional
//! parameter payload and an identifier. Its wire form is a JSON object
//! whose `params` member is left out entirely — not written as `null` —
//! when the request has no parameters.

use vstd::prelude::*;
use crate::json::{JsonValue, JsonView, json_view, json_wf, obj_lookup, lookup_key, clone_json,
    json_view_pairs, lemma_json_view_pairs};
use crate::id::{Id, IdView};
use crate::error::{RpcError, ErrView};
use crate::ser::{ser, serialize_json};
use crate::parse::p_json;
use crate::parse::parse_json_chars;
use crate::text::{str_to_chars, str_eq_str};
use vstd::string::StringExecFns;

verus! {

/// The supported protocol versions, a closed set.
#[derive(Debug, Clone, Copy, PartialEq, Eq, Structural)]
pub enum JsonRpcVersion {
    /// Version 1.0.
    V1_0,
    /// Version 2.0.
    V2_0,
}

/// The exact wire text of a version.
pub open spec fn version_text(v: JsonRpcVersion) -> Seq<char> {
    match v {
        JsonRpcVersion::V1_0 => "1.0"@,
        JsonRpcVersion::V2_0 => "2.0"@,
    }
}

/// Which version a text denotes, if any.
pub open spec fn version_of_text(t: Seq<char>) -> Option<JsonRpcVersion> {
    if t == "1.0"@ {
        Some(JsonRpcVersion::V1_0)
    } else if t == "2.0"@ {
        Some(JsonRpcVersion::V2_0)
    } else {
        None
    }
}

impl JsonRpcVersion {
    /// The wire text of this version.
    pub fn as_text(&self) -> (r: &'static str)
        ensures
            r@ == version_text(*self),
    {
        match self {
            JsonRpcVersion::V1_0 => "1.0",
            JsonRpcVersion::V2_0 => "2.0",
        }
    }

    /// Reads a version from its wire text; any other text is rejected and
    /// carried in the error.
    pub fn from_str(s: &str) -> (r: Result<JsonRpcVersion, RpcError>)
        ensures
            match r {
                Ok(v) => version_of_text(s@) == Some(v),
                Err(e) => version_of_text(s@) is None && e.deep_view()
                    == ErrView::InvalidVersion(s@),
            },
    {
        if str_eq_str(s, "1.0") {
            Ok(JsonRpcVersion::V1_0)
        } else if str_eq_str(s, "2.0") {
            Ok(JsonRpcVersion::V2_0)
        } else {
            Err(RpcError::InvalidVersion(String::from_str(s)))
        }
    }
}

/// A version's wire text reads back as that version, and no other text
/// reads as one.
pub proof fn lemma_version_round_trip(v: JsonRpcVersion)
    ensures
        version_of_text(version_text(v)) == Some(v),
{
    reveal_strlit("1.0");
    reveal_strlit("2.0");
    assert("1.0"@[0] == '1' && "2.0"@[0] == '2');
}

/// Spec view of a request envelope.
pub struct ReqView<PV> {
    pub jsonrpc: JsonRpcVersion,
    pub method: Seq<char>,
    pub params: Option<PV>,
    pub id: IdView,
}

/// A JSON-RPC request. `P` is the parameter payload type; on the wire it
/// is a JSON value, positional parameters being an array.
#[derive(Debug, PartialEq)]
pub struct JsonRpcRequest<P> {
    /// The protocol version.
    pub jsonrpc: JsonRpcVersion,
    /// The name of the method to invoke.
    pub method: String,
    /// The parameter payload; left out of the wire form when absent.
    pub params: Option<P>,
    /// The identifier correlating the response to this request.
    pub id: Id,
}

impl<P: DeepView> DeepView for JsonRpcRequest<P> {
    type V = ReqView<P::V>;

    open spec fn deep_view(&self) -> ReqView<P::V> {
        ReqView {
            jsonrpc: self.jsonrpc,
            method: self.method@,
            params: match self.params {
                Some(p) => Some(p.deep_view()),
                None => None,
            },
            id: self.id.deep_view(),
        }
    }
}

impl<P> JsonRpcRequest<P> {
    /// A version 1.0 request with no parameters.
    pub fn new_v1(id: Id, method: &str) -> (r: JsonRpcRequest<P>)
        ensures
            r.jsonrpc == JsonRpcVersion::V1_0,
            r.method@ == method@,
            r.params is None,
            r.id == id,
    {
        JsonRpcRequest { jsonrpc: JsonRpcVersion::V1_0, method: String::from_str(method),
            params: None, id }
    }

    /// A version 2.0 request with no parameters.
    pub fn new_v2(id: Id, method: &str) -> (r: JsonRpcRequest<P>)
        ensures
            r.jsonrpc == JsonRpcVersion::V2_0,
            r.method@ == method@,
            r.params is None,
            r.id == id,
    {
        JsonRpcRequest { jsonrpc: JsonRpcVersion::V2_0, method: String::from_str(method),
            params: None, id }
    }

    /// Attaches parameters, overwriting any prior value.
    pub fn set_params(&mut self, params: P)
        ensures
            final(self).params == Some(params),
            final(self).jsonrpc == old(self).jsonrpc,
            final(self).method == old(self).method,
            final(self).id == old(self).id,
    {
        self.params = Some(params);
    }
}

impl JsonRpcRequest<Vec<JsonValue>> {
    /// Appends one positional parameter; at the first call the sequence is
    /// created around it.
    pub fn add_param(&mut self, param: JsonValue)
        ensures
            final(self).jsonrpc == old(self).jsonrpc,
            final(self).method == old(self).method,
            final(self).id == old(self).id,
            final(self).params matches Some(v) && v@ == (match old(self).params {
                Some(w) => w@,
                None => Seq::<JsonValue>::empty(),
            }) + seq![param],
    {
        match &mut self.params {
            Some(v) => {
                v.push(param);
            },
            None => {
                let mut v: Vec<JsonValue> = Vec::new();
                v.push(param);
                proof {
                    assert(v@ =~= Seq::<JsonValue>::empty() + seq![param]);
                }
                self.params = Some(v);
            },
        }
    }
}

/// The wire form of an identifier.
pub open spec fn id_json(id: IdView) -> JsonView {
    match id {
        IdView::Number(n) => JsonView::UInt(n),
        IdView::Text(t) => JsonView::Text(t),
    }
}

/// Which identifier a JSON value denotes: a number or a text, nothing else.
pub open spec fn id_of_json(v: JsonView) -> Option<IdView> {
    match v {
        JsonView::UInt(n) => Some(IdView::Number(n)),
        JsonView::Text(t) => Some(IdView::Text(t)),
        _ => None,
    }
}

/// The wire form of an identifier, executable side.
pub fn id_to_json(id: &Id) -> (r: JsonValue)
    ensures
        r.deep_view() == id_json(id.deep_view()),
{
    match id {
        Id::Number(n) => JsonValue::UInt(*n),
        Id::Text(s) => JsonValue::Text(s.clone()),
    }
}

/// The members of a request's wire object, in order: `jsonrpc`, `method`,
/// `params` where present, `id`.
pub open spec fn req_pairs(r: ReqView<JsonView>) -> Seq<(Seq<char>, JsonView)> {
    match r.params {
        Some(p) => seq![
            ("jsonrpc"@, JsonView::Text(version_text(r.jsonrpc))),
            ("method"@, JsonView::Text(r.method)),
            ("params"@, p),
            ("id"@, id_json(r.id)),
        ],
        None => seq![
            ("jsonrpc"@, JsonView::Text(version_text(r.jsonrpc))),
            ("method"@, JsonView::Text(r.method)),
            ("id"@, id_json(r.id)),
        ],
    }
}

/// The wire form of a request.
pub open spec fn req_json(r: ReqView<JsonView>) -> JsonView {
    JsonView::Obj(req_pairs(r))
}

/// Reads a request from its wire object. A missing or ill-typed member is
/// a serialization failure; a `jsonrpc` text that is no version is an
/// invalid-version failure carrying that text.
pub open spec fn req_of_json(v: JsonView) -> Result<ReqView<JsonView>, ErrView> {
    match v {
        JsonView::Obj(pairs) => match obj_lookup(pairs, "jsonrpc"@) {
            Some(JsonView::Text(vt)) => match version_of_text(vt) {
                Some(version) => match obj_lookup(pairs, "method"@) {
                    Some(JsonView::Text(m)) => match obj_lookup(pairs, "id"@) {
                        Some(idv) => match id_of_json(idv) {
                            Some(id) => Ok(ReqView {
                                jsonrpc: version,
                                method: m,
                                params: obj_lookup(pairs, "params"@),
                                id,
                            }),
                            None => Err(ErrView::Serde(bad_request_text())),
                        },
                        None => Err(ErrView::Serde(bad_request_text())),
                    },
                    _ => Err(ErrView::Serde(bad_request_text())),
                },
                None => Err(ErrView::InvalidVersion(vt)),
            },
            _ => Err(ErrView::Serde(bad_request_text())),
        },
        _ => Err(ErrView::Serde(bad_request_text())),
    }
}

/// The message carried when an envelope has the wrong shape.
pub open spec fn bad_request_text() -> Seq<char> {
    "malformed JSON-RPC request"@
}

/// The message carried when a payload is not JSON at all.
pub open spec fn bad_json_text() -> Seq<char> {
    "invalid JSON"@
}

/// What parsing a request text yields.
pub open spec fn spec_parse_request(s: Seq<char>) -> Result<ReqView<JsonView>, ErrView> {
    match p_json(s) {
        Some(v) => req_of_json(v),
        None => Err(ErrView::Serde(bad_json_text())),
    }
}

impl JsonRpcRequest<JsonValue> {
    /// The wire text of the request. `params` is omitted entirely when
    /// absent; nothing else is ever left out.
    pub fn serialize(&self) -> (r: String)
        ensures
            r@ == ser(req_json(self.deep_view())),
    {
        let mut pairs: Vec<(String, JsonValue)> = Vec::new();
        pairs.push((String::from_str("jsonrpc"),
            JsonValue::Text(String::from_str(self.jsonrpc.as_text()))));
        pairs.push((String::from_str("method"), JsonValue::Text(self.method.clone())));
        match &self.params {
            Some(p) => {
                pairs.push((String::from_str("params"), clone_json(p)));
            },
            None => {},
        }
        pairs.push((String::from_str("id"), id_to_json(&self.id)));
        proof {
            lemma_json_view_pairs(pairs@);
            let target = req_pairs(self.deep_view());
            assert(json_view_pairs(pairs@)[0] == (pairs@[0].0@, json_view(pairs@[0].1)));
            assert(json_view_pairs(pairs@)[0] == target[0]);
            assert(json_view_pairs(pairs@)[1] == (pairs@[1].0@, json_view(pairs@[1].1)));
            assert(json_view_pairs(pairs@)[1] == target[1]);
            assert(json_view_pairs(pairs@)[2] == (pairs@[2].0@, json_view(pairs@[2].1)));
            assert(json_view_pairs(pairs@)[2] == target[2]);
            if self.params is Some {
                assert(json_view_pairs(pairs@)[3] == (pairs@[3].0@, json_view(pairs@[3].1)));
                assert(json_view_pairs(pairs@)[3] == target[3]);
            }
            assert(json_view_pairs(pairs@) =~= target);
        }
        let v = JsonValue::Obj(pairs);
        serialize_json(&v)
    }
}

/// Reads a request from a parsed wire object.
pub fn req_from_json(v: JsonValue) -> (r: Result<JsonRpcRequest<JsonValue>, RpcError>)
    ensures
        match r {
            Ok(req) => req_of_json(v.deep_view()) == Ok::<ReqView<JsonView>, ErrView>(
                req.deep_view(),
            ),
            Err(e) => req_of_json(v.deep_view()) == Err::<ReqView<JsonView>, ErrView>(
                e.deep_view(),
            ),
        },
{
    match v {
        JsonValue::Obj(pairs) => {
            let version = match lookup_key(&pairs, "jsonrpc") {
                Some(JsonValue::Text(vt)) => match JsonRpcVersion::from_str(vt.as_str()) {
                    Ok(version) => version,
                    Err(e) => {
                        return Err(e);
                    },
                },
                _ => {
                    return Err(RpcError::SerdeFailure(String::from_str(
                        "malformed JSON-RPC request",
                    )));
                },
            };
            let method = match lookup_key(&pairs, "method") {
                Some(JsonValue::Text(m)) => m.clone(),
                _ => {
                    return Err(RpcError::SerdeFailure(String::from_str(
                        "malformed JSON-RPC request",
                    )));
                },
            };
            let id = match lookup_key(&pairs, "id") {
                Some(JsonValue::UInt(n)) => Id::Number(*n),
                Some(JsonValue::Text(t)) => Id::Text(t.clone()),
                _ => {
                    return Err(RpcError::SerdeFailure(String::from_str(
                        "malformed JSON-RPC request",
                    )));
                },
            };
            let params = match lookup_key(&pairs, "params") {
                Some(p) => Some(clone_json(p)),
                None => None,
            };
            Ok(JsonRpcRequest { jsonrpc: version, method, params, id })
        },
        _ => Err(RpcError::SerdeFailure(String::from_str("malformed JSON-RPC request"))),
    }
}

/// Parses a request from its wire text.
pub fn parse_request(text: &str) -> (r: Result<JsonRpcRequest<JsonValue>, RpcError>)
    ensures
        match r {
            Ok(req) => spec_parse_request(text@) == Ok::<ReqView<JsonView>, ErrView>(
                req.deep_view(),
            ),
            Err(e) => spec_parse_request(text@) == Err::<ReqView<JsonView>, ErrView>(
                e.deep_view(),
            ),
        },
{
    let cs = str_to_chars(text);
    match parse_json_chars(&cs) {
        Some(v) => req_from_json(v),
        None => Err(RpcError::SerdeFailure(String::from_str("invalid JSON"))),
    }
}



/// A request without parameters has exactly the three members `jsonrpc`,
/// `method` and `id` in its wire object: no `params` member stands there
/// at all, not even a null one.
pub proof fn lemma_params_omitted(r: ReqView<JsonView>)
    requires
        r.params is None,
    ensures
        req_pairs(r).len() == 3,
        req_pairs(r)[0].0 == "jsonrpc"@,
        req_pairs(r)[1].0 == "method"@,
        req_pairs(r)[2].0 == "id"@,
        obj_lookup(req_pairs(r), "params"@) is None,
{
    reveal_strlit("jsonrpc");
    reveal_strlit("method");
    reveal_strlit("params");
    reveal_strlit("id");
    assert("jsonrpc"@.len() == 7 && "method"@.len() == 6 && "params"@.len() == 6
        && "id"@.len() == 2);
    assert("method"@[0] == 'm' && "params"@[0] == 'p');
    let pairs = req_pairs(r);
    let p1 = pairs.drop_first();
    let p2 = p1.drop_first();
    assert(p1[0] == pairs[1] && p2[0] == pairs[2]);
    assert(p2.drop_first().len() == 0);
    assert(obj_lookup(p2.drop_first(), "params"@) is None);
    assert(obj_lookup(p2, "params"@) is None);
    assert(obj_lookup(p1, "params"@) is None);
}

/// Round trip: serializing a request and parsing the text back yields a
/// request equal in every field, for both protocol versions and for any
/// well-formed parameter payload, present or absent.
pub proof fn lemma_request_round_trip(r: ReqView<JsonView>)
    requires
        match r.params {
            Some(p) => json_wf(p),
            None => true,
        },
    ensures
        spec_parse_request(ser(req_json(r))) == Ok::<ReqView<JsonView>, ErrView>(r),
{
    let pairs = req_pairs(r);
    assert(json_wf(id_json(r.id))) by {
        match r.id {
            IdView::Number(_) => {},
            IdView::Text(_) => {},
        }
    }
    assert forall|i: int| 0 <= i < pairs.len() implies json_wf((#[trigger] pairs[i]).1) by {
        if i == 0 || i == 1 {
            assert(json_wf(JsonView::Text(version_text(r.jsonrpc))));
            assert(json_wf(JsonView::Text(r.method)));
        }
    }
    assert(json_wf(req_json(r)));
    crate::roundtrip::lemma_parse_ser_json(req_json(r));
    // the four keys are pairwise distinct
    reveal_strlit("jsonrpc");
    reveal_strlit("method");
    reveal_strlit("params");
    reveal_strlit("id");
    assert("jsonrpc"@.len() == 7 && "method"@.len() == 6 && "params"@.len() == 6
        && "id"@.len() == 2);
    assert("method"@[0] == 'm' && "params"@[0] == 'p');
    // walk the members
    let p1 = pairs.drop_first();
    let p2 = p1.drop_first();
    assert(p1[0] == pairs[1] && p1.len() == pairs.len() - 1);
    assert(p2[0] == pairs[2] && p2.len() == pairs.len() - 2);
    assert(obj_lookup(pairs, "jsonrpc"@) == Some(JsonView::Text(version_text(r.jsonrpc))));
    assert(obj_lookup(p1, "method"@) == Some(JsonView::Text(r.method)));
    assert(obj_lookup(pairs, "method"@) == Some(JsonView::Text(r.method)));
    if r.params is Some {
        let p3 = p2.drop_first();
        assert(p3[0] == pairs[3] && p3.len() == 1);
        assert(p3.drop_first().len() == 0);
        assert(obj_lookup(p2, "params"@) == r.params);
        assert(obj_lookup(p1, "params"@) == r.params);
        assert(obj_lookup(pairs, "params"@) == r.params);
        assert(obj_lookup(p3, "id"@) == Some(id_json(r.id)));
        assert(obj_lookup(p2, "id"@) == Some(id_json(r.id)));
        assert(obj_lookup(p1, "id"@) == Some(id_json(r.id)));
        assert(obj_lookup(pairs, "id"@) == Some(id_json(r.id)));
    } else {
        assert(p2.drop_first().len() == 0);
        assert(obj_lookup(p2.drop_first(), "params"@) is None);
        assert(obj_lookup(p2, "params"@) is None);
        assert(obj_lookup(p1, "params"@) is None);
        assert(obj_lookup(pairs, "params"@) is None);
        assert(obj_lookup(p2, "id"@) == Some(id_json(r.id)));
        assert(obj_lookup(p1, "id"@) == Some(id_json(r.id)));
        assert(obj_lookup(pairs, "id"@) == Some(id_json(r.id)));
    }
    lemma_version_round_trip(r.jsonrpc);
    assert(id_of_json(id_json(r.id)) == Some(r.id)) by {
        match r.id {
            IdView::Number(_) => {},
            IdView::Text(_) => {},
        }
    }
    assert(req_of_json(req_json(r)) == Ok::<ReqView<JsonView>, ErrView>(r));
}


/// What a handler's decode of a raw request yields: the parsed envelope
/// where its version is the one the handler serves, else the
/// invalid-version error carrying the request's own version text.
pub open spec fn spec_decode_request(s: Seq<char>, expected: JsonRpcVersion) -> Result<
    ReqView<JsonView>,
    ErrView,
> {
    match spec_parse_request(s) {
        Ok(req) => if req.jsonrpc == expected {
            Ok(req)
        } else {
            Err(ErrView::InvalidVersion(version_text(req.jsonrpc)))
        },
        Err(e) => Err(e),
    }
}

/// Decodes a raw request as every handler must: a full envelope parse,
/// then the check that `jsonrpc` is the version this handler serves.
pub fn decode_request(text: &str, expected: JsonRpcVersion) -> (r: Result<
    JsonRpcRequest<JsonValue>,
    RpcError,
>)
    ensures
        match r {
            Ok(req) => spec_decode_request(text@, expected) == Ok::<ReqView<JsonView>, ErrView>(
                req.deep_view(),
            ),
            Err(e) => spec_decode_request(text@, expected) == Err::<ReqView<JsonView>, ErrView>(
                e.deep_view(),
            ),
        },
{
    match parse_request(text) {
        Ok(req) => {
            if req.jsonrpc == expected {
                Ok(req)
            } else {
                Err(RpcError::InvalidVersion(String::from_str(req.jsonrpc.as_text())))
            }
        },
        Err(e) => Err(e),
    }
}

} // verus!
