//! The method registry and the dispatcher.
//!
//! Handlers are registered as (method name, handler) entries before any
//! traffic is served. `init` folds them into a route table exactly once
//! and fails fatally on a duplicate method name, for the caller to abort
//! startup. `dispatch` reads only the `method` member of an inbound
//! payload, looks it up, and hands the whole payload to the one handler
//! registered for it.

use vstd::prelude::*;
use crate::error::{RpcError, ErrView, wire_error_of, JsonRpcError};
use crate::json::{JsonValue, JsonView, obj_lookup, lookup_key, clone_json, json_view_pairs,
    lemma_json_view_pairs, json_view};
use crate::parse::{p_json, parse_json_chars};
use crate::request::bad_request_text;
use crate::response::{err_json, err_to_json};
use crate::ser::{ser, serialize_json};
use crate::text::{str_to_chars, str_eq_str};
use vstd::string::StringExecFns;

verus! {

/// A unit of business logic bound to one method name. `handle` takes the
/// full raw request text — every handler performs its own envelope
/// decode — and yields the serialized response or a typed error.
/// `handle_spec` is the implementation's declared meaning of `handle`,
/// which `handle` must return exactly.
pub trait JsonRpcServiceFn {
    /// The declared meaning of `handle`.
    spec fn handle_spec(&self, req: Seq<char>) -> Result<Seq<char>, ErrView>;

    /// Processes one raw request.
    fn handle(&self, req: &str) -> (r: Result<String, RpcError>)
        ensures
            match r {
                Ok(s) => self.handle_spec(req@) == Ok::<Seq<char>, ErrView>(s@),
                Err(e) => self.handle_spec(req@) == Err::<Seq<char>, ErrView>(e.deep_view()),
            },
    ;
}

/// A registration entry: a method name bound to its handler.
pub struct RpcServiceEntry<H> {
    /// The method name; must be unique across all entries.
    pub method: String,
    /// The handler serving it.
    pub handler: H,
}

/// The route table: the mapping from method name to handler, built once
/// from the registration entries and read-only afterwards.
pub struct RouteTable<H> {
    entries: Vec<RpcServiceEntry<H>>,
}

impl<H> RouteTable<H> {
    /// The registered method names, in registration order.
    pub closed spec fn methods(&self) -> Seq<Seq<char>> {
        Seq::new(self.entries@.len(), |i: int| self.entries@[i].method@)
    }

    /// The registered handlers, in registration order.
    pub closed spec fn handlers(&self) -> Seq<H> {
        Seq::new(self.entries@.len(), |i: int| self.entries@[i].handler)
    }

    /// Method names are unique across the table.
    pub open spec fn wf(&self) -> bool {
        forall|i: int, j: int| 0 <= i < j < self.methods().len()
            ==> self.methods()[i] != self.methods()[j]
    }

    /// Whether some entry serves `m`.
    pub open spec fn has_method(&self, m: Seq<char>) -> bool {
        exists|i: int| 0 <= i < self.methods().len() && self.methods()[i] == m
    }

    /// The position of the entry serving `m`.
    pub open spec fn index_of(&self, m: Seq<char>) -> int {
        choose|i: int| 0 <= i < self.methods().len() && self.methods()[i] == m
    }

    /// The handler serving `m`.
    pub open spec fn handler_for(&self, m: Seq<char>) -> H {
        self.handlers()[self.index_of(m)]
    }

    /// How many methods are registered.
    pub fn len(&self) -> (r: usize)
        ensures
            r == self.methods().len(),
    {
        self.entries.len()
    }

    /// Finds the handler registered for `method` — by uniqueness, the
    /// only one.
    pub fn lookup(&self, method: &str) -> (r: Option<&H>)
        requires
            self.wf(),
        ensures
            match r {
                Some(h) => self.has_method(method@) && *h == self.handler_for(method@),
                None => !self.has_method(method@),
            },
    {
        let n = self.entries.len();
        let mut i: usize = 0;
        while i < n
            invariant
                n == self.entries@.len(),
                i <= n,
                self.wf(),
                forall|k: int| 0 <= k < i ==> self.methods()[k] != method@,
            decreases n - i,
        {
            if str_eq_str(self.entries[i].method.as_str(), method) {
                proof {
                    assert(self.methods()[i as int] == method@);
                    let k = self.index_of(method@);
                    assert(0 <= k < self.methods().len() && self.methods()[k] == method@);
                    assert(k == i as int);
                }
                return Some(&self.entries[i].handler);
            }
            i = i + 1;
        }
        None
    }
}

/// Exactly-once routing: in a well-formed table at most one entry serves
/// any method name, so a request for that name reaches one handler and no
/// other.
pub proof fn lemma_route_unique<H>(t: &RouteTable<H>, m: Seq<char>, i: int, j: int)
    requires
        t.wf(),
        0 <= i < t.methods().len(),
        0 <= j < t.methods().len(),
        t.methods()[i] == m,
        t.methods()[j] == m,
    ensures
        i == j,
{
}

/// Builds the route table from the registration entries. Construction
/// fails — fatally, for the caller to abort startup — exactly when two
/// entries share a method name; one is never silently dropped.
pub fn init<H>(entries: Vec<RpcServiceEntry<H>>) -> (r: Result<RouteTable<H>, String>)
    ensures
        r is Ok <==> (forall|i: int, j: int| 0 <= i < j < entries@.len()
            ==> (#[trigger] entries@[i].method@) != (#[trigger] entries@[j].method@)),
        r matches Ok(t) ==> ({
            &&& t.wf()
            &&& t.methods() == Seq::new(entries@.len(), |i: int| entries@[i].method@)
            &&& t.handlers() == Seq::new(entries@.len(), |i: int| entries@[i].handler)
        }),
        r matches Err(m) ==> exists|i: int, j: int| 0 <= i < j < entries@.len()
            && (#[trigger] entries@[i].method@) == (#[trigger] entries@[j].method@)
            && m@ == entries@[j].method@,
{
    let n = entries.len();
    let mut j: usize = 1;
    while j < n
        invariant
            n == entries@.len(),
            1 <= j || n == 0,
            j <= n || (n == 0 && j == 1),
            forall|a: int, b: int| 0 <= a < b < j && b < n ==> (#[trigger] entries@[a].method@)
                != (#[trigger] entries@[b].method@),
        decreases n - j,
    {
        let mut i: usize = 0;
        while i < j
            invariant
                n == entries@.len(),
                i <= j < n,
                forall|a: int| 0 <= a < i ==> (#[trigger] entries@[a].method@)
                    != entries@[j as int].method@,
            decreases j - i,
        {
            if str_eq_str(entries[i].method.as_str(), entries[j].method.as_str()) {
                return Err(entries[j].method.clone());
            }
            i = i + 1;
        }
        j = j + 1;
    }
    let t = RouteTable { entries };
    proof {
        assert(t.methods() =~= Seq::new(t.entries@.len(), |i: int| t.entries@[i].method@));
        assert(t.handlers() =~= Seq::new(t.entries@.len(), |i: int| t.entries@[i].handler));
    }
    Ok(t)
}

/// The method named by a raw payload: the `method` member of its
/// top-level object, which must hold a text.
pub open spec fn spec_peek_method(s: Seq<char>) -> Option<Seq<char>> {
    match p_json(s) {
        Some(JsonView::Obj(pairs)) => match obj_lookup(pairs, "method"@) {
            Some(JsonView::Text(m)) => Some(m),
            _ => None,
        },
        _ => None,
    }
}

/// Reads the method name out of a raw payload without decoding the rest
/// of the envelope.
pub fn peek_method(body: &str) -> (r: Option<String>)
    ensures
        match r {
            Some(m) => spec_peek_method(body@) == Some(m@),
            None => spec_peek_method(body@) is None,
        },
{
    let cs = str_to_chars(body);
    match parse_json_chars(&cs) {
        Some(JsonValue::Obj(pairs)) => match lookup_key(&pairs, "method") {
            Some(JsonValue::Text(m)) => Some(m.clone()),
            _ => None,
        },
        _ => None,
    }
}

impl<H: JsonRpcServiceFn> RouteTable<H> {
    /// Routes a raw request to the handler registered for its method and
    /// returns that handler's output verbatim. A payload whose method
    /// cannot be read fails as a serialization failure; a method that no
    /// entry serves fails as `MethodNotFound`, which only the dispatcher
    /// produces.
    pub fn dispatch(&self, body: &str) -> (r: Result<String, RpcError>)
        requires
            self.wf(),
        ensures
            match spec_peek_method(body@) {
                Some(m) => if self.has_method(m) {
                    match r {
                        Ok(s) => self.handler_for(m).handle_spec(body@) == Ok::<
                            Seq<char>,
                            ErrView,
                        >(s@),
                        Err(e) => self.handler_for(m).handle_spec(body@) == Err::<
                            Seq<char>,
                            ErrView,
                        >(e.deep_view()),
                    }
                } else {
                    r == Err::<String, RpcError>(RpcError::MethodNotFound)
                },
                None => r matches Err(e) && e.deep_view() == ErrView::Serde(bad_request_text()),
            },
    {
        match peek_method(body) {
            Some(m) => match self.lookup(m.as_str()) {
                Some(h) => h.handle(body),
                None => Err(RpcError::MethodNotFound),
            },
            None => Err(RpcError::SerdeFailure(String::from_str("malformed JSON-RPC request"))),
        }
    }
}

/// An unregistered method is answered with the fixed wire code -32601 and
/// the fixed text.
pub proof fn lemma_method_not_found_wire()
    ensures
        wire_error_of(ErrView::MethodNotFound).code == -32601,
        wire_error_of(ErrView::MethodNotFound).message == "method not found"@,
        wire_error_of(ErrView::MethodNotFound).data is None,
{
}

/// The wire text answering a payload that failed outside any handler: the
/// payload's raw `jsonrpc` and `id` members — or the JSON literal null
/// for each that cannot be recovered — around the mapped wire error.
pub open spec fn spec_error_response(s: Seq<char>, e: ErrView) -> Seq<char> {
    let vj = match p_json(s) {
        Some(JsonView::Obj(pairs)) => match obj_lookup(pairs, "jsonrpc"@) {
            Some(v) => v,
            None => JsonView::Null,
        },
        _ => JsonView::Null,
    };
    let idj = match p_json(s) {
        Some(JsonView::Obj(pairs)) => match obj_lookup(pairs, "id"@) {
            Some(v) => v,
            None => JsonView::Null,
        },
        _ => JsonView::Null,
    };
    ser(JsonView::Obj(seq![
        ("jsonrpc"@, vj),
        ("error"@, err_json(wire_error_of(e))),
        ("id"@, idj),
    ]))
}

/// Builds the error response for a payload that no handler answered:
/// whatever `jsonrpc` and `id` members the payload holds are carried
/// over unchanged, and each one that cannot be recovered is the JSON
/// literal null.
pub fn error_response_body(body: &str, err: RpcError) -> (r: String)
    ensures
        r@ == spec_error_response(body@, err.deep_view()),
{
    let cs = str_to_chars(body);
    let recovered = match parse_json_chars(&cs) {
        Some(JsonValue::Obj(pairs)) => {
            let vj = match lookup_key(&pairs, "jsonrpc") {
                Some(v) => clone_json(v),
                None => JsonValue::Null,
            };
            let idj = match lookup_key(&pairs, "id") {
                Some(v) => clone_json(v),
                None => JsonValue::Null,
            };
            (vj, idj)
        },
        _ => (JsonValue::Null, JsonValue::Null),
    };
    let (vj, idj) = recovered;
    let e = JsonRpcError::from_rpc_error(err);
    let mut pairs2: Vec<(String, JsonValue)> = Vec::new();
    pairs2.push((String::from_str("jsonrpc"), vj));
    pairs2.push((String::from_str("error"), err_to_json(&e)));
    pairs2.push((String::from_str("id"), idj));
    proof {
        lemma_json_view_pairs(pairs2@);
        let target = seq![
            ("jsonrpc"@, pairs2@[0].1.deep_view()),
            ("error"@, err_json(wire_error_of(err.deep_view()))),
            ("id"@, pairs2@[2].1.deep_view()),
        ];
        assert(json_view_pairs(pairs2@)[0] == (pairs2@[0].0@, json_view(pairs2@[0].1)));
        assert(json_view_pairs(pairs2@)[1] == (pairs2@[1].0@, json_view(pairs2@[1].1)));
        assert(json_view_pairs(pairs2@)[2] == (pairs2@[2].0@, json_view(pairs2@[2].1)));
        assert(json_view_pairs(pairs2@) =~= target);
    }
    let out = JsonValue::Obj(pairs2);
    serialize_json(&out)
}

} // verus!
