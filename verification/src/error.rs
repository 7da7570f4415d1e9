//! The error taxonomy and its mapping to wire error objects.
//!
//! `RpcError` classifies every failure the core can meet; `JsonRpcError`
//! is the `{code, message, data}` object that goes on the wire. The
//! mapping from the one to the other is total and fixed: each kind has
//! exactly one wire code, and the message is either the carried
//! description or a fixed text around it.

use vstd::prelude::*;
use crate::json::{JsonValue, JsonView};
use vstd::string::StringExecFns;

verus! {

/// Spec view of the error taxonomy.
pub enum ErrView {
    Io(Seq<char>),
    Transport(Seq<char>),
    Serde(Seq<char>),
    InvalidVersion(Seq<char>),
    MethodNotFound,
    Custom(Seq<char>),
    InvalidParams(Seq<char>),
}

/// The internal error taxonomy. Failures of the surrounding I/O and
/// transport layers are carried as their descriptions.
#[derive(Debug, Clone, PartialEq, Eq)]
pub enum RpcError {
    /// A low-level I/O failure, with its description.
    IoFailure(String),
    /// A network or HTTP transport failure, with its description.
    TransportFailure(String),
    /// A serialization or parse failure, with its description.
    SerdeFailure(String),
    /// The `jsonrpc` field did not hold the expected version text; the
    /// offending text is carried.
    InvalidVersion(String),
    /// The requested method is not in the route table.
    MethodNotFound,
    /// A business-logic failure, with caller-supplied text.
    CustomError(String),
    /// Missing or malformed parameters, with a description.
    InvalidParams(String),
}

impl DeepView for RpcError {
    type V = ErrView;

    open spec fn deep_view(&self) -> ErrView {
        match self {
            RpcError::IoFailure(t) => ErrView::Io(t@),
            RpcError::TransportFailure(t) => ErrView::Transport(t@),
            RpcError::SerdeFailure(t) => ErrView::Serde(t@),
            RpcError::InvalidVersion(t) => ErrView::InvalidVersion(t@),
            RpcError::MethodNotFound => ErrView::MethodNotFound,
            RpcError::CustomError(t) => ErrView::Custom(t@),
            RpcError::InvalidParams(t) => ErrView::InvalidParams(t@),
        }
    }
}

/// Spec view of a wire error object.
pub struct WireErrorView {
    pub code: i64,
    pub message: Seq<char>,
    pub data: Option<JsonView>,
}

/// The wire error object: what a failed call carries in a response.
#[derive(Debug, PartialEq)]
pub struct JsonRpcError {
    /// The error code.
    pub code: i64,
    /// A short description of the error.
    pub message: String,
    /// Additional information; left out of the wire form when absent.
    pub data: Option<JsonValue>,
}

impl DeepView for JsonRpcError {
    type V = WireErrorView;

    open spec fn deep_view(&self) -> WireErrorView {
        WireErrorView {
            code: self.code,
            message: self.message@,
            data: match self.data {
                Some(d) => Some(d.deep_view()),
                None => None,
            },
        }
    }
}

/// The fixed wire code of each internal kind.
pub open spec fn wire_code_of(e: ErrView) -> i64 {
    match e {
        ErrView::Io(_) => -32000i64,
        ErrView::Transport(_) => -32001i64,
        ErrView::Serde(_) => -32002i64,
        ErrView::Custom(_) => -32003i64,
        ErrView::InvalidVersion(_) => -32600i64,
        ErrView::MethodNotFound => -32601i64,
        ErrView::InvalidParams(_) => -32602i64,
    }
}

/// The wire message of each internal kind.
pub open spec fn wire_message_of(e: ErrView) -> Seq<char> {
    match e {
        ErrView::Io(t) => t,
        ErrView::Transport(t) => t,
        ErrView::Serde(t) => t,
        ErrView::Custom(t) => t,
        ErrView::InvalidVersion(t) => "Invalid JSON-RPC version: "@ + t,
        ErrView::MethodNotFound => "method not found"@,
        ErrView::InvalidParams(t) => "Invalid parameters: "@ + t,
    }
}

/// The wire error object of an internal error.
pub open spec fn wire_error_of(e: ErrView) -> WireErrorView {
    WireErrorView { code: wire_code_of(e), message: wire_message_of(e), data: None }
}

impl JsonRpcError {
    /// Converts an internal error into its wire error object: the fixed
    /// code, the message from the table, and no data.
    pub fn from_rpc_error(err: RpcError) -> (r: JsonRpcError)
        ensures
            r.deep_view() == wire_error_of(err.deep_view()),
    {
        match err {
            RpcError::IoFailure(t) => JsonRpcError { code: -32000, message: t, data: None },
            RpcError::TransportFailure(t) => JsonRpcError {
                code: -32001,
                message: t,
                data: None,
            },
            RpcError::SerdeFailure(t) => JsonRpcError { code: -32002, message: t, data: None },
            RpcError::CustomError(t) => JsonRpcError { code: -32003, message: t, data: None },
            RpcError::InvalidVersion(t) => {
                let mut m = String::from_str("Invalid JSON-RPC version: ");
                m.append(t.as_str());
                JsonRpcError { code: -32600, message: m, data: None }
            },
            RpcError::MethodNotFound => JsonRpcError {
                code: -32601,
                message: String::from_str("method not found"),
                data: None,
            },
            RpcError::InvalidParams(t) => {
                let mut m = String::from_str("Invalid parameters: ");
                m.append(t.as_str());
                JsonRpcError { code: -32602, message: m, data: None }
            },
        }
    }
}

/// The mapping is total and deterministic: each internal kind has exactly
/// one wire code, errors of the same kind share it, and no two kinds
/// share one.
pub proof fn lemma_wire_codes_fixed(e1: ErrView, e2: ErrView)
    ensures
        wire_code_of(e1) == wire_code_of(e2) <==> (e1 matches ErrView::Io(_) && e2
            matches ErrView::Io(_)) || (e1 matches ErrView::Transport(_) && e2
            matches ErrView::Transport(_)) || (e1 matches ErrView::Serde(_) && e2
            matches ErrView::Serde(_)) || (e1 matches ErrView::Custom(_) && e2
            matches ErrView::Custom(_)) || (e1 matches ErrView::InvalidVersion(_) && e2
            matches ErrView::InvalidVersion(_)) || (e1 matches ErrView::MethodNotFound && e2
            matches ErrView::MethodNotFound) || (e1 matches ErrView::InvalidParams(_) && e2
            matches ErrView::InvalidParams(_)),
{
}

} // verus!
