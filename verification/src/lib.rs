//! A JSON-RPC protocol and dispatch core.
//!
//! The crate models JSON-RPC 1.0 and 2.0 envelopes over a small JSON value
//! type, serializes and parses them with verified round-trip behaviour,
//! maps an internal error taxonomy to the fixed wire error codes, and
//! routes raw request text to registered handlers through a route table
//! that is built once and rejects duplicate method names.

pub mod echo;
pub mod error;
pub mod id;
pub mod json;
pub mod parse;
pub mod request;
pub mod response;
pub mod roundtrip;
pub mod ser;
pub mod service;
pub mod text;

pub use echo::EchoService;
pub use error::RpcError;
pub use error::JsonRpcError;
pub use id::Id;
pub use id::Id as JsonRpcId;
pub use id::IdGenerator;
pub use json::JsonValue;
pub use request::JsonRpcRequest;
pub use response::JsonRpcResponse;
pub use service::JsonRpcServiceFn;
pub use service::RpcServiceEntry;
pub use service::RouteTable;
pub use service::init;
pub use service::init as init_rpc_service;
pub use request::JsonRpcVersion;
