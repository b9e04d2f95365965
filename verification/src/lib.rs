//! A small RPC core that exposes named, schema-described operations
//! ("tools") to a remote caller: a tool registry, a JSON-RPC dispatcher,
//! and the pure decision logic of a line-framed stream transport and a
//! session-multiplexed push transport.

pub mod dispatch;
pub mod json;
pub mod parse;
pub mod registry;
pub mod roundtrip;
pub mod schema;
pub mod ser;
pub mod session;
pub mod stream;
pub mod strutil;
pub mod types;
