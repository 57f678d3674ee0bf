//! Client core for the Model Context Protocol: a JSON-RPC 2.0 conversation
//! spoken over the standard streams of a locally spawned server process.
//!
//! The crate is organised sans-io: every protocol decision (framing, message
//! classification, request correlation, capability gating, the session state
//! machine) is a verified function over plain values, and an embedding host
//! runs the child process and the event loop around it.

pub mod host;
pub mod json;
pub mod pending;
pub mod rpc;
pub mod session;
pub mod transport;
