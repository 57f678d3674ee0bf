//! The pure half of the stdio transport: building outbound wire lines and
//! routing inbound ones.
//!
//! The embedding host owns the child process, the writer and reader tasks,
//! and the clock; everything it needs decided — what bytes to write, what an
//! arriving line means, which pending request it completes — is decided here.

use vstd::prelude::*;
use crate::json::Json;
use crate::json::ser;
use crate::pending::PendingTable;
use crate::rpc::Message;
use crate::rpc::MessageV;
use crate::rpc::RpcError;
use crate::rpc::RpcId;
use crate::rpc::RpcIdV;
use crate::rpc::InboundV;
use crate::rpc::decode_line;
use crate::rpc::decode_spec;
use crate::rpc::encode_message;
use crate::rpc::msg_jsonv;
use crate::rpc::opt_jsonv;

verus! {

/// How long a request may wait for its response before it fails with
/// `Timeout` and its correlation entry is removed.
pub const REQUEST_TIMEOUT_SECS: u64 = 30;

/// A transport failure, per operation.
#[derive(Debug, PartialEq)]
pub enum TransportError {
    /// An OS-level failure spawning the child or moving bytes; fatal.
    Io(String),
    /// A malformed inbound line; logged, the line dropped, the transport
    /// lives on.
    Parse(String),
    /// Structurally valid but semantically wrong traffic, or a duplicate
    /// correlation id.
    Protocol(String),
    /// A well-formed JSON-RPC error object from the server, verbatim.
    Rpc(RpcError),
    /// No response within the per-request deadline.
    Timeout,
    /// The transport is no longer operable.
    ChannelClosed,
}

/// Relies on uuid: `Uuid::new_v4()` draws a random version-4 UUID and its
/// `Display` form is the 36-character hyphenated lowercase encoding. The
/// value is random, so nothing else is promised of it.
#[verifier::external_body]
fn fresh_request_id() -> (r: String)
    ensures
        r@.len() == 36,
{
    uuid::Uuid::new_v4().to_string()
}

/// One wire line for a notification, newline not included.
pub fn notification_line(method: String, params: Option<Json>) -> (line: String)
    ensures
        line@ == ser(
            msg_jsonv(MessageV::Notification { method: method@, params: opt_jsonv(params) }),
        ),
{
    encode_message(Message::Notification { method, params })
}

/// Prepares one outbound request: draws a fresh correlation id, registers
/// the caller's completion slot under it, and only then hands back the wire
/// line — so the entry is in the table before anything can be written.
/// Should the drawn id collide with an outstanding one, the slot is handed
/// back untouched and the caller fails with a protocol error; on an empty
/// table no id can collide, so there it must succeed.
pub fn prepare_request<S>(
    table: &mut PendingTable<S>,
    slot: S,
    method: String,
    params: Option<Json>,
) -> (r: Result<(String, String), S>)
    requires
        old(table).wf(),
    ensures
        final(table).wf(),
        match r {
            Ok((id, line)) => id@.len() == 36 && !old(table).view().contains_key(id@)
                && final(table).view() =~= old(table).view().insert(id@, slot) && line@ == ser(
                msg_jsonv(
                    MessageV::Request {
                        id: RpcIdV::S(id@),
                        method: method@,
                        params: opt_jsonv(params),
                    },
                ),
            ),
            Err(s) => s == slot && old(table).count() > 0 && *final(table) == *old(table),
        },
{
    let id = fresh_request_id();
    let id_copy = id.clone();
    match table.register(id, slot) {
        Ok(()) => {
            let line = encode_message(
                Message::Request { id: RpcId::S(id_copy.clone()), method, params },
            );
            Ok((id_copy, line))
        },
        Err(s) => Err(s),
    }
}

/// What one inbound stdout line amounts to.
#[derive(Debug)]
pub enum Routed<S> {
    /// Empty or whitespace-only; skipped.
    Skipped,
    /// Not a JSON-RPC message; logged, dropped, nothing disturbed.
    Malformed,
    /// A server notification, for the host's notification sink.
    Notification { method: String, params: Option<Json> },
    /// A server-initiated request; this client does not support them, so it
    /// is logged as unexpected and discarded.
    ServerRequest { method: String },
    /// The response to the outstanding request `id`; its slot leaves the
    /// table and the outcome is to be sent into it.
    Completed { id: String, slot: S, outcome: Result<Json, RpcError> },
    /// A response-shaped line for the outstanding request `id` whose body
    /// makes no valid response; its slot leaves the table and is to be
    /// failed with a protocol error.
    Invalid { id: String, slot: S },
    /// A response whose id is not outstanding (late after a timeout, or
    /// alien); logged and dropped.
    UnknownId,
}

/// Routes one line from the child's stdout. Only a response to an
/// outstanding request — valid, or response-shaped but unreadable — changes
/// the table, and it removes exactly that entry; blank, malformed and alien
/// lines leave everything as it was, so later lines are processed as if
/// they had never arrived.
pub fn route_line<S>(table: &mut PendingTable<S>, line: &str) -> (r: Routed<S>)
    requires
        old(table).wf(),
    ensures
        final(table).wf(),
        match r {
            Routed::Skipped => decode_spec(line@) is Blank && *final(table) == *old(table),
            Routed::Malformed => decode_spec(line@) is Malformed && *final(table) == *old(table),
            Routed::Notification { method, params } => decode_spec(line@) == InboundV::Msg(
                MessageV::Notification { method: method@, params: opt_jsonv(params) },
            ) && *final(table) == *old(table),
            Routed::ServerRequest { method } => (match decode_spec(line@) {
                InboundV::Msg(MessageV::Request { method: m, .. }) => m == method@,
                _ => false,
            }) && *final(table) == *old(table),
            Routed::Completed { id, slot, outcome } => (match decode_spec(line@) {
                InboundV::Msg(MessageV::Response { id: rid, result }) => rid == RpcIdV::S(id@)
                    && (match (outcome, result) {
                    (Ok(j), Ok(rv)) => j@ == rv,
                    (Err(e), Err(ev)) => e@ == ev,
                    _ => false,
                }),
                _ => false,
            }) && old(table).view().contains_key(id@) && slot == old(table).view()[id@]
                && final(table).view() =~= old(table).view().remove(id@) && final(table).count()
                + 1 == old(table).count(),
            Routed::Invalid { id, slot } => decode_spec(line@) == (InboundV::InvalidResponse {
                id: RpcIdV::S(id@),
            }) && old(table).view().contains_key(id@) && slot == old(table).view()[id@]
                && final(table).view() =~= old(table).view().remove(id@) && final(table).count()
                + 1 == old(table).count(),
            Routed::UnknownId => (match decode_spec(line@) {
                InboundV::Msg(MessageV::Response { id: rid, .. }) => match rid {
                    RpcIdV::S(s) => !old(table).view().contains_key(s),
                    RpcIdV::N(_) => true,
                },
                InboundV::InvalidResponse { id: rid } => match rid {
                    RpcIdV::S(s) => !old(table).view().contains_key(s),
                    RpcIdV::N(_) => true,
                },
                _ => false,
            }) && *final(table) == *old(table),
        },
{
    match decode_line(line) {
        crate::rpc::Inbound::Blank => Routed::Skipped,
        crate::rpc::Inbound::Malformed => Routed::Malformed,
        crate::rpc::Inbound::Msg(m) => match m {
            Message::Notification { method, params } => Routed::Notification { method, params },
            Message::Request { method, .. } => Routed::ServerRequest { method },
            Message::Response { id, result } => match id {
                RpcId::S(s) => match table.take(s.as_str()) {
                    Some(slot) => Routed::Completed { id: s, slot, outcome: result },
                    None => Routed::UnknownId,
                },
                RpcId::N(_) => Routed::UnknownId,
            },
        },
        crate::rpc::Inbound::InvalidResponse { id } => match id {
            RpcId::S(s) => match table.take(s.as_str()) {
                Some(slot) => Routed::Invalid { id: s, slot },
                None => Routed::UnknownId,
            },
            RpcId::N(_) => Routed::UnknownId,
        },
    }
}

} // verus!
