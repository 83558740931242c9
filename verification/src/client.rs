//! The decisions of the signaling client: where it connects, what it says
//! first, what each server message means to the session, and how its
//! failures are reported. The WebSocket itself is driven by the
//! application.

use vstd::prelude::*;

use crate::collab::{prefixed, SignalingRole};
use crate::signal::{ClientMessage, ServerMessage, ServerMessageView};
use crate::text::str_starts_with;

verus! {

/// Whether `s` starts with `p`.
pub open spec fn has_prefix(s: Seq<char>, p: Seq<char>) -> bool {
    p.len() <= s.len() && s.take(p.len() as int) == p
}

/// The WebSocket URL for a server address: the address itself when it
/// already names the `ws` or `wss` scheme, else `ws://` before it.
pub fn signaling_url(server_addr: &str) -> (url: String)
    ensures
        url@ == (if has_prefix(server_addr@, "ws://"@) || has_prefix(server_addr@, "wss://"@) {
            server_addr@
        } else {
            "ws://"@ + server_addr@
        }),
{
    if str_starts_with(server_addr, "ws://") || str_starts_with(server_addr, "wss://") {
        crate::collab::str_to_string(server_addr)
    } else {
        prefixed("ws://", server_addr)
    }
}

/// The first message to the server: host a room, or join the room with
/// the given code (an empty code when there is none).
pub fn hello_message(role: SignalingRole, join_code: Option<String>) -> (m: ClientMessage)
    ensures
        role == SignalingRole::Host ==> m is Host,
        role == SignalingRole::Join ==> (m matches ClientMessage::Join { code } && code@ == (
        match join_code {
            Some(c) => c@,
            None => Seq::empty(),
        })),
{
    match role {
        SignalingRole::Host => ClientMessage::Host,
        SignalingRole::Join => {
            let code = match join_code {
                Some(c) => c,
                None => {
                    proof {
                        reveal_strlit("");
                    }
                    String::new()
                },
            };
            ClientMessage::Join { code }
        },
    }
}

/// What a server message means to the client.
pub enum ServerStep {
    /// A room was opened under this code.
    RoomCreated { code: String },
    /// The other peer joined the room.
    PeerJoined,
    /// The room accepted this client.
    JoinAcknowledged,
    /// The other peer left.
    PeerLeft,
    /// The server refused something, for this reason.
    Error(String),
    /// A payload the other peer relayed, to be decoded by the application.
    Relay(serde_json::Value),
}

/// Whether `step` is what the server message `m` means.
pub open spec fn step_for(m: ServerMessageView, step: ServerStep) -> bool {
    match m {
        ServerMessageView::RoomCreated(code) => step matches ServerStep::RoomCreated { code: c }
            && c@ == code,
        ServerMessageView::PeerJoined => step is PeerJoined,
        ServerMessageView::JoinAck => step is JoinAcknowledged,
        ServerMessageView::PeerLeft => step is PeerLeft,
        ServerMessageView::Error(reason) => step matches ServerStep::Error(r) && r@ == reason,
        ServerMessageView::Signal(payload) => step matches ServerStep::Relay(p) && p == payload,
    }
}

/// What a server message means: room and peer news and errors are passed
/// on as they are; relayed payloads go to the application to decode.
pub fn server_step(msg: ServerMessage) -> (step: ServerStep)
    ensures
        step_for(msg@, step),
{
    match msg {
        ServerMessage::RoomCreated { code } => ServerStep::RoomCreated { code },
        ServerMessage::PeerJoined => ServerStep::PeerJoined,
        ServerMessage::JoinAck => ServerStep::JoinAcknowledged,
        ServerMessage::PeerLeft => ServerStep::PeerLeft,
        ServerMessage::Error { reason } => ServerStep::Error(reason),
        ServerMessage::Signal { payload } => ServerStep::Relay(payload),
    }
}

/// A step of the client that failed.
#[derive(Clone, Copy, Debug, PartialEq, Eq, Structural)]
pub enum ClientFailure {
    /// Starting the client's runtime.
    Runtime,
    /// Opening the WebSocket.
    Connect,
    /// Sending the first message.
    SendHello,
    /// Reading from the WebSocket.
    Read,
    /// Parsing a server message.
    BadServerMessage,
    /// Decoding a relayed payload.
    BadRelayPayload,
    /// Encoding a local description.
    EncodeSdp,
    /// Sending a local description.
    SendSdp,
    /// Encoding a local candidate.
    EncodeIce,
    /// Sending a local candidate.
    SendIce,
}

/// The words before the detail of a failure's report.
pub open spec fn failure_label(f: ClientFailure) -> Seq<char> {
    match f {
        ClientFailure::Runtime => "tokio runtime"@,
        ClientFailure::Connect => "connect failed"@,
        ClientFailure::SendHello => "send hello"@,
        ClientFailure::Read => "read"@,
        ClientFailure::BadServerMessage => "bad server msg"@,
        ClientFailure::BadRelayPayload => "bad relay payload"@,
        ClientFailure::EncodeSdp => "encode sdp"@,
        ClientFailure::SendSdp => "send sdp"@,
        ClientFailure::EncodeIce => "encode ice"@,
        ClientFailure::SendIce => "send ice"@,
    }
}

/// Whether the client gives up (and reports itself disconnected) after
/// the failure: it does when it cannot start, connect, greet or read, and
/// carries on after a bad message or a failed send.
pub open spec fn failure_ends_client(f: ClientFailure) -> bool {
    match f {
        ClientFailure::Runtime | ClientFailure::Connect | ClientFailure::SendHello
        | ClientFailure::Read => true,
        _ => false,
    }
}

/// The error text of a failure: its label, a colon, and the detail.
pub fn failure_text(f: ClientFailure, detail: &str) -> (r: String)
    ensures
        r@ == failure_label(f) + ": "@ + detail@,
{
    let label = match f {
        ClientFailure::Runtime => "tokio runtime",
        ClientFailure::Connect => "connect failed",
        ClientFailure::SendHello => "send hello",
        ClientFailure::Read => "read",
        ClientFailure::BadServerMessage => "bad server msg",
        ClientFailure::BadRelayPayload => "bad relay payload",
        ClientFailure::EncodeSdp => "encode sdp",
        ClientFailure::SendSdp => "send sdp",
        ClientFailure::EncodeIce => "encode ice",
        ClientFailure::SendIce => "send ice",
    };
    let mut r = prefixed(label, ": ");
    r.append(detail);
    r
}

/// Whether the client stops after the failure.
pub fn ends_client(f: ClientFailure) -> (r: bool)
    ensures
        r == failure_ends_client(f),
{
    match f {
        ClientFailure::Runtime | ClientFailure::Connect | ClientFailure::SendHello
        | ClientFailure::Read => true,
        _ => false,
    }
}

} // verus!
