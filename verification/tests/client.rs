use fluxtex::client::{ends_client, failure_text, hello_message, server_step, signaling_url, ClientFailure, ServerStep};
use fluxtex::collab::SignalingRole;
use fluxtex::signal::{ClientMessage, ServerMessage};

#[test]
fn url_gets_scheme_when_missing() {
    assert_eq!(signaling_url("127.0.0.1:9000"), "ws://127.0.0.1:9000");
    assert_eq!(signaling_url("ws://host:1"), "ws://host:1");
    assert_eq!(signaling_url("wss://host"), "wss://host");
    assert_eq!(signaling_url("http://x"), "ws://http://x");
}

#[test]
fn hello_for_host_and_join() {
    assert!(matches!(hello_message(SignalingRole::Host, Some("X".to_string())), ClientMessage::Host));
    match hello_message(SignalingRole::Join, Some("AB12CD".to_string())) {
        ClientMessage::Join { code } => assert_eq!(code, "AB12CD"),
        _ => panic!("expected Join"),
    }
    match hello_message(SignalingRole::Join, None) {
        ClientMessage::Join { code } => assert_eq!(code, ""),
        _ => panic!("expected Join"),
    }
}

#[test]
fn server_messages_map_to_steps() {
    assert!(matches!(
        server_step(ServerMessage::RoomCreated { code: "C0FFEE".to_string() }),
        ServerStep::RoomCreated { code } if code == "C0FFEE"
    ));
    assert!(matches!(server_step(ServerMessage::PeerJoined), ServerStep::PeerJoined));
    assert!(matches!(server_step(ServerMessage::JoinAck), ServerStep::JoinAcknowledged));
    assert!(matches!(server_step(ServerMessage::PeerLeft), ServerStep::PeerLeft));
    assert!(matches!(
        server_step(ServerMessage::Error { reason: "room X not found".to_string() }),
        ServerStep::Error(r) if r == "room X not found"
    ));
    let mut payload = serde_json::Map::new();
    payload.insert("kind".to_string(), serde_json::Value::String("ice".to_string()));
    let value = serde_json::Value::Object(payload);
    match server_step(ServerMessage::Signal { payload: value.clone() }) {
        ServerStep::Relay(p) => assert_eq!(p, value),
        _ => panic!("expected Relay"),
    }
}

#[test]
fn failures_are_labelled() {
    assert_eq!(failure_text(ClientFailure::Connect, "refused"), "connect failed: refused");
    assert_eq!(failure_text(ClientFailure::BadRelayPayload, "x"), "bad relay payload: x");
    assert_eq!(failure_text(ClientFailure::Runtime, "e"), "tokio runtime: e");
    assert!(ends_client(ClientFailure::Read));
    assert!(ends_client(ClientFailure::SendHello));
    assert!(!ends_client(ClientFailure::SendSdp));
    assert!(!ends_client(ClientFailure::BadServerMessage));
}

#[test]
fn every_failure_label() {
    let cases = [
        (ClientFailure::Runtime, "tokio runtime: x", true),
        (ClientFailure::Connect, "connect failed: x", true),
        (ClientFailure::SendHello, "send hello: x", true),
        (ClientFailure::Read, "read: x", true),
        (ClientFailure::BadServerMessage, "bad server msg: x", false),
        (ClientFailure::BadRelayPayload, "bad relay payload: x", false),
        (ClientFailure::EncodeSdp, "encode sdp: x", false),
        (ClientFailure::SendSdp, "send sdp: x", false),
        (ClientFailure::EncodeIce, "encode ice: x", false),
        (ClientFailure::SendIce, "send ice: x", false),
    ];
    for (f, text, ends) in cases {
        assert_eq!(failure_text(f, "x"), text);
        assert_eq!(ends_client(f), ends);
    }
}
