use fluxtex::signal::{
    code_from_bytes, generate_code, malformed_message, ClientMessage, ConnRole, Connection,
    Outgoing, Room, RoomTable, ServerMessage, DEFAULT_ADDR,
};

fn room_code(outs: &[Outgoing]) -> String {
    assert_eq!(outs.len(), 1);
    match &outs[0].message {
        ServerMessage::RoomCreated { code } => code.clone(),
        _ => panic!("expected RoomCreated"),
    }
}

fn error_text(o: &Outgoing) -> String {
    match &o.message {
        ServerMessage::Error { reason } => reason.clone(),
        _ => panic!("expected Error"),
    }
}

#[test]
fn codes_are_six_uppercase_hex_digits() {
    assert_eq!(code_from_bytes(0xab, 0x01, 0xff), "AB01FF");
    for _ in 0..16 {
        let c = generate_code();
        assert_eq!(c.len(), 6);
        assert!(c.chars().all(|ch| ch.is_ascii_hexdigit() && !ch.is_ascii_lowercase()));
    }
    assert_eq!(DEFAULT_ADDR, "127.0.0.1:9000");
}

#[test]
fn host_join_and_relay_both_ways() {
    let mut rooms = RoomTable::new();
    let mut host = Connection::new(1);
    let code = room_code(&rooms.host_room(&mut host));
    assert_eq!(host.role, ConnRole::Host);
    assert_eq!(rooms.get(&code), Some(Room { host: Some(1), peer: None }));

    let mut peer = Connection::new(2);
    let outs = rooms.join_room(&mut peer, &code.to_lowercase());
    assert_eq!(outs.len(), 2);
    assert_eq!(outs[0].to, 2);
    assert!(matches!(outs[0].message, ServerMessage::JoinAck));
    assert_eq!(outs[1].to, 1);
    assert!(matches!(outs[1].message, ServerMessage::PeerJoined));
    assert_eq!(peer.role, ConnRole::Peer);
    assert_eq!(peer.room.as_deref(), Some(code.as_str()));
    assert_eq!(rooms.get(&code), Some(Room { host: Some(1), peer: Some(2) }));

    let payload = serde_json::Value::String("sdp".to_string());
    let to_host = rooms.relay_signal(&peer, payload.clone());
    assert_eq!(to_host.len(), 1);
    assert_eq!(to_host[0].to, 1);
    match &to_host[0].message {
        ServerMessage::Signal { payload: p } => assert_eq!(*p, payload),
        _ => panic!("expected Signal"),
    }
    let to_peer = rooms.relay_signal(&host, payload.clone());
    assert_eq!(to_peer.len(), 1);
    assert_eq!(to_peer[0].to, 2);
}

#[test]
fn third_connection_finds_room_full() {
    let mut rooms = RoomTable::new();
    let mut host = Connection::new(1);
    let code = room_code(&rooms.host_room(&mut host));
    let mut peer = Connection::new(2);
    rooms.join_room(&mut peer, &code);
    let mut third = Connection::new(3);
    let outs = rooms.join_room(&mut third, &code);
    assert_eq!(outs.len(), 1);
    assert_eq!(outs[0].to, 3);
    assert_eq!(error_text(&outs[0]), format!("room {code} already has two peers"));
    assert_eq!(third.role, ConnRole::Unset);
    assert!(third.room.is_none());
}

#[test]
fn unknown_room_not_found() {
    let mut rooms = RoomTable::new();
    let mut c = Connection::new(5);
    let outs = rooms.join_room(&mut c, "zz9999");
    assert_eq!(error_text(&outs[0]), "room ZZ9999 not found");
}

#[test]
fn signal_before_host_or_join_is_refused() {
    let rooms = RoomTable::new();
    let c = Connection::new(8);
    let outs = rooms.relay_signal(&c, serde_json::Value::Null);
    assert_eq!(outs.len(), 1);
    assert_eq!(outs[0].to, 8);
    assert_eq!(error_text(&outs[0]), "must Host or Join before signaling");
}

#[test]
fn host_relay_without_peer_goes_nowhere() {
    let mut rooms = RoomTable::new();
    let mut host = Connection::new(1);
    rooms.host_room(&mut host);
    assert!(rooms.relay_signal(&host, serde_json::Value::Null).is_empty());
}

#[test]
fn peer_leaving_reopens_room() {
    let mut rooms = RoomTable::new();
    let mut host = Connection::new(1);
    let code = room_code(&rooms.host_room(&mut host));
    let mut peer = Connection::new(2);
    rooms.join_room(&mut peer, &code);
    let outs = rooms.leave(&peer);
    assert_eq!(outs.len(), 1);
    assert_eq!(outs[0].to, 1);
    assert!(matches!(outs[0].message, ServerMessage::PeerLeft));
    assert_eq!(rooms.get(&code), Some(Room { host: Some(1), peer: None }));
    let mut again = Connection::new(3);
    let outs = rooms.join_room(&mut again, &code);
    assert!(matches!(outs[0].message, ServerMessage::JoinAck));
}

#[test]
fn host_leaving_closes_room() {
    let mut rooms = RoomTable::new();
    let mut host = Connection::new(1);
    let code = room_code(&rooms.host_room(&mut host));
    let mut peer = Connection::new(2);
    rooms.join_room(&mut peer, &code);
    let outs = rooms.leave(&host);
    assert_eq!(outs.len(), 1);
    assert_eq!(outs[0].to, 2);
    assert_eq!(rooms.get(&code), None);
    assert!(rooms.leave(&Connection::new(9)).is_empty());
}

#[test]
fn client_messages_dispatch() {
    let mut rooms = RoomTable::new();
    let mut host = Connection::new(1);
    let code = room_code(&rooms.handle_client_message(&mut host, ClientMessage::Host));
    let mut peer = Connection::new(2);
    let outs = rooms.handle_client_message(&mut peer, ClientMessage::Join { code: code.clone() });
    assert_eq!(outs.len(), 2);
    let outs = rooms.handle_client_message(&mut peer, ClientMessage::Signal { payload: serde_json::Value::Bool(true) });
    assert_eq!(outs[0].to, 1);
}

#[test]
fn malformed_message_reason() {
    match malformed_message("expected value at line 1") {
        ServerMessage::Error { reason } => assert_eq!(reason, "malformed message: expected value at line 1"),
        _ => panic!("expected Error"),
    }
}

#[test]
fn room_table_put_get_remove() {
    let mut rooms = RoomTable::new();
    rooms.put("A".to_string(), Room { host: Some(1), peer: None });
    rooms.put("B".to_string(), Room { host: Some(2), peer: Some(3) });
    rooms.put("A".to_string(), Room { host: Some(4), peer: None });
    assert_eq!(rooms.get(&"A".to_string()), Some(Room { host: Some(4), peer: None }));
    rooms.remove(&"A".to_string());
    assert_eq!(rooms.get(&"A".to_string()), None);
    assert_eq!(rooms.get(&"B".to_string()), Some(Room { host: Some(2), peer: Some(3) }));
}
