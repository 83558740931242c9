use fluxtex::buffer::DocumentBuffer;
use fluxtex::collab::{
    CollabEvent, CollabStatus, FailedAction, PeerAction, PeerInput, SessionState,
    SignalingAction, SignalingInput, SignalingRole,
};
use fluxtex::diff::apply_text_diff;
use fluxtex::network::{apply_sync_message, SyncMessage};

fn status_events(out: &[CollabEvent]) -> Vec<CollabStatus> {
    out.iter()
        .filter_map(|e| match e {
            CollabEvent::StatusChanged(s) => Some(s.clone()),
            _ => None,
        })
        .collect()
}

#[test]
fn host_flow_to_connected_sends_snapshot() {
    let mut host = SessionState::new(SignalingRole::Host);
    let mut buffer = DocumentBuffer::with_replica_id(1);
    apply_text_diff(&mut buffer, "", "shared text");

    let mut d = host.begin_drain();
    assert_eq!(host.on_signaling_event(&mut d, SignalingInput::Connected), SignalingAction::Nothing);
    host.on_signaling_event(&mut d, SignalingInput::RoomCreated { code: "ABC123".to_string() });
    let out = host.finish_drain(d);
    assert!(matches!(&out[0], CollabEvent::RoomCode(c) if c == "ABC123"));
    assert_eq!(status_events(&out), vec![CollabStatus::WaitingForPeer]);
    assert_eq!(host.status, CollabStatus::WaitingForPeer);

    let mut d = host.begin_drain();
    assert_eq!(host.on_signaling_event(&mut d, SignalingInput::PeerJoined), SignalingAction::StartHosting);
    let action = host.on_peer_event(&mut d, PeerInput::DataChannelOpen, &mut buffer);
    let out = host.finish_drain(d);
    assert_eq!(host.status, CollabStatus::Connected);
    assert_eq!(status_events(&out), vec![CollabStatus::Connected]);
    match action {
        PeerAction::SendSnapshot(msg) => {
            let mut joiner = DocumentBuffer::with_replica_id(2);
            apply_sync_message(&mut joiner, msg);
            assert_eq!(joiner.content, "shared text");
        }
        _ => panic!("expected a snapshot"),
    }
}

#[test]
fn joiner_flow_and_remote_edit() {
    let mut joiner = SessionState::new(SignalingRole::Join);
    let mut buffer = DocumentBuffer::with_replica_id(2);
    let mut d = joiner.begin_drain();
    joiner.on_signaling_event(&mut d, SignalingInput::Connected);
    joiner.on_signaling_event(&mut d, SignalingInput::JoinAcknowledged);
    assert_eq!(joiner.on_signaling_event(&mut d, SignalingInput::PeerJoined), SignalingAction::Nothing);
    assert_eq!(joiner.on_signaling_event(&mut d, SignalingInput::RelayedSdp), SignalingAction::ApplyRemoteDescription);
    assert_eq!(joiner.on_signaling_event(&mut d, SignalingInput::RelayedIce), SignalingAction::AddRemoteCandidate);
    let out = joiner.finish_drain(d);
    assert_eq!(status_events(&out), vec![CollabStatus::Negotiating]);

    let mut host_buffer = DocumentBuffer::with_replica_id(1);
    apply_text_diff(&mut host_buffer, "", "abc");
    let mut d = joiner.begin_drain();
    assert!(matches!(joiner.on_peer_event(&mut d, PeerInput::DataChannelOpen, &mut buffer), PeerAction::Nothing));
    let snap = SyncMessage::Snapshot { encoded: host_buffer.snapshot(), content: host_buffer.content.clone() };
    joiner.on_peer_event(&mut d, PeerInput::SyncMessage(snap), &mut buffer);
    let out = joiner.finish_drain(d);
    assert_eq!(buffer.content, "abc");
    assert!(out.iter().any(|e| matches!(e, CollabEvent::RemoteSyncApplied)));

    let (msgs, send) = joiner.broadcast_local_edit(&mut buffer, "abc", "abcd");
    assert!(send);
    assert_eq!(msgs.len(), 1);
    assert_eq!(buffer.content, "abcd");
}

#[test]
fn peer_left_disconnects_and_closes_channel() {
    let mut s = SessionState::new(SignalingRole::Host);
    let mut buffer = DocumentBuffer::with_replica_id(1);
    let mut d = s.begin_drain();
    s.on_peer_event(&mut d, PeerInput::DataChannelOpen, &mut buffer);
    s.finish_drain(d);
    assert!(s.data_channel_open);
    let mut d = s.begin_drain();
    s.on_signaling_event(&mut d, SignalingInput::PeerLeft);
    let out = s.finish_drain(d);
    assert!(!s.data_channel_open);
    assert!(matches!(out[0], CollabEvent::PeerLeft));
    assert_eq!(s.status, CollabStatus::Disconnected("peer left".to_string()));
    let (_, send) = s.broadcast_local_edit(&mut buffer, "", "x");
    assert!(!send);
}

#[test]
fn signaling_close_keeps_open_channel() {
    let mut s = SessionState::new(SignalingRole::Join);
    let mut buffer = DocumentBuffer::with_replica_id(1);
    let mut d = s.begin_drain();
    s.on_peer_event(&mut d, PeerInput::DataChannelOpen, &mut buffer);
    s.on_signaling_event(&mut d, SignalingInput::Disconnected);
    let out = s.finish_drain(d);
    assert_eq!(s.status, CollabStatus::Connected);
    assert!(out.iter().any(|e| matches!(e, CollabEvent::Info(m) if m == "signaling channel closed (peer connection unaffected if open)")));

    let mut closed = SessionState::new(SignalingRole::Join);
    let mut d = closed.begin_drain();
    closed.on_signaling_event(&mut d, SignalingInput::Disconnected);
    closed.finish_drain(d);
    assert_eq!(closed.status, CollabStatus::Disconnected("signaling closed".to_string()));
}

#[test]
fn unchanged_status_is_not_reported() {
    let mut s = SessionState::new(SignalingRole::Host);
    let mut d = s.begin_drain();
    s.on_signaling_event(&mut d, SignalingInput::Connecting);
    let out = s.finish_drain(d);
    assert!(out.is_empty());
}

#[test]
fn failures_and_peer_errors_are_reported() {
    let mut s = SessionState::new(SignalingRole::Host);
    let mut buffer = DocumentBuffer::with_replica_id(1);
    let mut d = s.begin_drain();
    s.on_action_failed(&mut d, FailedAction::ApplySdp, "bad sdp");
    s.on_peer_event(&mut d, PeerInput::DataChannelError("boom".to_string()), &mut buffer);
    s.on_peer_event(&mut d, PeerInput::ConnectionState("Checking".to_string()), &mut buffer);
    s.on_signaling_event(&mut d, SignalingInput::Error("room X not found".to_string()));
    assert!(matches!(s.on_peer_event(&mut d, PeerInput::LocalDescription, &mut buffer), PeerAction::ForwardDescription));
    assert!(matches!(s.on_peer_event(&mut d, PeerInput::IceCandidate, &mut buffer), PeerAction::ForwardCandidate));
    let out = s.finish_drain(d);
    let texts: Vec<String> = out
        .iter()
        .map(|e| match e {
            CollabEvent::Error(m) => format!("E {m}"),
            CollabEvent::Info(m) => format!("I {m}"),
            other => format!("{other:?}"),
        })
        .collect();
    assert_eq!(texts, vec!["E apply sdp: bad sdp", "E data channel: boom", "I ice state: Checking", "E room X not found"]);
}

#[test]
fn shutdown_disconnects_by_user() {
    let mut s = SessionState::new(SignalingRole::Join);
    s.shutdown();
    assert!(!s.data_channel_open);
    assert_eq!(s.status, CollabStatus::Disconnected("disconnected by user".to_string()));
}

#[test]
fn every_failed_action_is_named() {
    let s = SessionState::new(SignalingRole::Host);
    let mut d = s.begin_drain();
    s.on_action_failed(&mut d, FailedAction::Host, "a");
    s.on_action_failed(&mut d, FailedAction::ApplySdp, "b");
    s.on_action_failed(&mut d, FailedAction::ApplyIce, "c");
    s.on_action_failed(&mut d, FailedAction::SendSnapshot, "d");
    let texts: Vec<String> = d
        .out
        .iter()
        .map(|e| match e {
            CollabEvent::Error(m) => m.clone(),
            _ => String::new(),
        })
        .collect();
    assert_eq!(texts, vec!["host failed: a", "apply sdp: b", "apply ice: c", "send snapshot: d"]);
}
