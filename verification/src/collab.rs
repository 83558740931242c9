//! The decisions of a collaboration session: how its status moves with the
//! events the signaling channel and the peer connection report, what the
//! session asks to be done in turn, and what it tells the editor.
//!
//! The transport itself (the WebSocket signaling client and the WebRTC peer
//! connection) is driven by the application, which feeds each event it
//! receives to the session and performs the action the session returns.

use vstd::prelude::*;

use crate::buffer::DocumentBuffer;
use crate::diff::{apply_text_diff, char_diff, insertions_measured, msg_shapes, replay};
use crate::crdt::others_unchanged;
use crate::network::{apply_sync_message, leader_run, sync_applicable, sync_post, SyncMessage};

verus! {

/// State exposed to the UI for the running collaboration session.
#[derive(Debug, Clone, PartialEq, Eq)]
pub enum CollabStatus {
    Idle,
    ConnectingToSignaling,
    WaitingForPeer,
    Joining,
    Negotiating,
    Connected,
    Disconnected(String),
}

pub enum CollabStatusView {
    Idle,
    ConnectingToSignaling,
    WaitingForPeer,
    Joining,
    Negotiating,
    Connected,
    Disconnected(Seq<char>),
}

impl View for CollabStatus {
    type V = CollabStatusView;

    open spec fn view(&self) -> CollabStatusView {
        match self {
            CollabStatus::Idle => CollabStatusView::Idle,
            CollabStatus::ConnectingToSignaling => CollabStatusView::ConnectingToSignaling,
            CollabStatus::WaitingForPeer => CollabStatusView::WaitingForPeer,
            CollabStatus::Joining => CollabStatusView::Joining,
            CollabStatus::Negotiating => CollabStatusView::Negotiating,
            CollabStatus::Connected => CollabStatusView::Connected,
            CollabStatus::Disconnected(reason) => CollabStatusView::Disconnected(reason@),
        }
    }
}

/// One drained iteration's worth of events, surfaced to the UI/edit pipeline.
#[derive(Debug, Clone)]
pub enum CollabEvent {
    StatusChanged(CollabStatus),
    RoomCode(String),
    PeerJoined,
    PeerLeft,
    /// A remote sync message that has been integrated into the document
    /// buffer already; the caller reflects the buffer into the editor view.
    RemoteSyncApplied,
    Error(String),
    Info(String),
}

pub enum CollabEventView {
    StatusChanged(CollabStatusView),
    RoomCode(Seq<char>),
    PeerJoined,
    PeerLeft,
    RemoteSyncApplied,
    Error(Seq<char>),
    Info(Seq<char>),
}

impl View for CollabEvent {
    type V = CollabEventView;

    open spec fn view(&self) -> CollabEventView {
        match self {
            CollabEvent::StatusChanged(s) => CollabEventView::StatusChanged(s@),
            CollabEvent::RoomCode(c) => CollabEventView::RoomCode(c@),
            CollabEvent::PeerJoined => CollabEventView::PeerJoined,
            CollabEvent::PeerLeft => CollabEventView::PeerLeft,
            CollabEvent::RemoteSyncApplied => CollabEventView::RemoteSyncApplied,
            CollabEvent::Error(e) => CollabEventView::Error(e@),
            CollabEvent::Info(i) => CollabEventView::Info(i@),
        }
    }
}

pub open spec fn event_views(es: Seq<CollabEvent>) -> Seq<CollabEventView> {
    es.map_values(|e: CollabEvent| e@)
}

#[derive(Debug, Clone, Copy, PartialEq, Eq, Structural)]
pub enum SignalingRole {
    Host,
    Join,
}

/// What the signaling client reports, without the SDP / ICE payloads it
/// relays (the application keeps those and applies them when asked to).
pub enum SignalingInput {
    Connecting,
    Connected,
    RoomCreated { code: String },
    JoinAcknowledged,
    PeerJoined,
    PeerLeft,
    RelayedSdp,
    RelayedIce,
    Error(String),
    Disconnected,
}

/// What the peer connection reports, without the SDP / ICE payloads it
/// produces for the signaling channel.
pub enum PeerInput {
    LocalDescription,
    IceCandidate,
    DataChannelOpen,
    DataChannelClosed,
    DataChannelError(String),
    /// A change of the ICE connection state, as its debug text.
    ConnectionState(String),
    SyncMessage(SyncMessage),
}

/// What the session asks the application to do after a signaling event.
#[derive(Debug, Clone, Copy, PartialEq, Eq, Structural)]
pub enum SignalingAction {
    Nothing,
    /// Create the data channel and the SDP offer (host side).
    StartHosting,
    /// Apply the relayed SDP to the peer connection.
    ApplyRemoteDescription,
    /// Add the relayed ICE candidate to the peer connection.
    AddRemoteCandidate,
}

/// What the session asks the application to do after a peer event.
pub enum PeerAction {
    Nothing,
    /// Forward the local SDP to the signaling channel.
    ForwardDescription,
    /// Forward the local ICE candidate to the signaling channel.
    ForwardCandidate,
    /// Send this snapshot over the data channel.
    SendSnapshot(SyncMessage),
}

/// An action of the application that failed, for the error it reports.
#[derive(Debug, Clone, Copy, PartialEq, Eq, Structural)]
pub enum FailedAction {
    Host,
    ApplySdp,
    ApplyIce,
    SendSnapshot,
}

/// The events gathered during one drain, and the status the last event
/// asked for.
pub struct Drain {
    pub out: Vec<CollabEvent>,
    pub new_status: Option<CollabStatus>,
    pub remote_applied: bool,
}

pub open spec fn new_status_view(d: Drain) -> Option<CollabStatusView> {
    match d.new_status {
        Some(s) => Some(s@),
        None => None,
    }
}

/// The session's own state; the transport handles live with the
/// application.
pub struct SessionState {
    pub role: SignalingRole,
    pub status: CollabStatus,
    pub data_channel_open: bool,
}

pub fn str_to_string(s: &str) -> (r: String)
    ensures
        r@ == s@,
{
    String::from_str(s)
}

/// `prefix` followed by `rest`.
pub fn prefixed(prefix: &str, rest: &str) -> (r: String)
    ensures
        r@ == prefix@ + rest@,
{
    let mut r = String::from_str(prefix);
    r.append(rest);
    r
}

/// A copy of a status.
pub fn copy_status(s: &CollabStatus) -> (r: CollabStatus)
    ensures
        r@ == s@,
{
    match s {
        CollabStatus::Idle => CollabStatus::Idle,
        CollabStatus::ConnectingToSignaling => CollabStatus::ConnectingToSignaling,
        CollabStatus::WaitingForPeer => CollabStatus::WaitingForPeer,
        CollabStatus::Joining => CollabStatus::Joining,
        CollabStatus::Negotiating => CollabStatus::Negotiating,
        CollabStatus::Connected => CollabStatus::Connected,
        CollabStatus::Disconnected(reason) => CollabStatus::Disconnected(reason.clone()),
    }
}

/// Whether two statuses are the same (variant and reason).
pub fn same_status(a: &CollabStatus, b: &CollabStatus) -> (r: bool)
    ensures
        r == (a@ == b@),
{
    match (a, b) {
        (CollabStatus::Idle, CollabStatus::Idle) => true,
        (CollabStatus::ConnectingToSignaling, CollabStatus::ConnectingToSignaling) => true,
        (CollabStatus::WaitingForPeer, CollabStatus::WaitingForPeer) => true,
        (CollabStatus::Joining, CollabStatus::Joining) => true,
        (CollabStatus::Negotiating, CollabStatus::Negotiating) => true,
        (CollabStatus::Connected, CollabStatus::Connected) => true,
        (CollabStatus::Disconnected(x), CollabStatus::Disconnected(y)) => *x == *y,
        (_, _) => false,
    }
}

/// The status a signaling event asks for, if any, given the role and
/// whether the data channel is open.
pub open spec fn signaling_status(
    role: SignalingRole,
    open: bool,
    ev: SignalingInput,
) -> Option<CollabStatusView> {
    match ev {
        SignalingInput::Connecting => Some(CollabStatusView::ConnectingToSignaling),
        SignalingInput::Connected => Some(
            match role {
                SignalingRole::Host => CollabStatusView::ConnectingToSignaling,
                SignalingRole::Join => CollabStatusView::Joining,
            },
        ),
        SignalingInput::RoomCreated { .. } => Some(CollabStatusView::WaitingForPeer),
        SignalingInput::JoinAcknowledged => Some(CollabStatusView::Negotiating),
        SignalingInput::PeerJoined => Some(CollabStatusView::Negotiating),
        SignalingInput::PeerLeft => Some(CollabStatusView::Disconnected("peer left"@)),
        SignalingInput::Disconnected => if open {
            None
        } else {
            Some(CollabStatusView::Disconnected("signaling closed"@))
        },
        _ => None,
    }
}

/// The events a signaling event reports to the editor.
pub open spec fn signaling_events(ev: SignalingInput) -> Seq<CollabEventView> {
    match ev {
        SignalingInput::RoomCreated { code } => seq![CollabEventView::RoomCode(code@)],
        SignalingInput::JoinAcknowledged => seq![CollabEventView::Info("paired with host"@)],
        SignalingInput::PeerJoined => seq![CollabEventView::PeerJoined],
        SignalingInput::PeerLeft => seq![CollabEventView::PeerLeft],
        SignalingInput::Error(reason) => seq![CollabEventView::Error(reason@)],
        SignalingInput::Disconnected => seq![
            CollabEventView::Info("signaling channel closed (peer connection unaffected if open)"@),
        ],
        _ => seq![],
    }
}

/// The text that introduces the error of a failed action.
pub open spec fn failure_prefix(a: FailedAction) -> Seq<char> {
    match a {
        FailedAction::Host => "host failed: "@,
        FailedAction::ApplySdp => "apply sdp: "@,
        FailedAction::ApplyIce => "apply ice: "@,
        FailedAction::SendSnapshot => "send snapshot: "@,
    }
}

impl SessionState {
    /// A session that has just started connecting to the signaling server.
    pub fn new(role: SignalingRole) -> (s: Self)
        ensures
            s.role == role,
            s.status@ == CollabStatusView::ConnectingToSignaling,
            !s.data_channel_open,
    {
        SessionState { role, status: CollabStatus::ConnectingToSignaling, data_channel_open: false }
    }

    /// Starts gathering one drain's worth of events.
    pub fn begin_drain(&self) -> (d: Drain)
        ensures
            d.out@.len() == 0,
            d.new_status is None,
            !d.remote_applied,
    {
        Drain { out: Vec::new(), new_status: None, remote_applied: false }
    }

    /// Takes one event of the signaling client into account: the status it
    /// asks for replaces any earlier one of this drain, the events it
    /// reports are appended, and the action the application must perform is
    /// returned. Only a host that sees its peer join starts hosting.
    pub fn on_signaling_event(&mut self, drain: &mut Drain, ev: SignalingInput) -> (action:
        SignalingAction)
        ensures
            final(self).role == old(self).role,
            final(self).status == old(self).status,
            final(self).data_channel_open == (old(self).data_channel_open && !(
            ev is PeerLeft)),
            new_status_view(*final(drain)) == (match signaling_status(
                old(self).role,
                old(self).data_channel_open,
                ev,
            ) {
                Some(s) => Some(s),
                None => new_status_view(*old(drain)),
            }),
            event_views(final(drain).out@) == event_views(old(drain).out@) + signaling_events(ev),
            final(drain).remote_applied == old(drain).remote_applied,
            action == (match ev {
                SignalingInput::PeerJoined => if old(self).role == SignalingRole::Host {
                    SignalingAction::StartHosting
                } else {
                    SignalingAction::Nothing
                },
                SignalingInput::RelayedSdp => SignalingAction::ApplyRemoteDescription,
                SignalingInput::RelayedIce => SignalingAction::AddRemoteCandidate,
                _ => SignalingAction::Nothing,
            }),
    {
        let ghost out0 = event_views(drain.out@);
        let mut action = SignalingAction::Nothing;
        match ev {
            SignalingInput::Connecting => {
                drain.new_status = Some(CollabStatus::ConnectingToSignaling);
            },
            SignalingInput::Connected => {
                drain.new_status = Some(
                    match self.role {
                        SignalingRole::Host => CollabStatus::ConnectingToSignaling,
                        SignalingRole::Join => CollabStatus::Joining,
                    },
                );
            },
            SignalingInput::RoomCreated { code } => {
                drain.new_status = Some(CollabStatus::WaitingForPeer);
                drain.out.push(CollabEvent::RoomCode(code));
            },
            SignalingInput::JoinAcknowledged => {
                drain.new_status = Some(CollabStatus::Negotiating);
                drain.out.push(CollabEvent::Info(str_to_string("paired with host")));
            },
            SignalingInput::PeerJoined => {
                drain.out.push(CollabEvent::PeerJoined);
                drain.new_status = Some(CollabStatus::Negotiating);
                if self.role == SignalingRole::Host {
                    action = SignalingAction::StartHosting;
                }
            },
            SignalingInput::PeerLeft => {
                self.data_channel_open = false;
                drain.out.push(CollabEvent::PeerLeft);
                drain.new_status = Some(CollabStatus::Disconnected(str_to_string("peer left")));
            },
            SignalingInput::RelayedSdp => {
                action = SignalingAction::ApplyRemoteDescription;
            },
            SignalingInput::RelayedIce => {
                action = SignalingAction::AddRemoteCandidate;
            },
            SignalingInput::Error(reason) => {
                drain.out.push(CollabEvent::Error(reason));
            },
            SignalingInput::Disconnected => {
                drain.out.push(
                    CollabEvent::Info(
                        str_to_string(
                            "signaling channel closed (peer connection unaffected if open)",
                        ),
                    ),
                );
                if !self.data_channel_open {
                    drain.new_status = Some(
                        CollabStatus::Disconnected(str_to_string("signaling closed")),
                    );
                }
            },
        }
        proof {
            assert(event_views(drain.out@) =~= out0 + signaling_events(ev));
        }
        action
    }

    /// Reports the failure of an action the session asked for: an error
    /// event naming the action and carrying the transport's error text.
    pub fn on_action_failed(&self, drain: &mut Drain, action: FailedAction, detail: &str)
        ensures
            event_views(final(drain).out@) == event_views(old(drain).out@).push(
                CollabEventView::Error(failure_prefix(action) + detail@),
            ),
            final(drain).new_status == old(drain).new_status,
            final(drain).remote_applied == old(drain).remote_applied,
    {
        let prefix = match action {
            FailedAction::Host => "host failed: ",
            FailedAction::ApplySdp => "apply sdp: ",
            FailedAction::ApplyIce => "apply ice: ",
            FailedAction::SendSnapshot => "send snapshot: ",
        };
        let ghost out0 = event_views(drain.out@);
        drain.out.push(CollabEvent::Error(prefixed(prefix, detail)));
        proof {
            assert(event_views(drain.out@) =~= out0.push(
                CollabEventView::Error(failure_prefix(action) + detail@),
            ));
        }
    }

    /// Takes one event of the peer connection into account. An opening data
    /// channel connects the session, and the host then seeds the joiner with
    /// a snapshot of the buffer; a closing one disconnects it; a sync
    /// message is applied to the buffer.
    pub fn on_peer_event(
        &mut self,
        drain: &mut Drain,
        ev: PeerInput,
        doc_buffer: &mut DocumentBuffer,
    ) -> (action: PeerAction)
        requires
            old(doc_buffer).wf(),
            ev matches PeerInput::SyncMessage(m) ==> sync_applicable(*old(doc_buffer), m),
        ensures
            final(doc_buffer).wf(),
            ev matches PeerInput::SyncMessage(m) ==> sync_post(*old(doc_buffer), *final(doc_buffer), m),
            final(self).role == old(self).role,
            final(self).status == old(self).status,
            final(self).data_channel_open == (match ev {
                PeerInput::DataChannelOpen => true,
                PeerInput::DataChannelClosed => false,
                _ => old(self).data_channel_open,
            }),
            new_status_view(*final(drain)) == (match ev {
                PeerInput::DataChannelOpen => Some(CollabStatusView::Connected),
                PeerInput::DataChannelClosed => Some(
                    CollabStatusView::Disconnected("data channel closed"@),
                ),
                _ => new_status_view(*old(drain)),
            }),
            event_views(final(drain).out@) == event_views(old(drain).out@) + (match ev {
                PeerInput::DataChannelOpen => seq![CollabEventView::Info("data channel open"@)],
                PeerInput::DataChannelError(e) => seq![
                    CollabEventView::Error("data channel: "@ + e@),
                ],
                PeerInput::ConnectionState(state) => seq![
                    CollabEventView::Info("ice state: "@ + state@),
                ],
                _ => seq![],
            }),
            final(drain).remote_applied == (old(drain).remote_applied || ev is SyncMessage),
            !(ev is SyncMessage) ==> *final(doc_buffer) == *old(doc_buffer),
            match action {
                PeerAction::Nothing => !(ev is LocalDescription) && !(ev is IceCandidate) && !(
                ev is DataChannelOpen && old(self).role == SignalingRole::Host),
                PeerAction::ForwardDescription => ev is LocalDescription,
                PeerAction::ForwardCandidate => ev is IceCandidate,
                PeerAction::SendSnapshot(m) => {
                    &&& ev is DataChannelOpen
                    &&& old(self).role == SignalingRole::Host
                    &&& m matches SyncMessage::Snapshot { encoded, content }
                    &&& content@ == old(doc_buffer).content@
                    &&& encoded == crate::crdt::replica_encoding(old(doc_buffer).replica)
                    &&& crate::crdt::encoded_len(encoded) == old(doc_buffer).tracked_len()
                    &&& crate::crdt::decodable(encoded)
                },
            },
    {
        let ghost out0 = event_views(drain.out@);
        let mut action = PeerAction::Nothing;
        match ev {
            PeerInput::LocalDescription => {
                action = PeerAction::ForwardDescription;
            },
            PeerInput::IceCandidate => {
                action = PeerAction::ForwardCandidate;
            },
            PeerInput::DataChannelOpen => {
                self.data_channel_open = true;
                drain.new_status = Some(CollabStatus::Connected);
                drain.out.push(CollabEvent::Info(str_to_string("data channel open")));
                if self.role == SignalingRole::Host {
                    let snapshot = SyncMessage::Snapshot {
                        encoded: doc_buffer.snapshot(),
                        content: doc_buffer.content.clone(),
                    };
                    action = PeerAction::SendSnapshot(snapshot);
                }
            },
            PeerInput::DataChannelClosed => {
                self.data_channel_open = false;
                drain.new_status = Some(
                    CollabStatus::Disconnected(str_to_string("data channel closed")),
                );
            },
            PeerInput::DataChannelError(e) => {
                drain.out.push(CollabEvent::Error(prefixed("data channel: ", e.as_str())));
            },
            PeerInput::ConnectionState(state) => {
                drain.out.push(CollabEvent::Info(prefixed("ice state: ", state.as_str())));
            },
            PeerInput::SyncMessage(msg) => {
                apply_sync_message(doc_buffer, msg);
                drain.remote_applied = true;
            },
        }
        proof {
            assert(event_views(drain.out@) =~= out0 + (match ev {
                PeerInput::DataChannelOpen => seq![CollabEventView::Info("data channel open"@)],
                PeerInput::DataChannelError(e) => seq![
                    CollabEventView::Error("data channel: "@ + e@),
                ],
                PeerInput::ConnectionState(state) => seq![
                    CollabEventView::Info("ice state: "@ + state@),
                ],
                _ => seq![],
            }));
        }
        action
    }

    /// Ends a drain: reports that remote edits were applied (once, if any
    /// were), then the status change, if the status the drain asked for
    /// differs from the current one, which it then becomes.
    pub fn finish_drain(&mut self, drain: Drain) -> (out: Vec<CollabEvent>)
        ensures
            final(self).role == old(self).role,
            final(self).data_channel_open == old(self).data_channel_open,
            ({
                let with_remote = if drain.remote_applied {
                    event_views(drain.out@).push(CollabEventView::RemoteSyncApplied)
                } else {
                    event_views(drain.out@)
                };
                match drain.new_status {
                    Some(s) => if s@ != old(self).status@ {
                        &&& final(self).status@ == s@
                        &&& event_views(out@) == with_remote.push(
                            CollabEventView::StatusChanged(s@),
                        )
                    } else {
                        &&& final(self).status == old(self).status
                        &&& event_views(out@) == with_remote
                    },
                    None => {
                        &&& final(self).status == old(self).status
                        &&& event_views(out@) == with_remote
                    },
                }
            }),
    {
        let Drain { out, new_status, remote_applied } = drain;
        let mut out = out;
        let ghost out0 = event_views(out@);
        if remote_applied {
            out.push(CollabEvent::RemoteSyncApplied);
        }
        let ghost out1 = event_views(out@);
        proof {
            if remote_applied {
                assert(out1 =~= out0.push(CollabEventView::RemoteSyncApplied));
            }
        }
        match new_status {
            Some(status) => {
                if !same_status(&status, &self.status) {
                    self.status = copy_status(&status);
                    out.push(CollabEvent::StatusChanged(status));
                    proof {
                        assert(event_views(out@) =~= out1.push(
                            CollabEventView::StatusChanged(self.status@),
                        ));
                    }
                }
            },
            None => {},
        }
        out
    }

    /// Applies a local edit to the buffer and returns its sync messages,
    /// with whether they are to be sent: only when the data channel is open
    /// and there is something to send. The buffer is updated either way.
    pub fn broadcast_local_edit(
        &self,
        doc_buffer: &mut DocumentBuffer,
        old_text: &str,
        new_text: &str,
    ) -> (res: (Vec<SyncMessage>, bool))
        requires
            old(doc_buffer).wf(),
        ensures
            final(doc_buffer).wf(),
            others_unchanged(old(doc_buffer).replica, final(doc_buffer).replica),
            old_text@ == new_text@ ==> res.0@.len() == 0,
            old(doc_buffer).in_sync() ==> final(doc_buffer).in_sync(),
            old(doc_buffer).covers() ==> final(doc_buffer).covers(),
            replay(
                old(doc_buffer).bytes(),
                old(doc_buffer).tracked_len() as int,
                0,
                char_diff(old_text@, new_text@),
            ) == (final(doc_buffer).bytes(), msg_shapes(res.0@)),
            old(doc_buffer).covers() && old(doc_buffer).content@ == old_text@
                ==> final(doc_buffer).content@ == new_text@,
            insertions_measured(res.0@),
            exists|bs: Seq<Seq<u8>>, rs: Seq<cola::Replica>, ats: Seq<(usize, usize)>|
                #[trigger] leader_run(
                    old(doc_buffer).bytes(),
                    old(doc_buffer).replica,
                    final(doc_buffer).bytes(),
                    final(doc_buffer).replica,
                    res.0@,
                    bs,
                    rs,
                    ats,
                ),
            res.1 == (self.data_channel_open && res.0@.len() > 0),
    {
        let messages = apply_text_diff(doc_buffer, old_text, new_text);
        let send = self.data_channel_open && messages.len() > 0;
        (messages, send)
    }

    /// Leaves the session at the user's request.
    pub fn shutdown(&mut self)
        ensures
            final(self).role == old(self).role,
            !final(self).data_channel_open,
            final(self).status@ == CollabStatusView::Disconnected("disconnected by user"@),
    {
        self.data_channel_open = false;
        self.status = CollabStatus::Disconnected(str_to_string("disconnected by user"));
    }
}


/// No signaling event connects the session: whatever the role, the state
/// of the data channel and the event, a drain's requested status after the
/// event is Connected only if it already was; only an opening data channel
/// (a peer event) asks for Connected. A joiner that the server pairs with a
/// host, in particular, goes on negotiating.
pub proof fn lemma_signaling_never_connects(
    role: SignalingRole,
    open: bool,
    ev: SignalingInput,
    before: Option<CollabStatusView>,
    after: Option<CollabStatusView>,
)
    requires
        after == (match signaling_status(role, open, ev) {
            Some(s) => Some(s),
            None => before,
        }),
    ensures
        after == Some(CollabStatusView::Connected) ==> before == Some(CollabStatusView::Connected),
        ev is JoinAcknowledged ==> after == Some(CollabStatusView::Negotiating),
        ev is PeerJoined ==> after == Some(CollabStatusView::Negotiating),
{
}

/// A joiner's status only becomes Connected when a data channel opens: a
/// drain of signaling events alone, started from a status other than
/// Connected, never asks for Connected.
pub proof fn lemma_signaling_drain_never_connects(
    role: SignalingRole,
    opens: Seq<bool>,
    evs: Seq<SignalingInput>,
    asked: Seq<Option<CollabStatusView>>,
)
    requires
        opens.len() == evs.len(),
        asked.len() == evs.len() + 1,
        asked[0] != Some(CollabStatusView::Connected),
        forall|i: int|
            0 <= i < evs.len() ==> #[trigger] asked[i + 1] == (match signaling_status(
                role,
                opens[i],
                evs[i],
            ) {
                Some(s) => Some(s),
                None => asked[i],
            }),
    ensures
        forall|i: int| 0 <= i < asked.len() ==> #[trigger] asked[i] != Some(CollabStatusView::Connected),
    decreases evs.len(),
{
    if evs.len() > 0 {
        let n = evs.len() - 1;
        lemma_signaling_drain_never_connects(role, opens.take(n), evs.take(n), asked.take(n + 1));
        assert forall|i: int| 0 <= i < asked.len() implies #[trigger] asked[i] != Some(
            CollabStatusView::Connected,
        ) by {
            if i <= n {
                assert(asked.take(n + 1)[i] == asked[i]);
            } else {
                assert(asked.take(n + 1)[n] == asked[n]);
                assert(asked[n + 1] == (match signaling_status(role, opens[n], evs[n]) {
                    Some(s) => Some(s),
                    None => asked[n],
                }));
                lemma_signaling_never_connects(role, opens[n], evs[n], asked[n], asked[n + 1]);
            }
        }
    }
}

} // verus!
