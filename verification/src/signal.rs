//! The signaling protocol (JSON messages over one WebSocket per client) and
//! the relay server's room logic: a host opens a room under a short code, a
//! second peer joins it by that code, and the two exchange opaque signaling
//! payloads through the server until one of them leaves.

use vstd::prelude::*;
use vstd::utf8::is_ascii_chars;

use crate::collab::{prefixed, str_to_string};
use crate::text::{ascii_upper, str_to_uppercase, string_push, uppercase};

verus! {

#[verifier::external_type_specification]
#[verifier::external_body]
pub struct ExJsonValue(serde_json::Value);

/// Default address the server listens on and clients connect to.
pub const DEFAULT_ADDR: &'static str = "127.0.0.1:9000";

pub enum ClientMessage {
    /// Ask the server to create a new room and act as host.
    Host,
    /// Join the room with the given short code.
    Join { code: String },
    /// Forward an opaque payload to the other peer in this room.
    /// Used to relay SDP descriptions and ICE candidates.
    Signal { payload: serde_json::Value },
}

pub enum ServerMessage {
    /// Confirms host registration; clients display this code.
    RoomCreated { code: String },
    /// Sent to the host when a second peer joins.
    PeerJoined,
    /// Sent to the joining peer once the room match succeeds.
    JoinAck,
    /// Sent to the surviving peer when the other side disconnects.
    PeerLeft,
    /// Forwarded relay payload from the other peer.
    Signal { payload: serde_json::Value },
    /// Out-of-band error (bad code, malformed message, etc.).
    Error { reason: String },
}

pub enum ServerMessageView {
    RoomCreated(Seq<char>),
    PeerJoined,
    JoinAck,
    PeerLeft,
    Signal(serde_json::Value),
    Error(Seq<char>),
}

impl View for ServerMessage {
    type V = ServerMessageView;

    open spec fn view(&self) -> ServerMessageView {
        match self {
            ServerMessage::RoomCreated { code } => ServerMessageView::RoomCreated(code@),
            ServerMessage::PeerJoined => ServerMessageView::PeerJoined,
            ServerMessage::JoinAck => ServerMessageView::JoinAck,
            ServerMessage::PeerLeft => ServerMessageView::PeerLeft,
            ServerMessage::Signal { payload } => ServerMessageView::Signal(*payload),
            ServerMessage::Error { reason } => ServerMessageView::Error(reason@),
        }
    }
}

/// A room: the connection that hosts it and the one that joined it.
#[derive(Clone, Copy, PartialEq, Eq, Structural, Debug)]
pub struct Room {
    pub host: Option<u64>,
    pub peer: Option<u64>,
}

/// What a connection is in its room.
#[derive(Clone, Copy, PartialEq, Eq, Structural, Debug)]
pub enum ConnRole {
    Unset,
    Host,
    Peer,
}

/// The server's record of one client connection.
pub struct Connection {
    pub id: u64,
    pub room: Option<String>,
    pub role: ConnRole,
}

pub open spec fn room_key(c: Connection) -> Option<Seq<char>> {
    match c.room {
        Some(code) => Some(code@),
        None => None,
    }
}

/// A message for the connection `to`.
pub struct Outgoing {
    pub to: u64,
    pub message: ServerMessage,
}

pub open spec fn out_views(os: Seq<Outgoing>) -> Seq<(u64, ServerMessageView)> {
    os.map_values(|o: Outgoing| (o.to, o.message@))
}

pub open spec fn rooms_map(rs: Seq<(String, Room)>) -> Map<Seq<char>, Room>
    decreases rs.len(),
{
    if rs.len() == 0 {
        Map::empty()
    } else {
        rooms_map(rs.drop_last()).insert(rs.last().0@, rs.last().1)
    }
}

pub open spec fn distinct_codes(rs: Seq<(String, Room)>) -> bool {
    forall|i: int, j: int| 0 <= i < j < rs.len() ==> #[trigger] rs[i].0@ != #[trigger] rs[j].0@
}

proof fn lemma_rooms_map(rs: Seq<(String, Room)>)
    requires
        distinct_codes(rs),
    ensures
        forall|k: Seq<char>|
            #[trigger] rooms_map(rs).dom().contains(k) <==> exists|i: int|
                0 <= i < rs.len() && rs[i].0@ == k,
        forall|i: int| 0 <= i < rs.len() ==> #[trigger] rooms_map(rs)[rs[i].0@] == rs[i].1,
    decreases rs.len(),
{
    if rs.len() > 0 {
        let init = rs.drop_last();
        lemma_rooms_map(init);
        assert forall|k: Seq<char>| #[trigger]
            rooms_map(rs).dom().contains(k) <==> exists|i: int|
                0 <= i < rs.len() && rs[i].0@ == k by {
            if rooms_map(rs).dom().contains(k) {
                if k == rs.last().0@ {
                    assert(rs[rs.len() - 1].0@ == k);
                } else {
                    assert(rooms_map(init).dom().contains(k));
                    let i = choose|i: int| 0 <= i < init.len() && init[i].0@ == k;
                    assert(init[i] == rs[i]);
                    assert(rs[i].0@ == k);
                }
            }
            if exists|i: int| 0 <= i < rs.len() && rs[i].0@ == k {
                let i = choose|i: int| 0 <= i < rs.len() && rs[i].0@ == k;
                if i < rs.len() - 1 {
                    assert(init[i] == rs[i]);
                    assert(init[i].0@ == k);
                    assert(rooms_map(init).dom().contains(k));
                }
            }
        }
        assert forall|i: int| 0 <= i < rs.len() implies #[trigger] rooms_map(rs)[rs[i].0@]
            == rs[i].1 by {
            if i < rs.len() - 1 {
                assert(init[i] == rs[i]);
                assert(rs[i].0@ != rs[rs.len() - 1].0@);
                assert(rooms_map(init)[init[i].0@] == init[i].1);
            }
        }
    }
}

/// The room table; codes are distinct and every room has its host.
pub struct RoomTable {
    rooms: Vec<(String, Room)>,
}

impl View for RoomTable {
    type V = Map<Seq<char>, Room>;

    closed spec fn view(&self) -> Map<Seq<char>, Room> {
        rooms_map(self.rooms@)
    }
}

/// The rooms every connection of a room table may rely on.
pub open spec fn hosted(m: Map<Seq<char>, Room>) -> bool {
    forall|k: Seq<char>| #[trigger] m.dom().contains(k) ==> m[k].host is Some
}

impl RoomTable {
    #[verifier::type_invariant]
    spec fn inv(self) -> bool {
        &&& distinct_codes(self.rooms@)
        &&& forall|i: int| 0 <= i < self.rooms@.len() ==> #[trigger] self.rooms@[i].1.host is Some
    }

    pub fn new() -> (t: Self)
        ensures
            t@ == Map::<Seq<char>, Room>::empty(),
    {
        RoomTable { rooms: Vec::new() }
    }

    fn find(&self, code: &String) -> (r: Option<usize>)
        ensures
            r matches Some(i) ==> i < self.rooms@.len() && self.rooms@[i as int].0@ == code@,
            r is None ==> forall|i: int| 0 <= i < self.rooms@.len() ==> self.rooms@[i].0@ != code@,
    {
        let mut i: usize = 0;
        while i < self.rooms.len()
            invariant
                i <= self.rooms@.len(),
                forall|j: int| 0 <= j < i ==> self.rooms@[j].0@ != code@,
            decreases self.rooms@.len() - i,
        {
            if self.rooms[i].0 == *code {
                return Some(i);
            }
            i = i + 1;
        }
        None
    }

    /// Looks a room up by code.
    pub fn get(&self, code: &String) -> (r: Option<Room>)
        ensures
            r == (if self@.dom().contains(code@) {
                Some(self@[code@])
            } else {
                None
            }),
            r matches Some(room) ==> room.host is Some,
    {
        proof {
            use_type_invariant(self);
            lemma_rooms_map(self.rooms@);
        }
        match self.find(code) {
            Some(i) => Some(self.rooms[i].1),
            None => None,
        }
    }

    /// Sets the room under `code`, replacing any room there.
    pub fn put(&mut self, code: String, room: Room)
        requires
            room.host is Some,
        ensures
            final(self)@ == old(self)@.insert(code@, room),
    {
        proof {
            use_type_invariant(&*self);
            lemma_rooms_map(self.rooms@);
        }
        let found = self.find(&code);
        let mut rooms: Vec<(String, Room)> = Vec::new();
        std::mem::swap(&mut rooms, &mut self.rooms);
        let ghost before = rooms@;
        let ghost key = code@;
        match found {
            Some(i) => {
                rooms.set(i, (code, room));
            },
            None => {
                rooms.push((code, room));
            },
        }
        proof {
            assert(distinct_codes(rooms@)) by {
                assert forall|a: int, b: int| 0 <= a < b < rooms@.len() implies #[trigger] rooms@[a].0@
                    != #[trigger] rooms@[b].0@ by {
                    if a < before.len() {
                        assert(rooms@[a] == before[a] || a == found.unwrap());
                    }
                    if b < before.len() {
                        assert(rooms@[b] == before[b] || b == found.unwrap());
                    }
                }
            }
            assert forall|j: int| 0 <= j < rooms@.len() implies #[trigger] rooms@[j].1.host is Some by {
                if j < before.len() && !(found matches Some(i) && j == i) {
                    assert(rooms@[j] == before[j]);
                } else {
                    assert(rooms@[j].1 == room);
                }
            }
            lemma_rooms_map(rooms@);
            assert(rooms_map(rooms@) =~= rooms_map(before).insert(key, room)) by {
                assert forall|k: Seq<char>| #[trigger] rooms_map(rooms@).dom().contains(k) <==> rooms_map(before).insert(key, room).dom().contains(k) by {
                    if rooms_map(rooms@).dom().contains(k) {
                        let j = choose|j: int| 0 <= j < rooms@.len() && rooms@[j].0@ == k;
                        if k != key {
                            assert(before[j].0@ == k);
                        }
                    }
                    if rooms_map(before).dom().contains(k) && k != key {
                        let j = choose|j: int| 0 <= j < before.len() && before[j].0@ == k;
                        assert(rooms@[j].0@ == k);
                    }
                    if k == key {
                        let j = match found { Some(i) => i as int, None => before.len() as int };
                        assert(rooms@[j].0@ == k);
                    }
                }
                assert forall|k: Seq<char>| #[trigger] rooms_map(rooms@).dom().contains(k) implies rooms_map(rooms@)[k] == rooms_map(before).insert(key, room)[k] by {
                    let j = choose|j: int| 0 <= j < rooms@.len() && rooms@[j].0@ == k;
                    if k != key {
                        assert(before[j] == rooms@[j]);
                    }
                }
            }
        }
        self.rooms = rooms;
    }

    /// Removes the room under `code`, if any.
    pub fn remove(&mut self, code: &String)
        ensures
            final(self)@ == old(self)@.remove(code@),
    {
        proof {
            use_type_invariant(&*self);
            lemma_rooms_map(self.rooms@);
        }
        let found = self.find(code);
        match found {
            Some(i) => {
                let mut rooms: Vec<(String, Room)> = Vec::new();
                std::mem::swap(&mut rooms, &mut self.rooms);
                let ghost before = rooms@;
                let _ = rooms.remove(i);
                proof {
                    assert(forall|j: int| 0 <= j < i ==> rooms@[j] == before[j]);
                    assert(forall|j: int| i <= j < rooms@.len() ==> rooms@[j] == before[j + 1]);
                    assert(distinct_codes(rooms@)) by {
                        assert forall|a: int, b: int| 0 <= a < b < rooms@.len() implies #[trigger] rooms@[a].0@
                            != #[trigger] rooms@[b].0@ by {
                            let a1 = if a < i { a } else { a + 1 };
                            let b1 = if b < i { b } else { b + 1 };
                            assert(rooms@[a] == before[a1]);
                            assert(rooms@[b] == before[b1]);
                        }
                    }
                    assert forall|j: int| 0 <= j < rooms@.len() implies #[trigger] rooms@[j].1.host is Some by {
                        let j1 = if j < i { j } else { j + 1 };
                        assert(rooms@[j] == before[j1]);
                    }
                    lemma_rooms_map(rooms@);
                    assert(rooms_map(rooms@) =~= rooms_map(before).remove(code@)) by {
                        assert forall|k: Seq<char>| #[trigger] rooms_map(rooms@).dom().contains(k) <==> rooms_map(before).remove(code@).dom().contains(k) by {
                            if rooms_map(rooms@).dom().contains(k) {
                                let j = choose|j: int| 0 <= j < rooms@.len() && rooms@[j].0@ == k;
                                let j1 = if j < i { j } else { j + 1 };
                                assert(before[j1].0@ == k);
                            }
                            if rooms_map(before).dom().contains(k) && k != code@ {
                                let j = choose|j: int| 0 <= j < before.len() && before[j].0@ == k;
                                assert(j != i);
                                let j2 = if j < i { j } else { j - 1 };
                                assert(rooms@[j2].0@ == k);
                            }
                        }
                        assert forall|k: Seq<char>| #[trigger] rooms_map(rooms@).dom().contains(k) implies rooms_map(rooms@)[k] == rooms_map(before).remove(code@)[k] by {
                            let j = choose|j: int| 0 <= j < rooms@.len() && rooms@[j].0@ == k;
                            let j1 = if j < i { j } else { j + 1 };
                            assert(before[j1] == rooms@[j]);
                        }
                    }
                }
                self.rooms = rooms;
            },
            None => {
                proof {
                    assert(self@ =~= self@.remove(code@));
                }
            },
        }
    }
}

/// The uppercase hexadecimal digit of `n` (0 to 15).
pub open spec fn hex_digit(n: int) -> char {
    if n < 10 {
        (48 + n) as char
    } else {
        (55 + n) as char
    }
}

/// A byte as two uppercase hexadecimal digits (`{:02X}`).
pub open spec fn byte_hex(b: u8) -> Seq<char> {
    seq![hex_digit((b / 16) as int), hex_digit((b % 16) as int)]
}

/// The room code for three bytes: six uppercase hexadecimal digits.
pub open spec fn code_of(a: u8, b: u8, c: u8) -> Seq<char> {
    byte_hex(a) + byte_hex(b) + byte_hex(c)
}

fn hex_char(n: u8) -> (c: char)
    requires
        n < 16,
    ensures
        c == hex_digit(n as int),
{
    if n < 10 {
        (48 + n) as char
    } else {
        (55 + n) as char
    }
}

/// The room code for three bytes, as the server displays it.
pub fn code_from_bytes(a: u8, b: u8, c: u8) -> (code: String)
    ensures
        code@ == code_of(a, b, c),
{
    let mut code = String::new();
    string_push(&mut code, hex_char(a / 16));
    string_push(&mut code, hex_char(a % 16));
    string_push(&mut code, hex_char(b / 16));
    string_push(&mut code, hex_char(b % 16));
    string_push(&mut code, hex_char(c / 16));
    string_push(&mut code, hex_char(c % 16));
    assert(code@ =~= code_of(a, b, c));
    code
}

/// A fresh room code: six uppercase hexadecimal digits from random bytes.
pub fn generate_code() -> (code: String)
    ensures
        exists|a: u8, b: u8, c: u8| code@ == code_of(a, b, c),
{
    let bytes = crate::ids::uuid_v4_bytes();
    code_from_bytes(bytes[0], bytes[1], bytes[2])
}

/// The error the server sends back for a message it cannot parse.
pub fn malformed_message(detail: &str) -> (m: ServerMessage)
    ensures
        m@ == ServerMessageView::Error("malformed message: "@ + detail@),
{
    ServerMessage::Error { reason: prefixed("malformed message: ", detail) }
}

fn room_error(code: &str, tail: &str) -> (r: String)
    ensures
        r@ == "room "@ + code@ + tail@,
{
    let mut r = prefixed("room ", code);
    r.append(tail);
    r
}

/// What hosting leaves: the connection hosts a room under a fresh code
/// (six uppercase hexadecimal digits), the table has that room with this
/// host and no peer, and the host is told the code.
pub open spec fn host_post(
    pre: Map<Seq<char>, Room>,
    post: Map<Seq<char>, Room>,
    c0: Connection,
    c1: Connection,
    outs: Seq<(u64, ServerMessageView)>,
) -> bool {
    let code = room_key(c1)->0;
    &&& c1.id == c0.id
    &&& c1.role == ConnRole::Host
    &&& room_key(c1) is Some
    &&& exists|a: u8, b: u8, c: u8| code == code_of(a, b, c)
    &&& post == pre.insert(code, Room { host: Some(c0.id), peer: None })
    &&& outs == seq![(c0.id, ServerMessageView::RoomCreated(code))]
}

/// What joining with the typed `code` leaves. The code is taken in
/// uppercase (on ASCII text: `a`..`z` made `A`..`Z`). A room under it with
/// no peer takes the connection as its peer, which is acknowledged and
/// announced to the host; otherwise nothing changes and the connection is
/// told the room is full or not found.
pub open spec fn join_post(
    pre: Map<Seq<char>, Room>,
    post: Map<Seq<char>, Room>,
    c0: Connection,
    c1: Connection,
    code: Seq<char>,
    outs: Seq<(u64, ServerMessageView)>,
) -> bool {
    let key = uppercase(code);
    &&& c1.id == c0.id
    &&& is_ascii_chars(code) ==> key == code.map_values(|c: char| ascii_upper(c))
    &&& if pre.dom().contains(key) && pre[key].peer is None {
        let host = pre[key].host->0;
        &&& pre[key].host is Some
        &&& post == pre.insert(key, Room { host: Some(host), peer: Some(c0.id) })
        &&& room_key(c1) == Some(key)
        &&& c1.role == ConnRole::Peer
        &&& outs == seq![(c0.id, ServerMessageView::JoinAck), (host, ServerMessageView::PeerJoined)]
    } else {
        &&& post == pre
        &&& room_key(c1) == room_key(c0)
        &&& c1.role == c0.role
        &&& outs == seq![
            (
                c0.id,
                ServerMessageView::Error(
                    "room "@ + key + (if pre.dom().contains(key) {
                        " already has two peers"@
                    } else {
                        " not found"@
                    }),
                ),
            ),
        ]
    }
}

/// Where a relayed payload goes: to the other party of the sender's room
/// (host to peer, peer to host); nowhere when the room is gone or has no
/// other party; back to the sender as an error when it has no room.
pub open spec fn relay_outs(
    m: Map<Seq<char>, Room>,
    key: Option<Seq<char>>,
    role: ConnRole,
    id: u64,
    payload: serde_json::Value,
) -> Seq<(u64, ServerMessageView)> {
    match key {
        None => seq![(id, ServerMessageView::Error("must Host or Join before signaling"@))],
        Some(k) => if !m.dom().contains(k) {
            seq![]
        } else {
            let target = match role {
                ConnRole::Host => m[k].peer,
                ConnRole::Peer => m[k].host,
                ConnRole::Unset => None,
            };
            match target {
                Some(t) => seq![(t, ServerMessageView::Signal(payload))],
                None => seq![],
            }
        },
    }
}

/// What a connection leaving does: when it hosted its room, the peer (if
/// any) is told and the room closes; when it joined, the host is told and
/// the room is open to a new peer; otherwise nothing happens.
pub open spec fn leave_post(
    pre: Map<Seq<char>, Room>,
    post: Map<Seq<char>, Room>,
    conn: Connection,
    outs: Seq<(u64, ServerMessageView)>,
) -> bool {
    match room_key(conn) {
        Some(key) => if pre.dom().contains(key) {
            let room = pre[key];
            match conn.role {
                ConnRole::Host => {
                    &&& post == pre.remove(key)
                    &&& outs == match room.peer {
                        Some(p) => seq![(p, ServerMessageView::PeerLeft)],
                        None => seq![],
                    }
                },
                ConnRole::Peer => {
                    &&& post == pre.insert(
                        key,
                        Room { host: room.host, peer: None },
                    )
                    &&& outs == match room.host {
                        Some(h) => seq![(h, ServerMessageView::PeerLeft)],
                        None => seq![],
                    }
                },
                ConnRole::Unset => post == pre && outs.len() == 0,
            }
        } else {
            post == pre && outs.len() == 0
        },
        None => post == pre && outs.len() == 0,
    }
}

impl Connection {
    /// A connection that has neither hosted nor joined a room.
    pub fn new(id: u64) -> (c: Self)
        ensures
            c.id == id,
            c.room is None,
            c.role == ConnRole::Unset,
    {
        Connection { id, room: None, role: ConnRole::Unset }
    }
}

impl RoomTable {
    /// `Host`: opens a room under a fresh code with this connection as its
    /// host (replacing any room under that code), and answers with the
    /// code.
    pub fn host_room(&mut self, conn: &mut Connection) -> (outs: Vec<Outgoing>)
        ensures
            host_post(old(self)@, final(self)@, *old(conn), *final(conn), out_views(outs@)),
    {
        let code = generate_code();
        self.put(code.clone(), Room { host: Some(conn.id), peer: None });
        conn.room = Some(code.clone());
        conn.role = ConnRole::Host;
        let mut outs: Vec<Outgoing> = Vec::new();
        outs.push(Outgoing { to: conn.id, message: ServerMessage::RoomCreated { code } });
        assert(out_views(outs@) =~= seq![
            (conn.id, ServerMessageView::RoomCreated(room_key(*conn)->0)),
        ]);
        outs
    }

    /// `Join`: the code is taken in uppercase; a room under it that has a
    /// host and no peer takes this connection as its peer, which is
    /// acknowledged and announced to the host. Otherwise the connection is
    /// told that the room is full or not found.
    pub fn join_room(&mut self, conn: &mut Connection, code: &str) -> (outs: Vec<Outgoing>)
        ensures
            join_post(old(self)@, final(self)@, *old(conn), *final(conn), code@, out_views(outs@)),
    {
        let code_norm = str_to_uppercase(code);
        let mut outs: Vec<Outgoing> = Vec::new();
        match self.get(&code_norm) {
            Some(room) => {
                if room.host.is_some() && room.peer.is_none() {
                    self.put(code_norm.clone(), Room { host: room.host, peer: Some(conn.id) });
                    outs.push(Outgoing { to: conn.id, message: ServerMessage::JoinAck });
                    match room.host {
                        Some(host) => {
                            outs.push(Outgoing { to: host, message: ServerMessage::PeerJoined });
                        },
                        None => {},
                    }
                    conn.room = Some(code_norm);
                    conn.role = ConnRole::Peer;
                } else {
                    let reason = room_error(code_norm.as_str(), " already has two peers");
                    outs.push(Outgoing { to: conn.id, message: ServerMessage::Error { reason } });
                }
            },
            None => {
                let reason = room_error(code_norm.as_str(), " not found");
                outs.push(Outgoing { to: conn.id, message: ServerMessage::Error { reason } });
            },
        }
        proof {
            let key = uppercase(code@);
            if old(self)@.dom().contains(key) && old(self)@[key].peer is None {
                assert(out_views(outs@) =~= seq![
                    (old(conn).id, ServerMessageView::JoinAck),
                    (old(self)@[key].host->0, ServerMessageView::PeerJoined),
                ]);
            } else {
                assert(out_views(outs@) =~= seq![
                    (
                        old(conn).id,
                        ServerMessageView::Error(
                            "room "@ + key + (if old(self)@.dom().contains(key) {
                                " already has two peers"@
                            } else {
                                " not found"@
                            }),
                        ),
                    ),
                ]);
            }
        }
        outs
    }

    /// `Signal`: forwards the payload to the other party of the
    /// connection's room (host to peer, peer to host). A connection that
    /// has not hosted or joined is told so; a room that is gone, or has no
    /// other party yet, gets nothing.
    pub fn relay_signal(&self, conn: &Connection, payload: serde_json::Value) -> (outs: Vec<
        Outgoing,
    >)
        ensures
            out_views(outs@) == relay_outs(self@, room_key(*conn), conn.role, conn.id, payload),
    {
        let mut outs: Vec<Outgoing> = Vec::new();
        match &conn.room {
            None => {
                let reason = str_to_string("must Host or Join before signaling");
                outs.push(Outgoing { to: conn.id, message: ServerMessage::Error { reason } });
            },
            Some(code) => {
                match self.get(code) {
                    None => {},
                    Some(room) => {
                        let target = match conn.role {
                            ConnRole::Host => room.peer,
                            ConnRole::Peer => room.host,
                            ConnRole::Unset => None,
                        };
                        match target {
                            Some(t) => {
                                outs.push(
                                    Outgoing { to: t, message: ServerMessage::Signal { payload } },
                                );
                            },
                            None => {},
                        }
                    },
                }
            },
        }
        assert(out_views(outs@) =~= match room_key(*conn) {
            None => seq![
                (conn.id, ServerMessageView::Error("must Host or Join before signaling"@)),
            ],
            Some(key) => if !self@.dom().contains(key) {
                seq![]
            } else {
                let target = match conn.role {
                    ConnRole::Host => self@[key].peer,
                    ConnRole::Peer => self@[key].host,
                    ConnRole::Unset => None,
                };
                match target {
                    Some(t) => seq![(t, ServerMessageView::Signal(payload))],
                    None => seq![],
                }
            },
        });
        outs
    }

    /// The connection has gone: when it hosted its room, the peer (if any)
    /// is told and the room closes; when it joined, the host is told and
    /// the room is open to a new peer.
    pub fn leave(&mut self, conn: &Connection) -> (outs: Vec<Outgoing>)
        ensures
            leave_post(old(self)@, final(self)@, *conn, out_views(outs@)),
    {
        let mut outs: Vec<Outgoing> = Vec::new();
        match &conn.room {
            None => {},
            Some(code) => {
                match self.get(code) {
                    None => {},
                    Some(room) => {
                        match conn.role {
                            ConnRole::Host => {
                                match room.peer {
                                    Some(p) => {
                                        outs.push(
                                            Outgoing { to: p, message: ServerMessage::PeerLeft },
                                        );
                                    },
                                    None => {},
                                }
                                self.remove(code);
                            },
                            ConnRole::Peer => {
                                match room.host {
                                    Some(h) => {
                                        outs.push(
                                            Outgoing { to: h, message: ServerMessage::PeerLeft },
                                        );
                                    },
                                    None => {},
                                }
                                self.put(code.clone(), Room { host: room.host, peer: None });
                            },
                            ConnRole::Unset => {},
                        }
                    },
                }
            },
        }
        proof {
            match room_key(*conn) {
                Some(key) => {
                    if old(self)@.dom().contains(key) {
                        let room = old(self)@[key];
                        match conn.role {
                            ConnRole::Host => {
                                assert(out_views(outs@) =~= match room.peer {
                                    Some(p) => seq![(p, ServerMessageView::PeerLeft)],
                                    None => seq![],
                                });
                            },
                            ConnRole::Peer => {
                                assert(out_views(outs@) =~= match room.host {
                                    Some(h) => seq![(h, ServerMessageView::PeerLeft)],
                                    None => seq![],
                                });
                            },
                            ConnRole::Unset => {},
                        }
                    }
                },
                None => {},
            }
        }
        outs
    }

    /// Handles one parsed client message of a connection.
    pub fn handle_client_message(&mut self, conn: &mut Connection, msg: ClientMessage) -> (outs:
        Vec<Outgoing>)
        ensures
            final(conn).id == old(conn).id,
            match msg {
                ClientMessage::Host => host_post(
                    old(self)@,
                    final(self)@,
                    *old(conn),
                    *final(conn),
                    out_views(outs@),
                ),
                ClientMessage::Join { code } => join_post(
                    old(self)@,
                    final(self)@,
                    *old(conn),
                    *final(conn),
                    code@,
                    out_views(outs@),
                ),
                ClientMessage::Signal { payload } => {
                    &&& final(self)@ == old(self)@
                    &&& room_key(*final(conn)) == room_key(*old(conn))
                    &&& final(conn).role == old(conn).role
                    &&& out_views(outs@) == relay_outs(
                        old(self)@,
                        room_key(*old(conn)),
                        old(conn).role,
                        old(conn).id,
                        payload,
                    )
                },
            },
    {
        match msg {
            ClientMessage::Host => self.host_room(conn),
            ClientMessage::Join { code } => self.join_room(conn, code.as_str()),
            ClientMessage::Signal { payload } => self.relay_signal(conn, payload),
        }
    }
}

/// A connection hosts a room and another joins it by its code, typed in
/// any mix of upper and lower case: the join succeeds, host and peer are
/// told, and from then on each one's relayed payloads reach the other.
pub proof fn lemma_host_join_relay(
    t0: Map<Seq<char>, Room>,
    t1: Map<Seq<char>, Room>,
    t2: Map<Seq<char>, Room>,
    h0: Connection,
    h1: Connection,
    p0: Connection,
    p1: Connection,
    typed: Seq<char>,
    host_outs: Seq<(u64, ServerMessageView)>,
    join_outs: Seq<(u64, ServerMessageView)>,
    payload: serde_json::Value,
)
    requires
        host_post(t0, t1, h0, h1, host_outs),
        join_post(t1, t2, p0, p1, typed, join_outs),
        is_ascii_chars(typed),
        typed.map_values(|c: char| ascii_upper(c)) == room_key(h1)->0,
    ensures
        room_key(p1) == room_key(h1),
        p1.role == ConnRole::Peer,
        join_outs == seq![(p0.id, ServerMessageView::JoinAck), (h0.id, ServerMessageView::PeerJoined)],
        relay_outs(t2, room_key(p1), p1.role, p1.id, payload) == seq![
            (h1.id, ServerMessageView::Signal(payload)),
        ],
        relay_outs(t2, room_key(h1), h1.role, h1.id, payload) == seq![
            (p1.id, ServerMessageView::Signal(payload)),
        ],
{
}

/// After a peer that joined a room leaves, the host is told, the room
/// stays with its host, and the next connection that asks for the room by
/// its code gets in.
pub proof fn lemma_peer_leave_reopens(
    t1: Map<Seq<char>, Room>,
    t2: Map<Seq<char>, Room>,
    t3: Map<Seq<char>, Room>,
    t4: Map<Seq<char>, Room>,
    p0: Connection,
    p1: Connection,
    q0: Connection,
    q1: Connection,
    code: Seq<char>,
    join_outs: Seq<(u64, ServerMessageView)>,
    leave_outs: Seq<(u64, ServerMessageView)>,
    rejoin_outs: Seq<(u64, ServerMessageView)>,
)
    requires
        t1.dom().contains(uppercase(code)),
        t1[uppercase(code)].peer is None,
        join_post(t1, t2, p0, p1, code, join_outs),
        leave_post(t2, t3, p1, leave_outs),
        join_post(t3, t4, q0, q1, code, rejoin_outs),
    ensures
        leave_outs == seq![(t1[uppercase(code)].host->0, ServerMessageView::PeerLeft)],
        t3 == t1,
        room_key(q1) == Some(uppercase(code)),
        q1.role == ConnRole::Peer,
        rejoin_outs == seq![
            (q0.id, ServerMessageView::JoinAck),
            (t1[uppercase(code)].host->0, ServerMessageView::PeerJoined),
        ],
{
    let key = uppercase(code);
    assert(t3 =~= t1);
}

/// After the host of a room leaves, its peer (if any) is told, and the
/// code no longer leads to a room.
pub proof fn lemma_host_leave_closes(
    t0: Map<Seq<char>, Room>,
    t1: Map<Seq<char>, Room>,
    h: Connection,
    q0: Connection,
    q1: Connection,
    t2: Map<Seq<char>, Room>,
    code: Seq<char>,
    leave_outs: Seq<(u64, ServerMessageView)>,
    join_outs: Seq<(u64, ServerMessageView)>,
)
    requires
        h.role == ConnRole::Host,
        room_key(h) == Some(uppercase(code)),
        t0.dom().contains(uppercase(code)),
        leave_post(t0, t1, h, leave_outs),
        join_post(t1, t2, q0, q1, code, join_outs),
    ensures
        leave_outs == match t0[uppercase(code)].peer {
            Some(p) => seq![(p, ServerMessageView::PeerLeft)],
            None => seq![],
        },
        !t1.dom().contains(uppercase(code)),
        t2 == t1,
        join_outs == seq![
            (q0.id, ServerMessageView::Error("room "@ + uppercase(code) + " not found"@)),
        ],
{
}

} // verus!
