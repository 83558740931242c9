//! The messages peers exchange to keep their documents in sync, and how a
//! received message is applied to the local buffer.

use vstd::prelude::*;

use crate::buffer::{
    insert_bytes, remove_ranges, remote_delete_post, remote_insert_post, remove_bytes, removable, restore_post,
    DocumentBuffer,
};
use crate::collab::str_to_string;
use crate::compiler::digits;
use crate::crdt::{
    decodable, deletion_merge, encoded_len, follows, fresh_to, insertion_merge, local_delete,
    local_insert, replica_encoding,
    replica_len, replica_mirrors, LocalEdit,
};
use crate::editor::count_text;
use crate::text::{bytes_of, utf8_len};
use vstd::utf8::*;

verus! {

pub enum SyncMessage {
    Insert { insertion: cola::Insertion, text: String },
    Delete { deletion: cola::Deletion },
    /// One-shot snapshot the host sends as soon as the data channel opens.
    /// The joiner replaces its replica and content with it, so that later
    /// `Insert` / `Delete` messages integrate against a shared baseline.
    Snapshot { encoded: cola::EncodedReplica, content: String },
}

/// How a message shows in logs: its kind and, for text it carries, the
/// text's length in bytes.
pub open spec fn message_summary(m: SyncMessage) -> Seq<char> {
    match m {
        SyncMessage::Insert { text, .. } => "SyncMessage::Insert("@ + digits(
            bytes_of(text@).len(),
        ) + " chars)"@,
        SyncMessage::Delete { .. } => "SyncMessage::Delete"@,
        SyncMessage::Snapshot { content, .. } => "SyncMessage::Snapshot("@ + digits(
            bytes_of(content@).len(),
        ) + " chars)"@,
    }
}

impl SyncMessage {
    /// The log line of the message, without the CRDT payload.
    pub fn describe(&self) -> (r: String)
        ensures
            r@ == message_summary(*self),
    {
        match self {
            SyncMessage::Insert { text, .. } => {
                let mut r = str_to_string("SyncMessage::Insert(");
                r.append(count_text(utf8_len(text.as_str())).as_str());
                r.append(" chars)");
                r
            },
            SyncMessage::Delete { .. } => str_to_string("SyncMessage::Delete"),
            SyncMessage::Snapshot { content, .. } => {
                let mut r = str_to_string("SyncMessage::Snapshot(");
                r.append(count_text(utf8_len(content.as_str())).as_str());
                r.append(" chars)");
                r
            },
        }
    }
}

/// Whether the buffer's replica can merge the message: an insertion or a
/// deletion must be anchored in text from replicas it has heard of (cola
/// panics otherwise); a snapshot can always be applied.
pub open spec fn sync_applicable(b: DocumentBuffer, m: SyncMessage) -> bool {
    match m {
        SyncMessage::Insert { insertion, .. } => insertion_merge(b.replica, insertion) is Some,
        SyncMessage::Delete { deletion } => deletion_merge(b.replica, deletion) is Some,
        SyncMessage::Snapshot { .. } => true,
    }
}

/// What applying the message leaves: an insertion or deletion integrated
/// through the replica, or the snapshot restored.
pub open spec fn sync_post(pre: DocumentBuffer, post: DocumentBuffer, m: SyncMessage) -> bool {
    match m {
        SyncMessage::Insert { insertion, text } => remote_insert_post(pre, post, insertion, text@),
        SyncMessage::Delete { deletion } => remote_delete_post(pre, post, deletion),
        SyncMessage::Snapshot { encoded, content } => restore_post(pre, post, encoded, content@),
    }
}

/// Applies a received message to the buffer: an insertion or deletion is
/// integrated through the replica, a snapshot replaces replica and content.
pub fn apply_sync_message(doc_buffer: &mut DocumentBuffer, message: SyncMessage)
    requires
        old(doc_buffer).wf(),
        sync_applicable(*old(doc_buffer), message),
    ensures
        sync_post(*old(doc_buffer), *final(doc_buffer), message),
{
    match message {
        SyncMessage::Insert { insertion, text } => {
            doc_buffer.integrate_remote_insert(insertion, text.as_str());
        },
        SyncMessage::Delete { deletion } => {
            doc_buffer.integrate_remote_delete(deletion);
        },
        SyncMessage::Snapshot { encoded, content } => {
            doc_buffer.restore_snapshot(&encoded, content);
        },
    }
}

/// A joiner that applies a snapshot message made from an in-sync host's
/// snapshot and content then holds the host's content, in sync with its
/// replica, under its own replica id.
pub proof fn lemma_snapshot_seeds_joiner(
    host: DocumentBuffer,
    encoded: cola::EncodedReplica,
    joiner: DocumentBuffer,
    after: DocumentBuffer,
)
    requires
        host.in_sync(),
        encoded_len(encoded) == host.tracked_len(),
        decodable(encoded),
        restore_post(joiner, after, encoded, host.content@),
    ensures
        after.content@ == host.content@,
        after.in_sync(),
        after.id() == joiner.id(),
{
}


/// The edit a message makes at its sender, given where it was made: for an
/// insertion `at` is its offset and length, for a deletion its range.
pub open spec fn message_edit(m: SyncMessage, at: (usize, usize)) -> LocalEdit {
    match m {
        SyncMessage::Delete { .. } => LocalEdit::Delete { start: at.0, end: at.1 },
        _ => LocalEdit::Insert { offset: at.0, len: at.1 },
    }
}

/// One local edit at the sender, as the message carries it: from the bytes
/// `pre_b` and replica `pre_r` to `post_b` and `post_r`. An insertion of
/// the message's text at the character boundary `at.0`, recorded by the
/// replica there; or the deletion of the bytes `at.0..at.1`, recorded by the
/// replica as that range.
pub open spec fn leader_step(
    pre_b: Seq<u8>,
    pre_r: cola::Replica,
    post_b: Seq<u8>,
    post_r: cola::Replica,
    m: SyncMessage,
    at: (usize, usize),
) -> bool {
    match m {
        SyncMessage::Insert { insertion, text } => {
            &&& at.1 == bytes_of(text@).len()
            &&& at.0 <= pre_b.len()
            &&& is_char_boundary(pre_b, at.0 as int)
            &&& at.0 <= replica_len(pre_r)
            &&& (insertion, post_r) == local_insert(pre_r, at.0, at.1)
            &&& post_b == insert_bytes(pre_b, at.0 as int, bytes_of(text@))
        },
        SyncMessage::Delete { deletion } => {
            &&& at.0 <= at.1 <= replica_len(pre_r)
            &&& removable(pre_b, at.0 as int, at.1 as int)
            &&& (deletion, post_r) == local_delete(pre_r, at.0, at.1)
            &&& post_b == remove_bytes(pre_b, at.0 as int, at.1 as int)
        },
        SyncMessage::Snapshot { .. } => false,
    }
}

/// A run of local edits at the sender, from the bytes `b0` and replica `r0`
/// to `b1` and `r1`, one per message: `bs` and `rs` are the states between
/// them and `ats` where each edit was made.
pub open spec fn leader_run(
    b0: Seq<u8>,
    r0: cola::Replica,
    b1: Seq<u8>,
    r1: cola::Replica,
    msgs: Seq<SyncMessage>,
    bs: Seq<Seq<u8>>,
    rs: Seq<cola::Replica>,
    ats: Seq<(usize, usize)>,
) -> bool {
    &&& bs.len() == msgs.len() + 1
    &&& rs.len() == msgs.len() + 1
    &&& ats.len() == msgs.len()
    &&& bs[0] == b0
    &&& rs[0] == r0
    &&& bs.last() == b1
    &&& rs.last() == r1
    &&& forall|i: int|
        0 <= i < msgs.len() ==> #[trigger] leader_step(bs[i], rs[i], bs[i + 1], rs[i + 1], msgs[i], ats[i])
}

/// A receiving buffer applying the messages in order: `peers[i + 1]` is
/// `peers[i]` after `msgs[i]`.
pub open spec fn follower_run(peers: Seq<DocumentBuffer>, msgs: Seq<SyncMessage>) -> bool {
    &&& peers.len() == msgs.len() + 1
    &&& forall|i: int| 0 <= i < msgs.len() ==> #[trigger] peers[i].wf()
    &&& forall|i: int|
        0 <= i < msgs.len() ==> sync_post(#[trigger] peers[i], peers[i + 1], msgs[i])
}

/// A peer whose replica mirrors the sender's and whose content equals the
/// sender's, applying the message of one of the sender's edits, can merge
/// it, and then ends with the sender's content, its replica still
/// mirroring the sender's.
pub proof fn lemma_follower_step(
    pre_b: Seq<u8>,
    pre_r: cola::Replica,
    post_b: Seq<u8>,
    post_r: cola::Replica,
    m: SyncMessage,
    at: (usize, usize),
    b: DocumentBuffer,
    b1: DocumentBuffer,
)
    requires
        leader_step(pre_b, pre_r, post_b, post_r, m, at),
        b.wf(),
        b.bytes() == pre_b,
        replica_mirrors(pre_r, b.replica),
    ensures
        sync_applicable(b, m),
        sync_post(b, b1, m) ==> {
            &&& b1.bytes() == post_b
            &&& replica_mirrors(post_r, b1.replica)
        },
{
    let e = message_edit(m, at);
    assert(follows(pre_r, b.replica, seq![e]));
    assert(seq![e][0] == e);
    if sync_post(b, b1, m) {
        assert forall|rest: Seq<LocalEdit>| #[trigger] follows(post_r, b1.replica, rest) by {
            let edits = seq![e] + rest;
            assert(follows(pre_r, b.replica, edits));
            assert(edits[0] == e);
            assert(edits.drop_first() =~= rest);
        }
        match m {
            SyncMessage::Insert { insertion, text } => {
                if at.1 == 0 {
                    assert(bytes_of(text@) =~= Seq::<u8>::empty());
                    assert(post_b =~= pre_b);
                }
            },
            SyncMessage::Delete { deletion } => {
                let ranges = (deletion_merge(b.replica, deletion)->0).0;
                if at.0 == at.1 {
                    assert(post_b =~= pre_b);
                } else {
                    assert(ranges == seq![(at.0, at.1)]);
                    assert(ranges.drop_last() =~= Seq::<(usize, usize)>::empty());
                    assert(ranges.last() == (at.0, at.1));
                    let cut = remove_bytes(pre_b, at.0 as int, at.1 as int);
                    assert(remove_ranges(cut, Seq::<(usize, usize)>::empty()) == cut);
                }
            },
            SyncMessage::Snapshot { .. } => {},
        }
    }
}

/// A peer that starts with the sender's content and a replica mirroring the
/// sender's, and applies the sender's messages in order, can merge each of
/// them, and ends with the sender's content and a replica still mirroring
/// the sender's.
pub proof fn lemma_follower_keeps_pace(
    b0: Seq<u8>,
    r0: cola::Replica,
    b1: Seq<u8>,
    r1: cola::Replica,
    msgs: Seq<SyncMessage>,
    bs: Seq<Seq<u8>>,
    rs: Seq<cola::Replica>,
    ats: Seq<(usize, usize)>,
    peers: Seq<DocumentBuffer>,
)
    requires
        leader_run(b0, r0, b1, r1, msgs, bs, rs, ats),
        follower_run(peers, msgs),
        peers[0].bytes() == b0,
        replica_mirrors(r0, peers[0].replica),
    ensures
        peers.last().bytes() == b1,
        replica_mirrors(r1, peers.last().replica),
        forall|i: int| 0 <= i < msgs.len() ==> #[trigger] sync_applicable(peers[i], msgs[i]),
    decreases msgs.len(),
{
    lemma_follower_prefix(b0, r0, msgs, bs, rs, ats, peers, msgs.len() as int);
    assert forall|i: int| 0 <= i < msgs.len() implies #[trigger] sync_applicable(peers[i], msgs[i]) by {
        lemma_follower_prefix(b0, r0, msgs, bs, rs, ats, peers, i);
        assert(leader_step(bs[i], rs[i], bs[i + 1], rs[i + 1], msgs[i], ats[i]));
        lemma_follower_step(bs[i], rs[i], bs[i + 1], rs[i + 1], msgs[i], ats[i], peers[i], peers[i + 1]);
    }
}

proof fn lemma_follower_prefix(
    b0: Seq<u8>,
    r0: cola::Replica,
    msgs: Seq<SyncMessage>,
    bs: Seq<Seq<u8>>,
    rs: Seq<cola::Replica>,
    ats: Seq<(usize, usize)>,
    peers: Seq<DocumentBuffer>,
    k: int,
)
    requires
        0 <= k <= msgs.len(),
        bs.len() == msgs.len() + 1,
        rs.len() == msgs.len() + 1,
        ats.len() == msgs.len(),
        bs[0] == b0,
        rs[0] == r0,
        forall|i: int|
            0 <= i < msgs.len() ==> #[trigger] leader_step(bs[i], rs[i], bs[i + 1], rs[i + 1], msgs[i], ats[i]),
        follower_run(peers, msgs),
        peers[0].bytes() == b0,
        replica_mirrors(r0, peers[0].replica),
    ensures
        peers[k].bytes() == bs[k],
        replica_mirrors(rs[k], peers[k].replica),
    decreases k,
{
    if k > 0 {
        let i = k - 1;
        lemma_follower_prefix(b0, r0, msgs, bs, rs, ats, peers, i);
        assert(leader_step(bs[i], rs[i], bs[i + 1], rs[i + 1], msgs[i], ats[i]));
        assert(peers[i].wf());
        assert(sync_post(peers[i], peers[i + 1], msgs[i]));
        lemma_follower_step(bs[i], rs[i], bs[i + 1], rs[i + 1], msgs[i], ats[i], peers[i], peers[i + 1]);
    }
}


/// Two texts with the same UTF-8 bytes are the same text.
proof fn lemma_same_bytes_same_text(x: Seq<char>, y: Seq<char>)
    requires
        bytes_of(x) == bytes_of(y),
    ensures
        x == y,
{
    encode_utf8_decode_utf8(x);
    encode_utf8_decode_utf8(y);
}

/// An insertion made on one buffer, integrated by a peer holding the same
/// content with a replica that mirrors the buffer's (a peer restored from
/// the buffer's snapshot, for one): the peer can merge it, and then holds
/// the buffer's new content, its replica mirroring the buffer's new one.
pub proof fn lemma_remote_insert_converges(
    a: DocumentBuffer,
    a1: DocumentBuffer,
    b: DocumentBuffer,
    b1: DocumentBuffer,
    offset: usize,
    text: Seq<char>,
    ins: cola::Insertion,
)
    requires
        b.wf(),
        b.content@ == a.content@,
        replica_mirrors(a.replica, b.replica),
        offset <= a.bytes().len(),
        offset <= a.tracked_len(),
        is_char_boundary(a.bytes(), offset as int),
        bytes_of(text).len() <= usize::MAX,
        (ins, a1.replica) == local_insert(a.replica, offset, bytes_of(text).len() as usize),
        a1.bytes() == insert_bytes(a.bytes(), offset as int, bytes_of(text)),
    ensures
        insertion_merge(b.replica, ins) is Some,
        remote_insert_post(b, b1, ins, text) ==> {
            &&& b1.content@ == a1.content@
            &&& replica_mirrors(a1.replica, b1.replica)
        },
{
    let len = bytes_of(text).len() as usize;
    let e = LocalEdit::Insert { offset, len };
    assert(follows(a.replica, b.replica, seq![e]));
    assert(seq![e][0] == e);
    if remote_insert_post(b, b1, ins, text) {
        assert forall|rest: Seq<LocalEdit>| #[trigger] follows(a1.replica, b1.replica, rest) by {
            let edits = seq![e] + rest;
            assert(follows(a.replica, b.replica, edits));
            assert(edits[0] == e);
            assert(edits.drop_first() =~= rest);
        }
        if bytes_of(text).len() == 0 {
            assert(bytes_of(text) =~= Seq::<u8>::empty());
            assert(a1.bytes() =~= a.bytes());
        }
        assert(b.bytes() == a.bytes());
        assert(b1.bytes() == a1.bytes());
        lemma_same_bytes_same_text(b1.content@, a1.content@);
    }
}

/// A deletion made on one buffer, integrated by a peer holding the same
/// content with a replica that mirrors the buffer's: the peer can merge it,
/// and then holds the buffer's new content, its replica mirroring the
/// buffer's new one.
pub proof fn lemma_remote_delete_converges(
    a: DocumentBuffer,
    a1: DocumentBuffer,
    b: DocumentBuffer,
    b1: DocumentBuffer,
    start: usize,
    end: usize,
    del: cola::Deletion,
)
    requires
        b.wf(),
        b.content@ == a.content@,
        replica_mirrors(a.replica, b.replica),
        start <= end <= a.tracked_len(),
        removable(a.bytes(), start as int, end as int),
        (del, a1.replica) == local_delete(a.replica, start, end),
        a1.bytes() == remove_bytes(a.bytes(), start as int, end as int),
    ensures
        deletion_merge(b.replica, del) is Some,
        remote_delete_post(b, b1, del) ==> {
            &&& b1.content@ == a1.content@
            &&& replica_mirrors(a1.replica, b1.replica)
        },
{
    let e = LocalEdit::Delete { start, end };
    assert(follows(a.replica, b.replica, seq![e]));
    assert(seq![e][0] == e);
    if remote_delete_post(b, b1, del) {
        assert forall|rest: Seq<LocalEdit>| #[trigger] follows(a1.replica, b1.replica, rest) by {
            let edits = seq![e] + rest;
            assert(follows(a.replica, b.replica, edits));
            assert(edits[0] == e);
            assert(edits.drop_first() =~= rest);
        }
        let ranges = (deletion_merge(b.replica, del)->0).0;
        assert(b.bytes() == a.bytes());
        if start == end {
            assert(a1.bytes() =~= a.bytes());
        } else {
            assert(ranges == seq![(start, end)]);
            assert(ranges.drop_last() =~= Seq::<(usize, usize)>::empty());
            assert(ranges.last() == (start, end));
            let cut = remove_bytes(a.bytes(), start as int, end as int);
            assert(remove_ranges(cut, Seq::<(usize, usize)>::empty()) == cut);
        }
        assert(b1.bytes() == a1.bytes());
        lemma_same_bytes_same_text(b1.content@, a1.content@);
    }
}

/// The messages `apply_text_diff` returns for a change from `old_text` to
/// `new_text` (with `run` the run of edits it reports) bring a peer that
/// held `old_text`, with a replica mirroring the sender's, to `new_text`
/// when applied in order, its replica still mirroring the sender's; each
/// message can be merged. No message at all means the text did not
/// change.
pub proof fn lemma_diff_messages_converge(
    a: DocumentBuffer,
    a1: DocumentBuffer,
    old_text: Seq<char>,
    new_text: Seq<char>,
    msgs: Seq<SyncMessage>,
    bs: Seq<Seq<u8>>,
    rs: Seq<cola::Replica>,
    ats: Seq<(usize, usize)>,
    peers: Seq<DocumentBuffer>,
)
    requires
        a.content@ == old_text,
        a1.content@ == new_text,
        leader_run(a.bytes(), a.replica, a1.bytes(), a1.replica, msgs, bs, rs, ats),
        follower_run(peers, msgs),
        peers[0].content@ == old_text,
        replica_mirrors(a.replica, peers[0].replica),
    ensures
        forall|i: int| 0 <= i < msgs.len() ==> #[trigger] sync_applicable(peers[i], msgs[i]),
        peers.last().content@ == new_text,
        replica_mirrors(a1.replica, peers.last().replica),
        msgs.len() == 0 ==> old_text == new_text,
{
    lemma_follower_keeps_pace(a.bytes(), a.replica, a1.bytes(), a1.replica, msgs, bs, rs, ats, peers);
    lemma_same_bytes_same_text(peers.last().content@, new_text);
    if msgs.len() == 0 {
        lemma_same_bytes_same_text(old_text, new_text);
    }
}


/// A peer restored from a buffer's snapshot, under an id fresh to the
/// buffer's replica (for one, any other id than the buffer's, when the
/// buffer has merged no edit from elsewhere), mirrors the buffer both ways:
/// each keeps pace with the other's edits.
pub proof fn lemma_restored_peer_mirrors(
    a: DocumentBuffer,
    b0: DocumentBuffer,
    b: DocumentBuffer,
    content: Seq<char>,
)
    requires
        restore_post(b0, b, replica_encoding(a.replica), content),
        decodable(replica_encoding(a.replica)),
        fresh_to(a.replica, b0.id()),
    ensures
        replica_mirrors(a.replica, b.replica),
        replica_mirrors(b.replica, a.replica),
        b.content@ == content,
{
}

} // verus!
