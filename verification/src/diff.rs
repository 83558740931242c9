//! Turning a local text change into CRDT edits: the character diff between
//! the old and the new text is replayed on the document buffer at byte
//! offsets, and every edit that lands becomes an outbound sync message.

use vstd::prelude::*;
use vstd::utf8::*;

use crate::buffer::{insert_bytes, remove_bytes, removable, DocumentBuffer};
use crate::crdt::{insertion_len, local_delete, local_insert, others_unchanged};
use crate::network::{leader_run, leader_step, SyncMessage};
use crate::text::{bytes_of, lemma_boundary_at_prefix, lemma_encode_concat, utf8_len};

verus! {

broadcast use group_utf8_lib;

/// The role of one piece of a diff.
#[derive(Clone, Copy, PartialEq, Eq, Structural, Debug)]
pub enum ChangeKind {
    Equal,
    Delete,
    Insert,
}

/// The diff as kinds and character sequences.
pub open spec fn change_views(cs: Seq<(ChangeKind, String)>) -> Seq<(ChangeKind, Seq<char>)> {
    cs.map_values(|c: (ChangeKind, String)| (c.0, c.1@))
}

/// The character diff the diff engine computes between two texts.
pub uninterp spec fn char_diff(old: Seq<char>, new: Seq<char>) -> Seq<(ChangeKind, Seq<char>)>;

/// The concatenation of the pieces whose kind is not `skip`: with `skip`
/// = `Insert` this is the old text, with `skip` = `Delete` the new one.
pub open spec fn side(cs: Seq<(ChangeKind, Seq<char>)>, skip: ChangeKind) -> Seq<char>
    decreases cs.len(),
{
    if cs.len() == 0 {
        Seq::empty()
    } else {
        side(cs.drop_last(), skip) + (if cs.last().0 == skip {
            Seq::empty()
        } else {
            cs.last().1
        })
    }
}

/// The diff engine's character diff of `old` and `new`
/// (`similar::TextDiff::from_chars` flattened by `iter_all_changes`). Its
/// equal and deleted pieces spell the old text, its equal and inserted
/// pieces the new one. Two equal texts give equal pieces only (the default
/// Myers diff emits the whole common prefix as equal and stops there).
#[verifier::external_body]
fn char_changes(old: &str, new: &str) -> (r: Vec<(ChangeKind, String)>)
    ensures
        change_views(r@) == char_diff(old@, new@),
        side(change_views(r@), ChangeKind::Insert) == old@,
        side(change_views(r@), ChangeKind::Delete) == new@,
        old@ == new@ ==> forall|i: int| 0 <= i < r@.len() ==> #[trigger] r@[i].0 == ChangeKind::Equal,
{
    let diff = similar::TextDiff::from_chars(old, new);
    diff.iter_all_changes().map(|change| {
        let kind = match change.tag() {
            similar::ChangeTag::Equal => ChangeKind::Equal,
            similar::ChangeTag::Delete => ChangeKind::Delete,
            similar::ChangeTag::Insert => ChangeKind::Insert,
        };
        (kind, change.value().to_string())
    }).collect()
}

/// One step of replaying a diff on the bytes `b`, with the replica
/// tracking `lim` bytes and the cursor at `off`: the new bytes, the new
/// tracked length, the new cursor, and the edit made, if any. A deletion or
/// insertion that would not fall on character boundaries within the bytes,
/// or would reach past the tracked document, is not made (an insertion
/// still moves the cursor past its text).
pub open spec fn replay_step(b: Seq<u8>, lim: int, off: int, c: (ChangeKind, Seq<char>)) -> (
    Seq<u8>,
    int,
    int,
    Option<(ChangeKind, Seq<char>)>,
) {
    let l = bytes_of(c.1).len() as int;
    match c.0 {
        ChangeKind::Equal => (b, lim, off + l, None),
        ChangeKind::Delete => if removable(b, off, off + l) && off + l <= lim {
            (remove_bytes(b, off, off + l), lim - l, off, Some((ChangeKind::Delete, Seq::empty())))
        } else {
            (b, lim, off, None)
        },
        ChangeKind::Insert => if 0 <= off <= b.len() && is_char_boundary(b, off) && off <= lim {
            (insert_bytes(b, off, bytes_of(c.1)), lim + l, off + l, Some((ChangeKind::Insert, c.1)))
        } else {
            (b, lim, off + l, None)
        },
    }
}

/// Replaying a diff on the bytes `b`, with the replica tracking `lim`
/// bytes, from the cursor `off`: the final bytes and the edits made, in
/// order.
pub open spec fn replay(b: Seq<u8>, lim: int, off: int, cs: Seq<(ChangeKind, Seq<char>)>) -> (
    Seq<u8>,
    Seq<(ChangeKind, Seq<char>)>,
)
    decreases cs.len(),
{
    if cs.len() == 0 {
        (b, Seq::empty())
    } else {
        let (b1, lim1, off1, e) = replay_step(b, lim, off, cs[0]);
        let rest = replay(b1, lim1, off1, cs.drop_first());
        (
            rest.0,
            match e {
                Some(x) => seq![x] + rest.1,
                None => rest.1,
            },
        )
    }
}

/// The edit a message carries: an insertion with its text, a deletion, or
/// (for a snapshot) the whole content.
pub open spec fn msg_shape(m: SyncMessage) -> (ChangeKind, Seq<char>) {
    match m {
        SyncMessage::Insert { text, .. } => (ChangeKind::Insert, text@),
        SyncMessage::Delete { .. } => (ChangeKind::Delete, Seq::empty()),
        SyncMessage::Snapshot { content, .. } => (ChangeKind::Equal, content@),
    }
}

pub open spec fn msg_shapes(ms: Seq<SyncMessage>) -> Seq<(ChangeKind, Seq<char>)> {
    ms.map_values(|m: SyncMessage| msg_shape(m))
}

/// Every insertion message records exactly the byte length of its text.
pub open spec fn insertions_measured(ms: Seq<SyncMessage>) -> bool {
    forall|i: int|
        0 <= i < ms.len() ==> (#[trigger] ms[i] matches SyncMessage::Insert { insertion, text }
            ==> insertion_len(insertion) == bytes_of(text@).len())
}

proof fn lemma_side_first(cs: Seq<(ChangeKind, Seq<char>)>, skip: ChangeKind)
    requires
        cs.len() > 0,
    ensures
        side(cs, skip) == (if cs[0].0 == skip {
            Seq::empty()
        } else {
            cs[0].1
        }) + side(cs.drop_first(), skip),
    decreases cs.len(),
{
    if cs.len() == 1 {
        assert(cs.drop_first() =~= Seq::<(ChangeKind, Seq<char>)>::empty());
        assert(cs.drop_last() =~= Seq::<(ChangeKind, Seq<char>)>::empty());
        assert(side(cs, skip) =~= (if cs[0].0 == skip {
            Seq::empty()
        } else {
            cs[0].1
        }) + side(cs.drop_first(), skip));
    } else {
        lemma_side_first(cs.drop_last(), skip);
        assert(cs.drop_last().drop_first() =~= cs.drop_first().drop_last());
        assert(cs.drop_first().last() == cs.last());
        assert(cs.drop_last()[0] == cs[0]);
        assert(side(cs, skip) =~= (if cs[0].0 == skip {
            Seq::empty()
        } else {
            cs[0].1
        }) + side(cs.drop_first(), skip));
    }
}

proof fn lemma_side_split(cs: Seq<(ChangeKind, Seq<char>)>, skip: ChangeKind, k: int)
    requires
        0 <= k <= cs.len(),
    ensures
        side(cs, skip) == side(cs.take(k), skip) + side(cs.skip(k), skip),
    decreases cs.len() - k,
{
    if k == cs.len() {
        assert(cs.take(k) =~= cs);
        assert(cs.skip(k) =~= Seq::<(ChangeKind, Seq<char>)>::empty());
        assert(side(cs, skip) + Seq::<char>::empty() =~= side(cs, skip));
    } else {
        lemma_side_split(cs, skip, k + 1);
        assert(cs.take(k + 1).drop_last() =~= cs.take(k));
        assert(cs.take(k + 1).last() == cs[k]);
        lemma_side_first(cs.skip(k), skip);
        assert(cs.skip(k).drop_first() =~= cs.skip(k + 1));
        assert(cs.skip(k)[0] == cs[k]);
        let c = if cs[k].0 == skip {
            Seq::<char>::empty()
        } else {
            cs[k].1
        };
        assert(side(cs.take(k + 1), skip) == side(cs.take(k), skip) + c);
        assert(side(cs.skip(k), skip) == c + side(cs.skip(k + 1), skip));
        assert(side(cs.take(k), skip) + c + side(cs.skip(k + 1), skip) =~= side(cs.take(k), skip)
            + (c + side(cs.skip(k + 1), skip)));
    }
}

proof fn lemma_side_take_next(cs: Seq<(ChangeKind, Seq<char>)>, skip: ChangeKind, k: int)
    requires
        0 <= k < cs.len(),
    ensures
        side(cs.take(k + 1), skip) == side(cs.take(k), skip) + (if cs[k].0 == skip {
            Seq::empty()
        } else {
            cs[k].1
        }),
{
    assert(cs.take(k + 1).drop_last() =~= cs.take(k));
    assert(cs.take(k + 1).last() == cs[k]);
}

proof fn lemma_replay_unfold(
    b: Seq<u8>,
    lim: int,
    off: int,
    cs: Seq<(ChangeKind, Seq<char>)>,
    k: int,
)
    requires
        0 <= k < cs.len(),
    ensures
        ({
            let (b1, lim1, off1, e) = replay_step(b, lim, off, cs[k]);
            let rest = replay(b1, lim1, off1, cs.skip(k + 1));
            replay(b, lim, off, cs.skip(k)) == (
                rest.0,
                match e {
                    Some(x) => seq![x] + rest.1,
                    None => rest.1,
                },
            )
        }),
{
    assert(cs.skip(k).drop_first() =~= cs.skip(k + 1));
    assert(cs.skip(k)[0] == cs[k]);
}

/// A run of edits extended by one more edit is a run up to the new state.
proof fn lemma_run_extend(
    b0: Seq<u8>,
    r0: cola::Replica,
    pre_b: Seq<u8>,
    pre_r: cola::Replica,
    post_b: Seq<u8>,
    post_r: cola::Replica,
    msgs: Seq<SyncMessage>,
    msgs1: Seq<SyncMessage>,
    bs: Seq<Seq<u8>>,
    rs: Seq<cola::Replica>,
    ats: Seq<(usize, usize)>,
    at: (usize, usize),
)
    requires
        leader_run(b0, r0, pre_b, pre_r, msgs, bs, rs, ats),
        msgs1.len() == msgs.len() + 1,
        msgs1.drop_last() == msgs,
        leader_step(pre_b, pre_r, post_b, post_r, msgs1.last(), at),
    ensures
        leader_run(b0, r0, post_b, post_r, msgs1, bs.push(post_b), rs.push(post_r), ats.push(at)),
{
    let bs1 = bs.push(post_b);
    let rs1 = rs.push(post_r);
    let ats1 = ats.push(at);
    assert forall|i: int| 0 <= i < msgs1.len() implies #[trigger] leader_step(
        bs1[i],
        rs1[i],
        bs1[i + 1],
        rs1[i + 1],
        msgs1[i],
        ats1[i],
    ) by {
        if i < msgs.len() {
            assert(msgs1[i] == msgs[i]);
            assert(leader_step(bs[i], rs[i], bs[i + 1], rs[i + 1], msgs[i], ats[i]));
        }
    }
}

/// Applies the change from `old_text` to `new_text` to the buffer and
/// returns the sync messages for the edits made, in order: the replay of
/// the character diff at byte offsets, where an edit reaching past the
/// tracked document is not made. When the replica covers the content and
/// the buffer held `old_text`, it ends up holding `new_text`; equal texts
/// give no message. Each message is one of the buffer's own edits, in the
/// order made: how the bytes and the replica went from the old buffer to
/// the new one is a `leader_run` over the messages.
pub fn apply_text_diff(doc_buffer: &mut DocumentBuffer, old_text: &str, new_text: &str) -> (msgs:
    Vec<SyncMessage>)
    requires
        old(doc_buffer).wf(),
    ensures
        final(doc_buffer).wf(),
        final(doc_buffer).id() == old(doc_buffer).id(),
        others_unchanged(old(doc_buffer).replica, final(doc_buffer).replica),
        old_text@ == new_text@ ==> msgs@.len() == 0,
        old(doc_buffer).in_sync() ==> final(doc_buffer).in_sync(),
        old(doc_buffer).covers() ==> final(doc_buffer).covers(),
        replay(
            old(doc_buffer).bytes(),
            old(doc_buffer).tracked_len() as int,
            0,
            char_diff(old_text@, new_text@),
        ) == (final(doc_buffer).bytes(), msg_shapes(msgs@)),
        old(doc_buffer).covers() && old(doc_buffer).content@ == old_text@
            ==> final(doc_buffer).content@ == new_text@,
        insertions_measured(msgs@),
        exists|bs: Seq<Seq<u8>>, rs: Seq<cola::Replica>, ats: Seq<(usize, usize)>|
            #[trigger] leader_run(
                old(doc_buffer).bytes(),
                old(doc_buffer).replica,
                final(doc_buffer).bytes(),
                final(doc_buffer).replica,
                msgs@,
                bs,
                rs,
                ats,
            ),
{
    let changes = char_changes(old_text, new_text);
    let ghost cs = change_views(changes@);
    let ghost start = *doc_buffer;
    let ghost law = start.covers() && start.content@ == old_text@;
    let new_len = utf8_len(new_text);
    let mut msgs: Vec<SyncMessage> = Vec::new();
    let mut offset: usize = 0;
    let mut i: usize = 0;
    let ghost mut tb: Seq<Seq<u8>> = seq![start.bytes()];
    let ghost mut tr: Seq<cola::Replica> = seq![start.replica];
    let ghost mut tat: Seq<(usize, usize)> = Seq::empty();
    proof {
        assert(cs.take(0) =~= Seq::<(ChangeKind, Seq<char>)>::empty());
        assert(cs.skip(0) =~= cs);
        assert(bytes_of(Seq::<char>::empty()) =~= Seq::<u8>::empty());
        assert(msg_shapes(msgs@) =~= Seq::<(ChangeKind, Seq<char>)>::empty());
        if law {
            assert(start.bytes() =~= bytes_of(side(cs.take(0), ChangeKind::Delete)) + bytes_of(
                side(cs.skip(0), ChangeKind::Insert),
            ));
        }
    }
    while i < changes.len()
        invariant
            i <= changes@.len(),
            cs == change_views(changes@),
            cs == char_diff(old_text@, new_text@),
            side(cs, ChangeKind::Insert) == old_text@,
            side(cs, ChangeKind::Delete) == new_text@,
            new_len == bytes_of(new_text@).len(),
            doc_buffer.wf(),
            doc_buffer.id() == start.id(),
            offset == bytes_of(side(cs.take(i as int), ChangeKind::Delete)).len(),
            law == (start.covers() && start.content@ == old_text@),
            start.in_sync() ==> doc_buffer.in_sync(),
            start.covers() ==> doc_buffer.covers(),
            others_unchanged(start.replica, doc_buffer.replica),
            old_text@ == new_text@ ==> msgs@.len() == 0,
            old_text@ == new_text@ ==> forall|j: int|
                0 <= j < changes@.len() ==> #[trigger] changes@[j].0 == ChangeKind::Equal,
            leader_run(start.bytes(), start.replica, doc_buffer.bytes(), doc_buffer.replica, msgs@, tb, tr, tat),
            ({
                let rest = replay(
                    doc_buffer.bytes(),
                    doc_buffer.tracked_len() as int,
                    offset as int,
                    cs.skip(i as int),
                );
                replay(start.bytes(), start.tracked_len() as int, 0, cs) == (
                    rest.0,
                    msg_shapes(msgs@) + rest.1,
                )
            }),
            law ==> doc_buffer.bytes() == bytes_of(side(cs.take(i as int), ChangeKind::Delete))
                + bytes_of(side(cs.skip(i as int), ChangeKind::Insert)),
            insertions_measured(msgs@),
        decreases changes@.len() - i,
    {
        let ghost pre_doc = *doc_buffer;
        let ghost pre_msgs = msgs@;
        let ghost p = side(cs.take(i as int), ChangeKind::Delete);
        let ghost s = side(cs.skip(i as int), ChangeKind::Insert);
        let ghost c = cs[i as int];
        proof {
            lemma_replay_unfold(pre_doc.bytes(), pre_doc.tracked_len() as int, offset as int, cs, i as int);
            lemma_side_take_next(cs, ChangeKind::Delete, i as int);
            lemma_side_split(cs, ChangeKind::Delete, i as int + 1);
            lemma_encode_concat(
                side(cs.take(i as int + 1), ChangeKind::Delete),
                side(cs.skip(i as int + 1), ChangeKind::Delete),
            );
            lemma_encode_concat(p, c.1);
            lemma_side_first(cs.skip(i as int), ChangeKind::Insert);
            assert(cs.skip(i as int).drop_first() =~= cs.skip(i as int + 1));
            assert(cs.skip(i as int)[0] == c);
        }
        let kind = changes[i].0;
        let value = &changes[i].1;
        assert(value@ == c.1);
        let len = utf8_len(value.as_str());
        match kind {
            ChangeKind::Delete => {
                let at_start = doc_buffer.content.as_str().is_char_boundary(offset);
                if at_start {
                    let clen = utf8_len(doc_buffer.content.as_str());
                    if len <= clen - offset && doc_buffer.content.as_str().is_char_boundary(
                        offset + len,
                    ) {
                        match doc_buffer.delete_local(offset, len) {
                            Some(deletion) => {
                                let ghost del = deletion;
                                assert((del, doc_buffer.replica) == local_delete(pre_doc.replica, offset, (offset + len) as usize));
                                msgs.push(SyncMessage::Delete { deletion });
                                proof {
                                    assert(msgs@.drop_last() =~= pre_msgs);
                                    assert(msgs@.last() == SyncMessage::Delete { deletion: del });
                                    assert(doc_buffer.bytes() == remove_bytes(pre_doc.bytes(), offset as int, offset + len));
                                    assert(leader_step(pre_doc.bytes(), pre_doc.replica, doc_buffer.bytes(), doc_buffer.replica, msgs@.last(), (offset, (offset + len) as usize)));
                                    lemma_run_extend(
                                        start.bytes(),
                                        start.replica,
                                        pre_doc.bytes(),
                                        pre_doc.replica,
                                        doc_buffer.bytes(),
                                        doc_buffer.replica,
                                        pre_msgs,
                                        msgs@,
                                        tb,
                                        tr,
                                        tat,
                                        (offset, (offset + len) as usize),
                                    );
                                    tb = tb.push(doc_buffer.bytes());
                                    tr = tr.push(doc_buffer.replica);
                                    tat = tat.push((offset, (offset + len) as usize));
                                }
                            },
                            None => {},
                        }
                    }
                }
                proof {
                    let s2 = side(cs.skip(i as int + 1), ChangeKind::Insert);
                    assert(s == c.1 + s2);
                    if law {
                        lemma_encode_concat(c.1, s2);
                        lemma_encode_concat(p + c.1, s2);
                        lemma_encode_concat(p, c.1 + s2);
                        assert(p + (c.1 + s2) =~= (p + c.1) + s2);
                        lemma_boundary_at_prefix(p, c.1 + s2);
                        lemma_boundary_at_prefix(p + c.1, s2);
                        assert(pre_doc.bytes() == bytes_of(p) + bytes_of(c.1 + s2));
                        assert(bytes_of(p + c.1) == bytes_of(p) + bytes_of(c.1));
                        assert(doc_buffer.bytes() =~= bytes_of(p) + bytes_of(s2));
                        assert(cs.take(i as int + 1) =~= cs.take(i as int).push(c));
                        assert(side(cs.take(i as int + 1), ChangeKind::Delete) == p);
                    }
                    {
                        if msgs@.len() > pre_msgs.len() {
                            assert(msg_shapes(msgs@) =~= msg_shapes(pre_msgs).push(
                                (ChangeKind::Delete, Seq::empty()),
                            ));
                        } else {
                            assert(msgs@ == pre_msgs);
                        }
                    }
                }
            },
            ChangeKind::Insert => {
                if doc_buffer.content.as_str().is_char_boundary(offset) {
                    match doc_buffer.insert_local(offset, value.as_str()) {
                        Some(insertion) => {
                            let ghost ins = insertion;
                            assert((ins, doc_buffer.replica) == local_insert(pre_doc.replica, offset, len));
                            msgs.push(SyncMessage::Insert { insertion, text: value.clone() });
                            proof {
                                assert(msgs@.drop_last() =~= pre_msgs);
                                assert(msgs@.last() matches SyncMessage::Insert { insertion, .. } && insertion == ins);
                                assert(doc_buffer.bytes() == insert_bytes(pre_doc.bytes(), offset as int, bytes_of(value@)));
                                assert(leader_step(pre_doc.bytes(), pre_doc.replica, doc_buffer.bytes(), doc_buffer.replica, msgs@.last(), (offset, len)));
                                lemma_run_extend(
                                    start.bytes(),
                                    start.replica,
                                    pre_doc.bytes(),
                                    pre_doc.replica,
                                    doc_buffer.bytes(),
                                    doc_buffer.replica,
                                    pre_msgs,
                                    msgs@,
                                    tb,
                                    tr,
                                    tat,
                                    (offset, len),
                                );
                                tb = tb.push(doc_buffer.bytes());
                                tr = tr.push(doc_buffer.replica);
                                tat = tat.push((offset, len));
                            }
                        },
                        None => {},
                    }
                }
                proof {
                    if law {
                        lemma_encode_concat(p + c.1, s);
                        lemma_boundary_at_prefix(p, s);
                        assert(pre_doc.bytes() == bytes_of(p) + bytes_of(s));
                        assert(doc_buffer.bytes() =~= bytes_of(p) + bytes_of(c.1) + bytes_of(s));
                        assert(cs.skip(i as int + 1) =~= cs.skip(i as int).drop_first());
                    }
                    {
                        if msgs@.len() > pre_msgs.len() {
                            assert(msg_shapes(msgs@) =~= msg_shapes(pre_msgs).push(
                                (ChangeKind::Insert, c.1),
                            ));
                        } else {
                            assert(msgs@ == pre_msgs);
                        }
                    }
                    assert(insertions_measured(msgs@)) by {
                        assert forall|j: int| 0 <= j < msgs@.len() implies (#[trigger] msgs@[j] matches SyncMessage::Insert { insertion, text }
                            ==> insertion_len(insertion) == bytes_of(text@).len()) by {
                            if j < pre_msgs.len() {
                                assert(msgs@[j] == pre_msgs[j]);
                            }
                        }
                    }
                }
                offset = offset + len;
            },
            ChangeKind::Equal => {
                proof {
                    let s2 = side(cs.skip(i as int + 1), ChangeKind::Insert);
                    assert(s == c.1 + s2);
                    if law {
                        lemma_encode_concat(c.1, s2);
                        lemma_encode_concat(p + c.1, s2);
                        assert(doc_buffer.bytes() =~= bytes_of(p + c.1) + bytes_of(s2));
                    }
                }
                offset = offset + len;
            },
        }
        proof {
            assert(msgs@.len() == pre_msgs.len() ==> msgs@ == pre_msgs);
        }
        i = i + 1;
    }
    proof {
        assert(cs.take(i as int) =~= cs);
        assert(cs.skip(i as int) =~= Seq::<(ChangeKind, Seq<char>)>::empty());
        assert(msg_shapes(msgs@) + Seq::<(ChangeKind, Seq<char>)>::empty() =~= msg_shapes(msgs@));
        if law {
            assert(doc_buffer.bytes() =~= bytes_of(new_text@));
            assert(doc_buffer.content@ == new_text@) by {
                encode_utf8_decode_utf8(doc_buffer.content@);
                encode_utf8_decode_utf8(new_text@);
            }
        }
    }
    msgs
}

} // verus!
