use fluxtex::buffer::DocumentBuffer;
use fluxtex::diff::apply_text_diff;
use fluxtex::network::{apply_sync_message, SyncMessage};

/// A host's snapshot, carried over the wire and applied to a fresh joiner
/// replica, yields a buffer with the host's content.
#[test]
fn sync_message_snapshot_round_trip_seeds_joiner() {
    let mut host = DocumentBuffer::with_replica_id(1);
    apply_text_diff(&mut host, "", "Hello, peer.\n\\section{Intro}\n");
    assert_eq!(host.content, "Hello, peer.\n\\section{Intro}\n");

    let encoded = host.snapshot();
    let bytes = bincode::serde::encode_to_vec(
        (&encoded, &host.content),
        bincode::config::standard(),
    )
    .expect("encode");
    let ((encoded_back, content_back), _): ((cola::EncodedReplica, String), usize) =
        bincode::serde::decode_from_slice(&bytes, bincode::config::standard()).expect("decode");
    let on_wire = SyncMessage::Snapshot { encoded: encoded_back, content: content_back };

    let mut joiner = DocumentBuffer::with_replica_id(2);
    apply_sync_message(&mut joiner, on_wire);
    assert_eq!(joiner.content, host.content);
}

/// After a snapshot, joiner-originated inserts integrate back on the host.
#[test]
fn snapshot_then_remote_insert_converges() {
    let mut host = DocumentBuffer::with_replica_id(1);
    apply_text_diff(&mut host, "", "abc");

    let mut joiner = DocumentBuffer::with_replica_id(2);
    apply_sync_message(
        &mut joiner,
        SyncMessage::Snapshot { encoded: host.snapshot(), content: host.content.clone() },
    );

    let outbound = apply_text_diff(&mut joiner, "abc", "abcXYZ");
    assert_eq!(joiner.content, "abcXYZ");

    for msg in outbound {
        apply_sync_message(&mut host, msg);
    }
    assert_eq!(host.content, "abcXYZ");
}

#[test]
fn local_diff_inserts_into_empty_buffer() {
    let mut buffer = DocumentBuffer::with_replica_id(7);
    let messages = apply_text_diff(&mut buffer, "", "hello world");
    assert_eq!(buffer.content, "hello world");
    let mut inserted = String::new();
    for m in &messages {
        match m {
            SyncMessage::Insert { text, .. } => inserted.push_str(text),
            _ => panic!("expected insertions only"),
        }
    }
    assert_eq!(inserted, "hello world");
}

#[test]
fn identical_texts_produce_no_messages() {
    let mut buffer = DocumentBuffer::with_replica_id(3);
    apply_text_diff(&mut buffer, "", "same");
    let messages = apply_text_diff(&mut buffer, "same", "same");
    assert!(messages.is_empty());
    assert_eq!(buffer.content, "same");
}

#[test]
fn remote_delete_converges() {
    let mut host = DocumentBuffer::with_replica_id(1);
    apply_text_diff(&mut host, "", "hello world");
    let mut joiner = DocumentBuffer::with_replica_id(2);
    apply_sync_message(
        &mut joiner,
        SyncMessage::Snapshot { encoded: host.snapshot(), content: host.content.clone() },
    );
    let outbound = apply_text_diff(&mut host, "hello world", "hello");
    assert_eq!(host.content, "hello");
    assert!(outbound.iter().all(|m| matches!(m, SyncMessage::Delete { .. })));
    for msg in outbound {
        apply_sync_message(&mut joiner, msg);
    }
    assert_eq!(joiner.content, "hello");
}

#[test]
fn mixed_edit_converges_both_ways() {
    let mut host = DocumentBuffer::with_replica_id(11);
    apply_text_diff(&mut host, "", "\\section{Intro}\nText.");
    let mut joiner = DocumentBuffer::with_replica_id(12);
    apply_sync_message(
        &mut joiner,
        SyncMessage::Snapshot { encoded: host.snapshot(), content: host.content.clone() },
    );
    let out = apply_text_diff(&mut joiner, "\\section{Intro}\nText.", "\\section{Outro}\nTexts!");
    assert_eq!(joiner.content, "\\section{Outro}\nTexts!");
    for msg in out {
        apply_sync_message(&mut host, msg);
    }
    assert_eq!(host.content, "\\section{Outro}\nTexts!");
}

#[test]
fn multibyte_text_diff_uses_byte_offsets() {
    let mut buffer = DocumentBuffer::with_replica_id(5);
    apply_text_diff(&mut buffer, "", "héllo");
    apply_text_diff(&mut buffer, "héllo", "héllo wörld");
    assert_eq!(buffer.content, "héllo wörld");
    apply_text_diff(&mut buffer, "héllo wörld", "hé wörld");
    assert_eq!(buffer.content, "hé wörld");
}

#[test]
fn insert_local_past_end_is_refused() {
    let mut buffer = DocumentBuffer::with_replica_id(9);
    assert!(buffer.insert_local(0, "ab").is_some());
    assert!(buffer.insert_local(5, "x").is_none());
    assert_eq!(buffer.content, "ab");
    assert!(buffer.delete_local(1, 5).is_none());
    assert!(buffer.delete_local(0, 1).is_some());
    assert_eq!(buffer.content, "b");
}

#[test]
fn restore_snapshot_keeps_content_of_host() {
    let mut host = DocumentBuffer::with_replica_id(21);
    apply_text_diff(&mut host, "", "xyz");
    let mut joiner = DocumentBuffer::with_replica_id(22);
    apply_text_diff(&mut joiner, "", "old");
    joiner.restore_snapshot(&host.snapshot(), host.content.clone());
    assert_eq!(joiner.content, "xyz");
    assert_eq!(joiner.replica_id, 22);
}

#[test]
fn sync_messages_describe_themselves() {
    let mut host = DocumentBuffer::with_replica_id(1);
    let inserts = apply_text_diff(&mut host, "", "é");
    assert_eq!(inserts[0].describe(), "SyncMessage::Insert(2 chars)");
    let deletes = apply_text_diff(&mut host, "é", "");
    assert_eq!(deletes[0].describe(), "SyncMessage::Delete");
    apply_text_diff(&mut host, "", "abc");
    let snap = SyncMessage::Snapshot { encoded: host.snapshot(), content: host.content.clone() };
    assert_eq!(snap.describe(), "SyncMessage::Snapshot(3 chars)");
}

/// An insertion and a deletion made in the middle of one buffer land at the
/// same place on a peer restored from its snapshot.
#[test]
fn local_edits_land_where_made_on_a_peer() {
    let mut a = DocumentBuffer::with_replica_id(21);
    apply_text_diff(&mut a, "", "hello world");
    let mut b = DocumentBuffer::with_replica_id(22);
    b.restore_snapshot(&a.snapshot(), a.content.clone());

    let ins = a.insert_local(5, ",").expect("within the content");
    b.integrate_remote_insert(ins, ",");
    assert_eq!(a.content, "hello, world");
    assert_eq!(b.content, a.content);

    let del = a.delete_local(0, 7).expect("within the content");
    b.integrate_remote_delete(del);
    assert_eq!(a.content, "world");
    assert_eq!(b.content, a.content);
}

/// A buffer whose replica tracks more than its content still records edits
/// within the content.
#[test]
fn buffer_with_longer_replica_still_edits() {
    let mut host = DocumentBuffer::with_replica_id(31);
    apply_text_diff(&mut host, "", "abcdef");
    let mut short = DocumentBuffer::with_replica_id(32);
    short.restore_snapshot(&host.snapshot(), "abc".to_string());
    apply_text_diff(&mut short, "abc", "aXbc");
    assert_eq!(short.content, "aXbc");
}
