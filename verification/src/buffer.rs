//! The document buffer: the editor's text together with the CRDT replica
//! that tracks it, so that local edits become CRDT edits and remote CRDT
//! edits become text edits.

use vstd::prelude::*;
use vstd::utf8::*;
use vstd::string::StringSliceAdditionalSpecFns;

use crate::crdt::{
    decodable, deletion_merge, encoded_len, fresh_to, insertion_merge, local_delete, local_insert,
    others_unchanged, replica_owner,
    replica_decoded, replica_encoding, replica_mirrors, insertion_len, ranges_sorted_within,
    ranges_total, replica_decode, replica_encode,
    replica_integrate_deletion, replica_integrate_insertion, replica_deleted, replica_inserted,
    replica_len, replica_length, replica_new,
};
use crate::text::{bytes_of, string_insert_str, string_remove_range, utf8_len};

verus! {

broadcast use group_utf8_lib;

/// `b` with `t` inserted at byte `at`.
pub open spec fn insert_bytes(b: Seq<u8>, at: int, t: Seq<u8>) -> Seq<u8> {
    b.take(at) + t + b.skip(at)
}

/// `b` without the bytes `start..end`.
pub open spec fn remove_bytes(b: Seq<u8>, start: int, end: int) -> Seq<u8> {
    b.take(start) + b.skip(end)
}

/// Whether `start..end` can be cut out of the UTF-8 bytes `b`.
pub open spec fn removable(b: Seq<u8>, start: int, end: int) -> bool {
    &&& 0 <= start <= end <= b.len()
    &&& is_char_boundary(b, start)
    &&& is_char_boundary(b, end)
}

/// Cutting the ranges out of `b`, last range first; a range that cannot be
/// cut where it stands is passed over.
pub open spec fn remove_ranges(b: Seq<u8>, ranges: Seq<(usize, usize)>) -> Seq<u8>
    decreases ranges.len(),
{
    if ranges.len() == 0 {
        b
    } else {
        let r = ranges.last();
        let b1 = if removable(b, r.0 as int, r.1 as int) {
            remove_bytes(b, r.0 as int, r.1 as int)
        } else {
            b
        };
        remove_ranges(b1, ranges.drop_last())
    }
}

/// Whether every range could be cut where it stood when its turn came.
pub open spec fn all_removable(b: Seq<u8>, ranges: Seq<(usize, usize)>) -> bool
    decreases ranges.len(),
{
    if ranges.len() == 0 {
        true
    } else {
        let r = ranges.last();
        removable(b, r.0 as int, r.1 as int) && all_removable(
            remove_bytes(b, r.0 as int, r.1 as int),
            ranges.drop_last(),
        )
    }
}

proof fn lemma_remove_ranges_len(b: Seq<u8>, ranges: Seq<(usize, usize)>)
    requires
        all_removable(b, ranges),
    ensures
        remove_ranges(b, ranges).len() == b.len() - ranges_total(ranges),
    decreases ranges.len(),
{
    if ranges.len() > 0 {
        let r = ranges.last();
        lemma_remove_ranges_len(remove_bytes(b, r.0 as int, r.1 as int), ranges.drop_last());
    }
}

/// What integrating a remote insertion of `text` leaves: the replica is
/// the one merging the insertion gives, and the text is inserted at the
/// offset the merge gives when that offset is a character boundary within
/// the content; otherwise the content is unchanged. In terms of lengths:
/// nothing changed; or the text inserted at a character boundary within
/// the tracked document, which grew by the insertion's length; or (for an
/// offset that is no character boundary of the content) the content
/// unchanged while the tracked document grew.
pub open spec fn remote_insert_post(
    pre: DocumentBuffer,
    post: DocumentBuffer,
    insertion: cola::Insertion,
    text: Seq<char>,
) -> bool {
    &&& post.wf()
    &&& post.id() == pre.id()
    &&& post.replica == (insertion_merge(pre.replica, insertion)->0).1
    &&& post.bytes() == match (insertion_merge(pre.replica, insertion)->0).0 {
        Some(off) => if off <= pre.bytes().len() && is_char_boundary(pre.bytes(), off as int) {
            insert_bytes(pre.bytes(), off as int, bytes_of(text))
        } else {
            pre.bytes()
        },
        None => pre.bytes(),
    }
    &&& {
        ||| post.bytes() == pre.bytes() && post.tracked_len() == pre.tracked_len()
        ||| exists|off: int|
            #![trigger insert_bytes(pre.bytes(), off, bytes_of(text))]
            0 <= off <= pre.tracked_len() && is_char_boundary(pre.bytes(), off) && post.bytes()
                == insert_bytes(pre.bytes(), off, bytes_of(text)) && post.tracked_len()
                == pre.tracked_len() + insertion_len(insertion)
        ||| post.bytes() == pre.bytes() && post.tracked_len() == pre.tracked_len()
            + insertion_len(insertion)
    }
    &&& pre.in_sync() && bytes_of(text).len() == insertion_len(insertion) ==> (post.in_sync()
        || post.bytes() == pre.bytes())
}

/// What integrating a remote deletion leaves: the replica is the one
/// merging the deletion gives, and the content is the old content with the
/// ranges the merge gives cut out, last first (a range that cannot be cut
/// where it stands is passed over). The ranges are sorted and within the
/// tracked document, which shrank by their total; when every cut could be
/// made the buffer stays in sync.
pub open spec fn remote_delete_post(
    pre: DocumentBuffer,
    post: DocumentBuffer,
    deletion: cola::Deletion,
) -> bool {
    let (ranges, replica) = deletion_merge(pre.replica, deletion)->0;
    &&& post.wf()
    &&& post.id() == pre.id()
    &&& post.replica == replica
    &&& post.bytes() == remove_ranges(pre.bytes(), ranges)
    &&& ranges_sorted_within(ranges, pre.tracked_len())
    &&& post.tracked_len() == pre.tracked_len() - ranges_total(ranges)
    &&& (pre.in_sync() && all_removable(pre.bytes(), ranges) ==> post.in_sync())
}

/// What restoring a snapshot leaves: when the snapshot decodes, the given
/// content with the replica decoding gives under this buffer's id (which
/// tracks the snapshot's document length; when this buffer's id is fresh to
/// the replica the snapshot was taken of, each keeps pace with the other's
/// edits); else the buffer unchanged.
pub open spec fn restore_post(
    pre: DocumentBuffer,
    post: DocumentBuffer,
    encoded: cola::EncodedReplica,
    content: Seq<char>,
) -> bool {
    &&& post.wf()
    &&& post.id() == pre.id()
    &&& decodable(encoded) ==> replica_decoded(pre.id(), encoded) == Some(post.replica)
    &&& decodable(encoded) ==> forall|a: cola::Replica|
        #![trigger replica_encoding(a)]
        replica_encoding(a) == encoded && fresh_to(a, pre.id()) ==> replica_mirrors(
            a,
            post.replica,
        ) && replica_mirrors(post.replica, a)
    &&& decodable(encoded) ==> post.content@ == content && post.tracked_len() == encoded_len(
        encoded,
    )
    &&& !decodable(encoded) ==> post == pre
}

pub struct DocumentBuffer {
    pub replica: cola::Replica,
    pub replica_id: u64,
    pub content: String,
}

impl DocumentBuffer {
    /// The buffer carries a usable (non-zero) replica id, which its replica
    /// tags its edits with.
    pub closed spec fn wf(&self) -> bool {
        self.replica_id != 0 && replica_owner(self.replica) == self.replica_id
    }

    /// The replica id the buffer was made with.
    pub closed spec fn id(&self) -> u64 {
        self.replica_id
    }

    /// The document length the CRDT replica tracks.
    pub open spec fn tracked_len(&self) -> nat {
        replica_len(self.replica)
    }

    /// The UTF-8 bytes of the content.
    pub open spec fn bytes(&self) -> Seq<u8> {
        bytes_of(self.content@)
    }

    /// The replica tracks at least as many bytes as the content holds, so
    /// every edit within the content can be recorded.
    pub open spec fn covers(&self) -> bool {
        self.tracked_len() >= self.bytes().len()
    }

    /// The replica tracks exactly as many bytes as the content holds.
    pub open spec fn in_sync(&self) -> bool {
        self.tracked_len() == self.bytes().len()
    }

    /// An empty buffer whose replica is tagged with `replica_id`
    /// (the CRDT refuses the id zero).
    pub fn with_replica_id(replica_id: u64) -> (b: Self)
        requires
            replica_id != 0,
        ensures
            b.wf(),
            b.id() == replica_id,
            b.content@ == Seq::<char>::empty(),
            b.in_sync(),
            forall|x: u64| x != replica_id ==> #[trigger] fresh_to(b.replica, x),
    {
        let b = DocumentBuffer {
            replica: replica_new(replica_id, 0),
            replica_id,
            content: String::new(),
        };
        assert(b.bytes() =~= Seq::<u8>::empty());
        b
    }

    /// An encoded view of the CRDT state, used by the host to seed a
    /// joining peer; it carries the tracked document length, and this
    /// buffer's replica keeps pace with any replica decoded from it under an
    /// id fresh to it.
    pub fn snapshot(&self) -> (e: cola::EncodedReplica)
        ensures
            e == replica_encoding(self.replica),
            encoded_len(e) == self.tracked_len(),
            decodable(e),
            forall|id: u64|
                #![trigger replica_decoded(id, e)]
                fresh_to(self.replica, id) ==> (replica_decoded(id, e) matches Some(d)
                    ==> replica_mirrors(d, self.replica)),
    {
        replica_encode(&self.replica)
    }

    /// Replaces the replica and the content with a host's snapshot, keeping
    /// this buffer's replica id. When the snapshot cannot be decoded the
    /// buffer is left as it was.
    pub fn restore_snapshot(&mut self, encoded: &cola::EncodedReplica, content: String)
        requires
            old(self).wf(),
        ensures
            restore_post(*old(self), *final(self), *encoded, content@),
    {
        match replica_decode(self.replica_id, encoded) {
            Ok(replica) => {
                self.replica = replica;
                self.content = content;
            },
            Err(_) => {},
        }
    }

    /// Inserts `text` at byte `offset` and records the insertion in the
    /// replica, returning the insertion the replica made there. Returns
    /// `None`, changing nothing, when `offset` is past the end of the
    /// content (or of the tracked document).
    pub fn insert_local(&mut self, offset: usize, text: &str) -> (res: Option<cola::Insertion>)
        requires
            old(self).wf(),
            offset <= old(self).bytes().len() ==> is_char_boundary(
                old(self).bytes(),
                offset as int,
            ),
        ensures
            final(self).wf(),
            final(self).id() == old(self).id(),
            others_unchanged(old(self).replica, final(self).replica),
            res is Some <==> offset <= old(self).bytes().len() && offset <= old(
                self,
            ).tracked_len(),
            res matches Some(ins) ==> {
                &&& (ins, final(self).replica) == local_insert(
                    old(self).replica,
                    offset,
                    bytes_of(text@).len() as usize,
                )
                &&& final(self).bytes() == insert_bytes(
                    old(self).bytes(),
                    offset as int,
                    bytes_of(text@),
                )
                &&& final(self).tracked_len() == old(self).tracked_len() + bytes_of(text@).len()
                &&& insertion_len(ins) == bytes_of(text@).len()
            },
            res is None ==> *final(self) == *old(self),
            old(self).in_sync() ==> final(self).in_sync(),
    {
        let len = utf8_len(self.content.as_str());
        let crdt_len = replica_length(&self.replica);
        if offset <= len && offset <= crdt_len {
            let ghost old_bytes = self.bytes();
            string_insert_str(&mut self.content, offset, text);
            let n = utf8_len(text);
            let ins = replica_inserted(&mut self.replica, offset, n);
            assert(self.bytes().len() == old_bytes.len() + n);
            Some(ins)
        } else {
            None
        }
    }

    /// Deletes the bytes `offset..offset + len` and records the deletion in
    /// the replica, returning the deletion the replica made of that range.
    /// Returns `None`, changing nothing, when the range runs past the end of
    /// the content (or of the tracked document).
    pub fn delete_local(&mut self, offset: usize, len: usize) -> (res: Option<cola::Deletion>)
        requires
            old(self).wf(),
            offset + len <= old(self).bytes().len() ==> is_char_boundary(
                old(self).bytes(),
                offset as int,
            ) && is_char_boundary(old(self).bytes(), offset + len),
        ensures
            final(self).wf(),
            final(self).id() == old(self).id(),
            others_unchanged(old(self).replica, final(self).replica),
            res is Some <==> offset + len <= old(self).bytes().len() && offset + len <= old(
                self,
            ).tracked_len(),
            res matches Some(del) ==> {
                &&& (del, final(self).replica) == local_delete(
                    old(self).replica,
                    offset,
                    (offset + len) as usize,
                )
                &&& final(self).bytes() == remove_bytes(
                    old(self).bytes(),
                    offset as int,
                    offset + len,
                )
                &&& final(self).tracked_len() == old(self).tracked_len() - len
            },
            res is None ==> *final(self) == *old(self),
            old(self).in_sync() ==> final(self).in_sync(),
    {
        let clen = utf8_len(self.content.as_str());
        let crdt_len = replica_length(&self.replica);
        if offset <= clen && len <= clen - offset && offset <= crdt_len && len <= crdt_len - offset {
            let end = offset + len;
            let ghost old_bytes = self.bytes();
            string_remove_range(&mut self.content, offset, end);
            assert(self.bytes().len() == old_bytes.len() - len);
            let del = replica_deleted(&mut self.replica, offset, end);
            Some(del)
        } else {
            None
        }
    }

    /// Integrates a remote insertion: the replica gives the offset at which
    /// `text` goes, and the text is inserted there. When the replica gives
    /// no offset (already merged, or waiting for context) the content stays
    /// as it was; so it does when the offset it gives is not a character
    /// boundary of the content, which only a peer counting in another unit
    /// can cause.
    pub fn integrate_remote_insert(&mut self, insertion: cola::Insertion, text: &str)
        requires
            old(self).wf(),
            insertion_merge(old(self).replica, insertion) is Some,
        ensures
            remote_insert_post(*old(self), *final(self), insertion, text@),
    {
        let ghost old_bytes = self.bytes();
        match replica_integrate_insertion(&mut self.replica, &insertion) {
            Some(off) => {
                let len = utf8_len(self.content.as_str());
                if off <= len && self.content.as_str().is_char_boundary(off) {
                    string_insert_str(&mut self.content, off, text);
                    assert(insert_bytes(old_bytes, off as int, bytes_of(text@)) == self.bytes());
                }
            },
            None => {},
        }
    }

    /// Integrates a remote deletion: the replica gives the ranges to cut,
    /// which are cut from the content last range first. A range that is not
    /// a pair of character boundaries within the content when its turn comes
    /// is passed over.
    pub fn integrate_remote_delete(&mut self, deletion: cola::Deletion)
        requires
            old(self).wf(),
            deletion_merge(old(self).replica, deletion) is Some,
        ensures
            remote_delete_post(*old(self), *final(self), deletion),
    {
        let ghost old_bytes = self.bytes();
        let ranges = replica_integrate_deletion(&mut self.replica, &deletion);
        let ghost rep = self.replica;
        let mut k = ranges.len();
        proof {
            assert(ranges@.take(k as int) =~= ranges@);
            assert(ranges@.skip(k as int) =~= Seq::<(usize, usize)>::empty());
        }
        while k > 0
            invariant
                k <= ranges@.len(),
                self.replica_id == old(self).replica_id,
                self.replica == rep,
                remove_ranges(old_bytes, ranges@) == remove_ranges(
                    self.bytes(),
                    ranges@.take(k as int),
                ),
                all_removable(old_bytes, ranges@) ==> all_removable(
                    self.bytes(),
                    ranges@.take(k as int),
                ) && self.bytes().len() == old_bytes.len() - ranges_total(ranges@.skip(k as int)),
            decreases k,
        {
            let ghost before = self.bytes();
            let ghost pre = ranges@.take(k as int);
            assert(pre.last() == ranges@[k - 1]);
            assert(pre.drop_last() =~= ranges@.take(k - 1));
            let (start, end) = ranges[k - 1];
            let len = utf8_len(self.content.as_str());
            if start <= end && end <= len && self.content.as_str().is_char_boundary(start)
                && self.content.as_str().is_char_boundary(end) {
                string_remove_range(&mut self.content, start, end);
                assert(self.bytes() == remove_bytes(before, start as int, end as int));
            }
            proof {
                assert(remove_ranges(before, pre) == remove_ranges(self.bytes(), pre.drop_last()));
                let s = ranges@.skip(k as int);
                let s1 = ranges@.skip(k - 1);
                assert(s1.drop_first() =~= s);
                assert(s1[0] == ranges@[k - 1]);
                lemma_ranges_total_first(s1);
            }
            k = k - 1;
        }
        proof {
            assert(ranges@.take(0) =~= Seq::<(usize, usize)>::empty());
            assert(ranges@.skip(0) =~= ranges@);
            assert(remove_ranges(old_bytes, ranges@) == self.bytes());
        }
    }
}

proof fn lemma_ranges_total_first(rs: Seq<(usize, usize)>)
    requires
        rs.len() > 0,
    ensures
        ranges_total(rs) == (rs[0].1 - rs[0].0) + ranges_total(rs.drop_first()),
    decreases rs.len(),
{
    if rs.len() == 1 {
        assert(rs.drop_first() =~= Seq::<(usize, usize)>::empty());
        assert(rs.drop_last() =~= Seq::<(usize, usize)>::empty());
    } else {
        lemma_ranges_total_first(rs.drop_last());
        assert(rs.drop_last().drop_first() =~= rs.drop_first().drop_last());
        assert(rs.drop_first().last() == rs.last());
        assert(rs.drop_last()[0] == rs[0]);
    }
}


/// The bytes of `b` that lie outside every one of the ranges (ascending
/// and disjoint), in their old order: the part before the last range with
/// the earlier ranges left out, then everything after the last range.
pub open spec fn bytes_outside(b: Seq<u8>, ranges: Seq<(usize, usize)>) -> Seq<u8>
    decreases ranges.len(),
{
    if ranges.len() == 0 {
        b
    } else {
        bytes_outside(b.take(ranges.last().0 as int), ranges.drop_last()) + b.skip(
            ranges.last().1 as int,
        )
    }
}

/// Ranges that are non-empty, ascending and disjoint, each starting and
/// ending on a character boundary of the UTF-8 bytes `b`.
pub open spec fn cut_ranges(b: Seq<u8>, ranges: Seq<(usize, usize)>) -> bool {
    &&& valid_utf8(b)
    &&& forall|i: int| 0 <= i < ranges.len() ==> #[trigger] ranges[i].0 < ranges[i].1
    &&& forall|i: int, j: int|
        0 <= i < j < ranges.len() ==> #[trigger] ranges[i].1 <= #[trigger] ranges[j].0
    &&& forall|i: int|
        #![trigger ranges[i]]
        0 <= i < ranges.len() ==> is_char_boundary(b, ranges[i].0 as int) && is_char_boundary(
            b,
            ranges[i].1 as int,
        )
}

/// Cutting `start..end` (both character boundaries) out of UTF-8 bytes
/// leaves UTF-8 bytes in which every earlier boundary is still one.
proof fn lemma_cut_keeps_boundaries(b: Seq<u8>, start: int, end: int)
    requires
        valid_utf8(b),
        0 <= start <= end <= b.len(),
        is_char_boundary(b, start),
        is_char_boundary(b, end),
    ensures
        valid_utf8(remove_bytes(b, start, end)),
        forall|k: int|
            0 <= k <= start && is_char_boundary(b, k) ==> #[trigger] is_char_boundary(
                remove_bytes(b, start, end),
                k,
            ),
{
    let r = remove_bytes(b, start, end);
    valid_utf8_split(b, start);
    valid_utf8_split(b, end);
    assert(b.take(start) =~= b.subrange(0, start));
    assert(b.skip(end) =~= b.subrange(end, b.len() as int));
    valid_utf8_concat(b.take(start), b.skip(end));
    assert forall|k: int| 0 <= k <= start && is_char_boundary(b, k) implies #[trigger] is_char_boundary(
        r,
        k,
    ) by {
        if k == r.len() {
            is_char_boundary_start_end_of_seq(r);
        } else if k < start {
            is_char_boundary_iff_not_is_continuation_byte(b, k);
            is_char_boundary_iff_not_is_continuation_byte(r, k);
            assert(r[k] == b[k]);
        } else {
            assert(k == start);
            assert(end < b.len());
            is_char_boundary_iff_not_is_continuation_byte(b, end);
            is_char_boundary_iff_not_is_continuation_byte(r, k);
            assert(r[k] == b[end]);
        }
    }
}

/// Leaving out ranges that all lie within `x` commutes with appending `y`.
proof fn lemma_outside_append(x: Seq<u8>, y: Seq<u8>, ranges: Seq<(usize, usize)>)
    requires
        forall|i: int| 0 <= i < ranges.len() ==> #[trigger] ranges[i].1 <= x.len(),
        forall|i: int| 0 <= i < ranges.len() ==> #[trigger] ranges[i].0 <= ranges[i].1,
    ensures
        bytes_outside(x + y, ranges) == bytes_outside(x, ranges) + y,
    decreases ranges.len(),
{
    if ranges.len() == 0 {
    } else {
        let l = ranges.last();
        assert(l == ranges[ranges.len() - 1]);
        assert((x + y).take(l.0 as int) =~= x.take(l.0 as int));
        assert((x + y).skip(l.1 as int) =~= x.skip(l.1 as int) + y);
        assert(bytes_outside(x.take(l.0 as int), ranges.drop_last()) + x.skip(l.1 as int) + y
            =~= bytes_outside(x.take(l.0 as int), ranges.drop_last()) + (x.skip(l.1 as int)
            + y));
    }
}

/// The bytes outside the ranges number the bytes of `b` less the ranges'
/// total length; the bytes before the first range come first, unmoved, and
/// the bytes after the last range come last, each moved back by that total.
proof fn lemma_outside_positions(b: Seq<u8>, ranges: Seq<(usize, usize)>)
    requires
        forall|i: int| 0 <= i < ranges.len() ==> #[trigger] ranges[i].0 < ranges[i].1,
        forall|i: int, j: int|
            0 <= i < j < ranges.len() ==> #[trigger] ranges[i].1 <= #[trigger] ranges[j].0,
        forall|i: int| 0 <= i < ranges.len() ==> #[trigger] ranges[i].1 <= b.len(),
    ensures
        bytes_outside(b, ranges).len() == b.len() - ranges_total(ranges),
        ranges.len() > 0 ==> ranges_total(ranges) <= ranges.last().1 - ranges[0].0,
        ranges.len() > 0 ==> forall|p: int|
            ranges.last().1 <= p < b.len() ==> #[trigger] bytes_outside(b, ranges)[p
                - ranges_total(ranges)] == b[p],
        forall|p: int|
            0 <= p < b.len() && (ranges.len() == 0 || p < ranges[0].0) ==> #[trigger] bytes_outside(
                b,
                ranges,
            )[p] == b[p],
    decreases ranges.len(),
{
    if ranges.len() > 0 {
        let l = ranges.last();
        let d = ranges.drop_last();
        let pre = b.take(l.0 as int);
        assert(l == ranges[ranges.len() - 1]);
        assert forall|i: int| 0 <= i < d.len() implies #[trigger] d[i].1 <= pre.len() by {
            assert(d[i] == ranges[i]);
            assert(ranges[i].1 <= ranges[ranges.len() - 1].0);
        }
        assert forall|i: int| 0 <= i < d.len() implies #[trigger] d[i].0 < d[i].1 by {
            assert(d[i] == ranges[i]);
        }
        assert forall|i: int, j: int| 0 <= i < j < d.len() implies #[trigger] d[i].1
            <= #[trigger] d[j].0 by {
            assert(d[i] == ranges[i]);
            assert(d[j] == ranges[j]);
        }
        lemma_outside_positions(pre, d);
        if d.len() > 0 {
            assert(d[0] == ranges[0]);
            assert(d.last() == ranges[ranges.len() - 2]);
            assert(ranges[ranges.len() - 2].1 <= ranges[ranges.len() - 1].0);
        } else {
            assert(d =~= Seq::<(usize, usize)>::empty());
            assert(ranges_total(d) == 0);
            assert(ranges[0] == l);
        }
        let x = bytes_outside(pre, d);
        assert(bytes_outside(b, ranges) == x + b.skip(l.1 as int));
        assert forall|p: int|
            0 <= p < b.len() && p < ranges[0].0 implies #[trigger] bytes_outside(b, ranges)[p]
            == b[p] by {
            assert(p < x.len());
            assert(x[p] == pre[p]);
        }
    }
}

/// Cutting the ranges out last first, as a remote deletion does, leaves
/// exactly the bytes outside every range in their old order: the bytes
/// before the first range unmoved, and a byte after the last range moved
/// back by the total length of the ranges.
pub proof fn lemma_remove_ranges_keeps_outside(b: Seq<u8>, ranges: Seq<(usize, usize)>)
    requires
        cut_ranges(b, ranges),
    ensures
        remove_ranges(b, ranges) == bytes_outside(b, ranges),
        remove_ranges(b, ranges).len() == b.len() - ranges_total(ranges),
        ranges.len() > 0 ==> forall|p: int|
            ranges.last().1 <= p < b.len() ==> #[trigger] remove_ranges(b, ranges)[p
                - ranges_total(ranges)] == b[p],
        forall|p: int|
            0 <= p < b.len() && (ranges.len() == 0 || p < ranges[0].0) ==> #[trigger] remove_ranges(
                b,
                ranges,
            )[p] == b[p],
    decreases ranges.len(),
{
    assert forall|i: int| 0 <= i < ranges.len() implies #[trigger] ranges[i].1 <= b.len() by {
        assert(is_char_boundary(b, ranges[i].1 as int));
    }
    lemma_outside_positions(b, ranges);
    if ranges.len() > 0 {
        let l = ranges.last();
        let d = ranges.drop_last();
        assert(l == ranges[ranges.len() - 1]);
        assert(is_char_boundary(b, l.0 as int) && is_char_boundary(b, l.1 as int));
        assert(l.1 <= b.len());
        let b1 = remove_bytes(b, l.0 as int, l.1 as int);
        assert(removable(b, l.0 as int, l.1 as int));
        lemma_cut_keeps_boundaries(b, l.0 as int, l.1 as int);
        assert forall|i: int| 0 <= i < d.len() implies is_char_boundary(b1, #[trigger] d[i].0 as int)
            && is_char_boundary(b1, d[i].1 as int) by {
            assert(d[i] == ranges[i]);
            assert(ranges[i].1 <= ranges[ranges.len() - 1].0);
            assert(is_char_boundary(b, ranges[i].0 as int));
            assert(is_char_boundary(b, ranges[i].1 as int));
        }
        assert forall|i: int| 0 <= i < d.len() implies #[trigger] d[i].0 < d[i].1 by {
            assert(d[i] == ranges[i]);
        }
        assert forall|i: int, j: int| 0 <= i < j < d.len() implies #[trigger] d[i].1
            <= #[trigger] d[j].0 by {
            assert(d[i] == ranges[i]);
            assert(d[j] == ranges[j]);
        }
        lemma_remove_ranges_keeps_outside(b1, d);
        assert forall|i: int| 0 <= i < d.len() implies #[trigger] d[i].1 <= b.take(
            l.0 as int,
        ).len() by {
            assert(d[i] == ranges[i]);
            assert(ranges[i].1 <= ranges[ranges.len() - 1].0);
        }
        assert forall|i: int| 0 <= i < d.len() implies #[trigger] d[i].0 <= d[i].1 by {
            assert(d[i] == ranges[i]);
        }
        lemma_outside_append(b.take(l.0 as int), b.skip(l.1 as int), d);
    }
}

/// A remote deletion whose ranges are ascending, disjoint and on character
/// boundaries of the content leaves exactly the content's bytes outside
/// every range, in their old order.
pub proof fn lemma_remote_delete_cuts_outside(
    pre: DocumentBuffer,
    post: DocumentBuffer,
    deletion: cola::Deletion,
)
    requires
        remote_delete_post(pre, post, deletion),
        forall|i: int|
            0 <= i < (deletion_merge(pre.replica, deletion)->0).0.len() ==> is_char_boundary(
                pre.bytes(),
                #[trigger] (deletion_merge(pre.replica, deletion)->0).0[i].0 as int,
            ) && is_char_boundary(
                pre.bytes(),
                (deletion_merge(pre.replica, deletion)->0).0[i].1 as int,
            ),
    ensures
        post.bytes() == bytes_outside(pre.bytes(), (deletion_merge(pre.replica, deletion)->0).0),
{
    let ranges = (deletion_merge(pre.replica, deletion)->0).0;
    let b = pre.bytes();
    encode_utf8_valid_utf8(pre.content@);
    assert forall|i: int| #![trigger ranges[i]] 0 <= i < ranges.len() implies is_char_boundary(
        b,
        ranges[i].0 as int,
    ) && is_char_boundary(b, ranges[i].1 as int) by {
        assert(is_char_boundary(b, (deletion_merge(pre.replica, deletion)->0).0[i].0 as int));
    }
    assert forall|i: int| 0 <= i < ranges.len() implies #[trigger] ranges[i].0 < ranges[i].1 by {}
    assert(cut_ranges(b, ranges));
    lemma_remove_ranges_keeps_outside(b, ranges);
}

} // verus!
