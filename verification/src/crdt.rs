//! The outside CRDT (`cola`) as the document buffer sees it: a replica that
//! tracks a document length, the edits it produces and integrates (carried
//! through unopened, their results named), and the convergence it promises:
//! a replica holding the same document state as another merges that
//! other's edits where they were made.

use vstd::prelude::*;

verus! {

#[verifier::external_type_specification]
#[verifier::external_body]
pub struct ExReplica(cola::Replica);

#[verifier::external_type_specification]
#[verifier::external_body]
pub struct ExInsertion(cola::Insertion);

#[verifier::external_type_specification]
#[verifier::external_body]
pub struct ExDeletion(cola::Deletion);

#[verifier::external_type_specification]
#[verifier::external_body]
pub struct ExEncodedReplica(cola::EncodedReplica);

#[verifier::external_type_specification]
#[verifier::external_body]
pub struct ExDecodeError(cola::DecodeError);

/// The length of the document a replica tracks (in the unit the buffer
/// uses, here UTF-8 bytes).
pub uninterp spec fn replica_len(r: cola::Replica) -> nat;

/// The length of the text an insertion adds, as recorded in the insertion.
pub uninterp spec fn insertion_len(i: cola::Insertion) -> nat;

/// The length of the document an encoded replica carries.
pub uninterp spec fn encoded_len(e: cola::EncodedReplica) -> nat;

/// What `cola::Replica::decode` gives for the id `id` and an encoded
/// replica: the decoded replica, or nothing when the encoding is refused.
pub uninterp spec fn replica_decoded(id: u64, e: cola::EncodedReplica) -> Option<cola::Replica>;

/// Whether `cola::Replica::decode` accepts an encoded replica: it was made
/// by this protocol version, its checksum matches its bytes, and the bytes
/// parse (which does not depend on the id decoded under).
pub open spec fn decodable(e: cola::EncodedReplica) -> bool {
    replica_decoded(1, e) is Some
}

/// What `cola::Replica::encode` gives for a replica.
pub uninterp spec fn replica_encoding(r: cola::Replica) -> cola::EncodedReplica;

/// What merging a remote insertion into a replica gives: the offset at
/// which its text goes (if any) and the replica afterwards; nothing when
/// the merge does not return (an insertion anchored in text from a replica
/// this one has never heard of).
pub uninterp spec fn insertion_merge(r: cola::Replica, ins: cola::Insertion) -> Option<
    (Option<usize>, cola::Replica),
>;

/// What merging a remote deletion into a replica gives: the ranges to cut
/// from the buffer and the replica afterwards; nothing when the merge does
/// not return (a deletion anchored in text from a replica this one has
/// never heard of).
pub uninterp spec fn deletion_merge(r: cola::Replica, del: cola::Deletion) -> Option<
    (Seq<(usize, usize)>, cola::Replica),
>;

/// What `cola::Replica::inserted` gives for a local insertion of `len`
/// units at `offset`: the insertion to send to the peers and the replica
/// afterwards.
pub uninterp spec fn local_insert(r: cola::Replica, offset: usize, len: usize) -> (
    cola::Insertion,
    cola::Replica,
);

/// What `cola::Replica::deleted` gives for a local deletion of
/// `start..end`: the deletion to send to the peers and the replica
/// afterwards.
pub uninterp spec fn local_delete(r: cola::Replica, start: usize, end: usize) -> (
    cola::Deletion,
    cola::Replica,
);

/// An edit made on a replica by its own peer: `len` units inserted at
/// `offset`, or the units `start..end` deleted.
pub enum LocalEdit {
    Insert { offset: usize, len: usize },
    Delete { start: usize, end: usize },
}

/// `cola::Replica::id`: the id the replica tags its own edits with.
pub uninterp spec fn replica_owner(r: cola::Replica) -> u64;

/// What the replica's version map gives for `id` (cola's
/// `VersionMap::get`): how many units of text written under `id` the
/// replica holds; zero for an id it has never merged text from.
pub uninterp spec fn replica_clock(r: cola::Replica, id: u64) -> nat;

/// What the replica's deletion map gives for `id` (cola's
/// `DeletionMap::get`): how many deletions made under `id` the replica
/// holds; zero for an id it has never merged a deletion from.
pub uninterp spec fn replica_deletion_clock(r: cola::Replica, id: u64) -> nat;

/// The replica holds no edit made under `id`, and `id` is not its own: a
/// peer decoding this replica's state under `id` starts afresh.
pub open spec fn fresh_to(r: cola::Replica, id: u64) -> bool {
    &&& id != replica_owner(r)
    &&& replica_clock(r, id) == 0
    &&& replica_deletion_clock(r, id) == 0
}

/// The clocks a replica keeps for other ids than its own are unchanged from
/// `r` to `r1`, and so is its own id.
pub open spec fn others_unchanged(r: cola::Replica, r1: cola::Replica) -> bool {
    &&& replica_owner(r1) == replica_owner(r)
    &&& forall|x: u64|
        x != replica_owner(r) ==> #[trigger] replica_clock(r1, x) == replica_clock(r, x)
            && replica_deletion_clock(r1, x) == replica_deletion_clock(r, x)
    &&& forall|x: u64| fresh_to(r, x) ==> #[trigger] fresh_to(r1, x)
}

/// `b` keeps pace with `a` through `edits`, made by `a`'s peer one after
/// the other and merged by `b` in the same order: every merge returns, a
/// non-empty edit lands where it was made (the insertion at its offset, the
/// deletion as its one range), and an empty edit changes neither replica
/// and lands nowhere.
pub open spec fn follows(a: cola::Replica, b: cola::Replica, edits: Seq<LocalEdit>) -> bool
    decreases edits.len(),
{
    if edits.len() == 0 {
        true
    } else {
        match edits[0] {
            LocalEdit::Insert { offset, len } => offset <= replica_len(a) ==> {
                let (ins, a1) = local_insert(a, offset, len);
                match insertion_merge(b, ins) {
                    None => false,
                    Some((res, b1)) => {
                        &&& (len > 0 ==> res == Some(offset))
                        &&& (len == 0 ==> res is None && b1 == b && a1 == a)
                        &&& follows(a1, b1, edits.drop_first())
                    },
                }
            },
            LocalEdit::Delete { start, end } => start <= end <= replica_len(a) ==> {
                let (del, a1) = local_delete(a, start, end);
                match deletion_merge(b, del) {
                    None => false,
                    Some((ranges, b1)) => {
                        &&& (start < end ==> ranges == seq![(start, end)])
                        &&& (start == end ==> ranges.len() == 0 && b1 == b && a1 == a)
                        &&& follows(a1, b1, edits.drop_first())
                    },
                }
            },
        }
    }
}

/// `b` holds `a`'s document state and starts afresh under its own id (it
/// was decoded from `a`'s encoding under an id fresh to `a`, or `a` from
/// `b`'s), so it keeps pace with whatever `a`'s peer does next.
pub open spec fn replica_mirrors(a: cola::Replica, b: cola::Replica) -> bool {
    forall|edits: Seq<LocalEdit>| #[trigger] follows(a, b, edits)
}

/// Total length covered by a list of ranges.
pub open spec fn ranges_total(ranges: Seq<(usize, usize)>) -> int
    decreases ranges.len(),
{
    if ranges.len() == 0 {
        0
    } else {
        ranges_total(ranges.drop_last()) + (ranges.last().1 - ranges.last().0)
    }
}

/// Ranges that are non-empty, in ascending order, disjoint, and all end at
/// or before `len`.
pub open spec fn ranges_sorted_within(ranges: Seq<(usize, usize)>, len: nat) -> bool {
    &&& forall|i: int| 0 <= i < ranges.len() ==> #[trigger] ranges[i].0 < ranges[i].1
    &&& forall|i: int| 0 <= i < ranges.len() ==> #[trigger] ranges[i].1 <= len
    &&& forall|i: int, j: int|
        0 <= i < j < ranges.len() ==> #[trigger] ranges[i].1 <= #[trigger] ranges[j].0
}

/// `cola::Replica::new`: a replica for a document of `len` units, owned by
/// `id` and holding no edit of any other id; it panics on the id zero.
#[verifier::external_body]
pub(crate) fn replica_new(id: u64, len: usize) -> (r: cola::Replica)
    requires
        id != 0,
    ensures
        replica_len(r) == len,
        replica_owner(r) == id,
        forall|x: u64|
            x != id ==> #[trigger] replica_clock(r, x) == 0 && replica_deletion_clock(r, x) == 0,
{
    cola::Replica::new(id, len)
}

/// `cola::Replica::len`: the length of the tracked document.
#[verifier::external_body]
pub(crate) fn replica_length(r: &cola::Replica) -> (n: usize)
    ensures
        n == replica_len(*r),
{
    r.len()
}

/// `cola::Replica::inserted`: records a local insertion of `len` units at
/// `offset`, giving the insertion and the replica named by `local_insert`
/// (only its own clock moves); it panics when `offset` is past the end.
#[verifier::external_body]
pub(crate) fn replica_inserted(r: &mut cola::Replica, offset: usize, len: usize) -> (ins: cola::Insertion)
    requires
        offset <= replica_len(*old(r)),
    ensures
        (ins, *final(r)) == local_insert(*old(r), offset, len),
        others_unchanged(*old(r), *final(r)),
        replica_len(*final(r)) == replica_len(*old(r)) + len,
        insertion_len(ins) == len,
{
    r.inserted(offset, len)
}

/// `cola::Replica::deleted`: records a local deletion of `start..end`,
/// giving the deletion and the replica named by `local_delete` (only its own
/// deletion clock moves); it panics when the range is reversed or past the
/// end.
#[verifier::external_body]
pub(crate) fn replica_deleted(r: &mut cola::Replica, start: usize, end: usize) -> (del: cola::Deletion)
    requires
        start <= end <= replica_len(*old(r)),
    ensures
        (del, *final(r)) == local_delete(*old(r), start, end),
        others_unchanged(*old(r), *final(r)),
        replica_len(*final(r)) == replica_len(*old(r)) - (end - start),
{
    r.deleted(start..end)
}

/// `cola::Replica::integrate_insertion`: merges a remote insertion. The
/// offset and the replica afterwards depend on the replica and the
/// insertion alone (named `insertion_merge`). It panics (an `unwrap` in the
/// run indices) on an insertion anchored in text from a replica this one
/// has never heard of, which `insertion_merge` leaves out. When it returns
/// an offset, that offset lies within the document as it was, and the
/// document grew by the insertion's length; otherwise (already merged, or
/// held back for missing context) the document length is unchanged.
#[verifier::external_body]
pub(crate) fn replica_integrate_insertion(r: &mut cola::Replica, ins: &cola::Insertion) -> (res: Option<
    usize,
>)
    requires
        insertion_merge(*old(r), *ins) is Some,
    ensures
        insertion_merge(*old(r), *ins) == Some((res, *final(r))),
        replica_owner(*final(r)) == replica_owner(*old(r)),
        res matches Some(off) ==> off <= replica_len(*old(r)) && replica_len(*final(r))
            == replica_len(*old(r)) + insertion_len(*ins),
        res is None ==> replica_len(*final(r)) == replica_len(*old(r)),
{
    r.integrate_insertion(ins)
}

/// `cola::Replica::integrate_deletion`: merges a remote deletion and
/// returns the ranges to delete from the buffer (named, with the replica
/// afterwards, by `deletion_merge`): non-empty, ascending and disjoint,
/// within the document as it was; the document shrinks by their total
/// length. It panics on a deletion anchored in text from a replica this
/// one has never heard of, which `deletion_merge` leaves out.
#[verifier::external_body]
pub(crate) fn replica_integrate_deletion(r: &mut cola::Replica, del: &cola::Deletion) -> (res: Vec<
    (usize, usize),
>)
    requires
        deletion_merge(*old(r), *del) is Some,
    ensures
        deletion_merge(*old(r), *del) == Some((res@, *final(r))),
        replica_owner(*final(r)) == replica_owner(*old(r)),
        ranges_sorted_within(res@, replica_len(*old(r))),
        replica_len(*final(r)) == replica_len(*old(r)) - ranges_total(res@),
{
    r.integrate_deletion(del).into_iter().map(|range| (range.start, range.end)).collect()
}

/// `cola::Replica::encode`: the replica in cola's binary exchange format,
/// carrying the document length of the replica; it is stamped with the
/// current protocol version and the checksum of its bytes, so `decode`
/// accepts it. The encoding depends on the replica alone. A replica decoded
/// from it under an id fresh to this one holds the same document state with
/// its own clock at zero: this replica then keeps pace with the edits made
/// on the decoded one. Each lands (cola's `can_merge_insertion` and
/// `can_merge_deletion` hold, this replica having no edit of that id) at
/// the offset or as the range it was made at, the trees being the same.
#[verifier::external_body]
pub(crate) fn replica_encode(r: &cola::Replica) -> (e: cola::EncodedReplica)
    ensures
        e == replica_encoding(*r),
        encoded_len(e) == replica_len(*r),
        decodable(e),
        forall|id: u64|
            #![trigger replica_decoded(id, e)]
            fresh_to(*r, id) ==> (replica_decoded(id, e) matches Some(d) ==> replica_mirrors(d, *r)),
{
    r.encode()
}

/// `cola::Replica::decode`: rebuilds a replica under the id `id` from an
/// encoded one; it panics on the id zero. It succeeds exactly on the
/// encodings it accepts (protocol version, checksum, well-formed data),
/// whatever the id, gives the replica named by `replica_decoded`, and a
/// decoded replica tracks the document length the encoding carries and is
/// owned by `id`. It holds the document state of the replica that was
/// encoded, with the clock of `id` set to zero (`fork_in_place(id, 0)`); when
/// `id` is fresh to that replica it keeps pace with the edits made on it,
/// and that replica with the edits made on this one, each landing where it
/// was made (as for `replica_encode`).
#[verifier::external_body]
pub(crate) fn replica_decode(id: u64, encoded: &cola::EncodedReplica) -> (res: Result<
    cola::Replica,
    cola::DecodeError,
>)
    requires
        id != 0,
    ensures
        res is Ok <==> decodable(*encoded),
        match res {
            Ok(r) => replica_decoded(id, *encoded) == Some(r),
            Err(_) => replica_decoded(id, *encoded) is None,
        },
        res matches Ok(r) ==> replica_len(r) == encoded_len(*encoded),
        res matches Ok(r) ==> replica_owner(r) == id,
        res matches Ok(r) ==> forall|a: cola::Replica|
            #![trigger replica_encoding(a)]
            replica_encoding(a) == *encoded && fresh_to(a, id) ==> replica_mirrors(a, r)
                && replica_mirrors(r, a),
{
    cola::Replica::decode(id, encoded)
}

} // verus!
