//! Fresh identifiers from random (version 4) UUIDs: the replica id of each
//! editor instance.

use vstd::prelude::*;

verus! {

/// The sixteen bytes of a fresh random UUID (`uuid::Uuid::new_v4`, then
/// `Uuid::as_bytes`). The bytes are random; of them only the version and
/// variant bits that `new_v4` fixes are stated: the high nibble of byte 6
/// is 4 and the two high bits of byte 8 are `10`.
#[verifier::external_body]
pub(crate) fn uuid_v4_bytes() -> (b: Vec<u8>)
    ensures
        b@.len() == 16,
        b@[6] / 16 == 4,
        b@[8] / 64 == 2,
{
    uuid::Uuid::new_v4().as_bytes().to_vec()
}

/// The big-endian number the bytes `s` spell.
pub open spec fn big_endian(s: Seq<u8>) -> nat
    decreases s.len(),
{
    if s.len() == 0 {
        0
    } else {
        big_endian(s.drop_last()) * 256 + s.last() as nat
    }
}

/// `256` to the power `n`.
pub open spec fn pow256(n: nat) -> nat
    decreases n,
{
    if n == 0 {
        1
    } else {
        256 * pow256((n - 1) as nat)
    }
}

/// The replica id a UUID gives: its low 64 bits (the UUID read as a
/// big-endian 128-bit number, truncated), with the lowest bit set so that
/// it is odd and never zero.
pub open spec fn replica_id_of(bytes: Seq<u8>) -> int {
    let low = big_endian(bytes.subrange(8, 16));
    if low % 2 == 0 {
        low + 1int
    } else {
        low as int
    }
}

/// The replica id for the UUID `bytes`.
pub fn replica_id_from_uuid(bytes: &Vec<u8>) -> (id: u64)
    requires
        bytes@.len() == 16,
    ensures
        id == replica_id_of(bytes@),
        id % 2 == 1,
{
    let mut v: u64 = 0;
    let mut i: usize = 8;
    proof {
        assert(bytes@.subrange(8, 8) =~= Seq::<u8>::empty());
    }
    while i < 16
        invariant
            bytes@.len() == 16,
            8 <= i <= 16,
            v == big_endian(bytes@.subrange(8, i as int)),
            v < pow256((i - 8) as nat),
        decreases 16 - i,
    {
        proof {
            assert(bytes@.subrange(8, i + 1).drop_last() =~= bytes@.subrange(8, i as int));
            assert(pow256((i + 1 - 8) as nat) == 256 * pow256((i - 8) as nat));
            reveal_with_fuel(pow256, 9);
            assert(pow256(8) == 0x1_0000_0000_0000_0000);
            lemma_pow256_mono((i + 1 - 8) as nat, 8);
        }
        v = v * 256 + bytes[i] as u64;
        i += 1;
    }
    let id = v | 1;
    assert(id == if v % 2 == 0 { v + 1 } else { v as int }) by (bit_vector)
        requires
            id == v | 1;
    id
}

proof fn lemma_pow256_mono(a: nat, b: nat)
    requires
        a <= b,
    ensures
        pow256(a) <= pow256(b),
    decreases b,
{
    if a < b {
        lemma_pow256_mono(a, (b - 1) as nat);
    }
}

/// Whether `b` has the shape of a version 4 UUID's bytes: sixteen bytes,
/// version nibble 4, variant bits `10`.
pub open spec fn v4_shaped(b: Seq<u8>) -> bool {
    b.len() == 16 && b[6] / 16 == 4 && b[8] / 64 == 2
}

/// A fresh replica id from a random UUID: the replica id of some version 4
/// UUID (its low 64 bits with the lowest bit set), so odd and never zero.
pub fn fresh_replica_id() -> (id: u64)
    ensures
        exists|b: Seq<u8>| v4_shaped(b) && id == replica_id_of(b),
        id % 2 == 1,
{
    let bytes = uuid_v4_bytes();
    let id = replica_id_from_uuid(&bytes);
    assert(v4_shaped(bytes@));
    id
}

} // verus!
