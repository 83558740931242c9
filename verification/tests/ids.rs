use fluxtex::ids::{fresh_replica_id, replica_id_from_uuid};

#[test]
fn replica_id_takes_low_half_and_sets_bit() {
    let bytes: Vec<u8> = (0u8..16).collect();
    assert_eq!(replica_id_from_uuid(&bytes), 0x0809_0a0b_0c0d_0e0f);
    let mut even = vec![0u8; 16];
    even[15] = 2;
    assert_eq!(replica_id_from_uuid(&even), 3);
    let zero = vec![0xffu8; 8].into_iter().chain(vec![0u8; 8]).collect::<Vec<u8>>();
    assert_eq!(replica_id_from_uuid(&zero), 1);
}

#[test]
fn replica_id_matches_uuid_low_bits() {
    let u = uuid::Uuid::from_u128(0x1234_5678_9abc_def0_0fed_cba9_8765_4320);
    let expected = ((u.as_u128() as u64) | 1).max(1);
    assert_eq!(replica_id_from_uuid(&u.as_bytes().to_vec()), expected);
}

#[test]
fn fresh_replica_ids_are_odd() {
    for _ in 0..32 {
        let id = fresh_replica_id();
        assert_eq!(id % 2, 1);
    }
}
