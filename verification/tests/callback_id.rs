use websub_sub::util::callback_id::{decode, encode, id_to_le_bytes, le_u64};

#[test]
fn encodes_small_ids_without_the_top_zero_bytes() {
    assert_eq!(encode(&1u64.to_le_bytes()), "AQ");
    assert_eq!(encode(&2u64.to_le_bytes()), "Ag");
    assert_eq!(encode(&42u64.to_le_bytes()), "Kg");
    assert_eq!(encode(&0x00ff_ffff_ffff_ffffu64.to_le_bytes()), "_________w");
    assert_eq!(encode(&0u64.to_le_bytes()), "");
}

#[test]
fn encodes_ids_without_zero_bytes_whole() {
    assert_eq!(encode(&0x0102030405060708u64.to_le_bytes()), "CAcGBQQDAgE");
}

#[test]
fn decode_gives_back_encoded_ids() {
    for id in [0u64, 1, 2, 42, 0x00ff_ffff_ffff_ffff, 0x0102030405060708, u64::MAX] {
        assert_eq!(decode(&encode(&id.to_le_bytes())), Some(id));
    }
}

#[test]
fn ids_with_inner_zero_bytes_come_back() {
    let id = 0x0100000000000001u64;
    assert_eq!(encode(&id.to_le_bytes()), "AQAAAAAAAAE");
    assert_eq!(decode(&encode(&id.to_le_bytes())), Some(id));
    for id in [0x0000_0100_0000_0001u64, 0x0100_0000_0000_0000, 0x00ff_0000_ff00_0000] {
        assert_eq!(decode(&encode(&id.to_le_bytes())), Some(id));
    }
}

#[test]
fn decode_rejects_long_or_invalid_segments() {
    assert_eq!(decode("AAAAAAAAAAAA"), None);
    assert_eq!(decode("A/A"), None);
    assert_eq!(decode("A"), None);
    assert_eq!(decode(""), Some(0));
}

#[test]
fn le_bytes_match_std() {
    for id in [0u64, 1, 0x0102030405060708, u64::MAX] {
        assert_eq!(id_to_le_bytes(id), id.to_le_bytes());
    }
}

#[test]
fn le_u64_reads_little_endian() {
    assert_eq!(le_u64(&[]), 0);
    assert_eq!(le_u64(&[1]), 1);
    assert_eq!(le_u64(&[0, 1]), 256);
    assert_eq!(le_u64(&[8, 7, 6, 5, 4, 3, 2, 1]), 0x0102030405060708);
}
