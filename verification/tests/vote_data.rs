use bincode::Options;
use hotshot_consensus::bytes::{read_u32, read_u64, write_u64};
use hotshot_consensus::data::{Commitment, VoteData};

fn commitment(seed: u8) -> Commitment {
    let mut bytes = [0u8; 32];
    let mut i = 0;
    while i < 32 {
        bytes[i] = seed.wrapping_add(i as u8);
        i += 1;
    }
    Commitment { bytes }
}

#[test]
fn yes_vote_bytes_are_tag_then_commitment() {
    let c = commitment(7);
    let bytes = VoteData::Yes(c).as_bytes();
    assert_eq!(bytes.len(), 36);
    assert_eq!(&bytes[0..4], &[1u8, 0, 0, 0]);
    assert_eq!(&bytes[4..36], &c.bytes[..]);
}

#[test]
fn da_and_no_vote_bytes_differ_only_in_the_tag() {
    let c = commitment(200);
    let da = VoteData::DA(c).as_bytes();
    let no = VoteData::No(c).as_bytes();
    assert_eq!(&da[0..4], &[0u8, 0, 0, 0]);
    assert_eq!(&no[0..4], &[2u8, 0, 0, 0]);
    assert_eq!(&da[4..], &no[4..]);
    assert_ne!(da, no);
}

#[test]
fn timeout_vote_bytes_are_tag_then_little_endian_view() {
    let bytes = VoteData::Timeout(0x0102030405060708).as_bytes();
    assert_eq!(bytes, vec![3u8, 0, 0, 0, 8, 7, 6, 5, 4, 3, 2, 1]);
}

#[test]
fn bytes_are_those_of_a_fixed_width_little_endian_pair() {
    let options = bincode::DefaultOptions::new()
        .with_no_limit()
        .with_little_endian()
        .with_fixint_encoding()
        .reject_trailing_bytes();
    let c = commitment(99);
    assert_eq!(VoteData::DA(c).as_bytes(), options.serialize(&(0u32, c.bytes)).unwrap());
    assert_eq!(VoteData::Timeout(77).as_bytes(), options.serialize(&(3u32, 77u64)).unwrap());
}

#[test]
fn every_variant_survives_encode_then_decode() {
    let c = commitment(31);
    for data in [VoteData::DA(c), VoteData::Yes(c), VoteData::No(c), VoteData::Timeout(0), VoteData::Timeout(u64::MAX)] {
        assert_eq!(VoteData::from_bytes(&data.as_bytes()), Some(data));
    }
}

#[test]
fn decoding_refuses_what_is_not_canonical() {
    assert_eq!(VoteData::from_bytes(&[]), None);
    assert_eq!(VoteData::from_bytes(&[3, 0, 0, 0]), None);
    // a commitment tag in front of a view number
    assert_eq!(VoteData::from_bytes(&[1, 0, 0, 0, 9, 0, 0, 0, 0, 0, 0, 0]), None);
    // the timeout tag in front of a commitment
    let mut bytes = VoteData::Yes(commitment(1)).as_bytes();
    bytes[0] = 3;
    assert_eq!(VoteData::from_bytes(&bytes), None);
    // an unknown tag
    bytes[0] = 4;
    assert_eq!(VoteData::from_bytes(&bytes), None);
    // a tag that is not little-endian
    let mut bytes = VoteData::Yes(commitment(1)).as_bytes();
    bytes[3] = 1;
    assert_eq!(VoteData::from_bytes(&bytes), None);
    // one byte too many
    let mut bytes = VoteData::Timeout(5).as_bytes();
    bytes.push(0);
    assert_eq!(VoteData::from_bytes(&bytes), None);
}

#[test]
fn same_as_tells_votes_apart() {
    let c = commitment(3);
    let d = commitment(4);
    assert!(VoteData::Yes(c).same_as(&VoteData::Yes(c)));
    assert!(!VoteData::Yes(c).same_as(&VoteData::Yes(d)));
    assert!(!VoteData::Yes(c).same_as(&VoteData::No(c)));
    assert!(VoteData::Timeout(4).same_as(&VoteData::Timeout(4)));
    assert!(!VoteData::Timeout(4).same_as(&VoteData::Timeout(5)));
    assert!(c.same_as(&c));
    assert!(!c.same_as(&d));
}

#[test]
fn integers_are_written_lowest_byte_first() {
    assert_eq!(write_u64(0), vec![0; 8]);
    assert_eq!(write_u64(0x0102030405060708), vec![8, 7, 6, 5, 4, 3, 2, 1]);
    assert_eq!(write_u64(u64::MAX), vec![0xFF; 8]);
    assert_eq!(read_u64(&[8, 7, 6, 5, 4, 3, 2, 1]), 0x0102030405060708);
    assert_eq!(read_u64(&[0xFF; 8]), u64::MAX);
    assert_eq!(read_u32(&[4, 3, 2, 1]), 0x01020304);
    assert_eq!(read_u32(&[0xFF; 4]), u32::MAX);
    for value in [0u64, 1, 255, 256, 65535, 1 << 32, u64::MAX - 1] {
        assert_eq!(read_u64(&write_u64(value)), value);
        assert_eq!(write_u64(value), value.to_le_bytes().to_vec());
    }
}
