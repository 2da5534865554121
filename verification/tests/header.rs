use par2_packets::header::{
    HEADER_LEN, MAGIC_PKT, TYPE_CREATOR, TYPE_FILEDESC, TYPE_IFSC, TYPE_MAIN, TYPE_RECVSLICE,
};
use par2_packets::{read_header, Header, Md5Reader, PacketType, ParseError, ReadHasher};

const SET_ID: [u8; 16] = [
    0xa0, 0xa1, 0xa2, 0xa3, 0xa4, 0xa5, 0xa6, 0xa7, 0xa8, 0xa9, 0xaa, 0xab, 0xac, 0xad, 0xae, 0xaf,
];
const DIGEST: [u8; 16] = [
    0xd0, 0xd1, 0xd2, 0xd3, 0xd4, 0xd5, 0xd6, 0xd7, 0xd8, 0xd9, 0xda, 0xdb, 0xdc, 0xdd, 0xde, 0xdf,
];

fn header_bytes(length: u64, tag: &[u8; 16]) -> Vec<u8> {
    let mut bytes = Vec::new();
    bytes.extend_from_slice(&MAGIC_PKT);
    bytes.extend_from_slice(&length.to_le_bytes());
    bytes.extend_from_slice(&DIGEST);
    bytes.extend_from_slice(&SET_ID);
    bytes.extend_from_slice(tag);
    bytes
}

#[test]
fn the_constants_spell_their_tags() {
    assert_eq!(&MAGIC_PKT, b"PAR2\0PKT");
    assert_eq!(&TYPE_MAIN, b"PAR 2.0\0Main\0\0\0\0");
    assert_eq!(&TYPE_FILEDESC, b"PAR 2.0\0FileDesc");
    assert_eq!(&TYPE_IFSC, b"PAR 2.0\0IFSC\0\0\0\0");
    assert_eq!(&TYPE_RECVSLICE, b"PAR 2.0\0RecvSlic");
    assert_eq!(&TYPE_CREATOR, b"PAR 2.0\0Creator\0");
    assert_eq!(HEADER_LEN, 64);
}

#[test]
fn an_empty_stream_ends_cleanly() {
    let mut reader = Md5Reader::new(Vec::new());
    assert!(matches!(read_header(&mut reader), Ok(None)));
    assert_eq!(reader.remaining(), 0);
}

#[test]
fn a_header_is_read_field_by_field() {
    let mut bytes = header_bytes(0x0102_0304_0506_0708, &TYPE_MAIN);
    bytes.extend_from_slice(&[1, 2, 3]);
    let mut reader = Md5Reader::new(bytes);
    let header = read_header(&mut reader).unwrap().unwrap();
    assert_eq!(header.magic, MAGIC_PKT);
    assert_eq!(header.length, 0x0102_0304_0506_0708);
    assert_eq!(header.packet_md5, DIGEST);
    assert_eq!(header.recovery_set_id, SET_ID);
    assert_eq!(header.t, TYPE_MAIN);
    assert_eq!(reader.remaining(), 3);
}

#[test]
fn the_digest_starts_at_the_recovery_set_id() {
    let bytes = header_bytes(64, &TYPE_CREATOR);
    let mut reader = Md5Reader::new(bytes.clone());
    read_header(&mut reader).unwrap().unwrap();
    assert_eq!(reader.compute().0, md5::compute(&bytes[32..]).0);
}

#[test]
fn a_partial_magic_is_not_a_clean_end() {
    for n in 1..8 {
        let mut reader = Md5Reader::new(MAGIC_PKT[..n].to_vec());
        assert!(matches!(read_header(&mut reader), Err(ParseError::IoFailure)));
        assert_eq!(reader.remaining(), 0);
    }
}

#[test]
fn a_wrong_magic_is_a_mismatch() {
    let mut bytes = header_bytes(64, &TYPE_MAIN);
    bytes[3] = b'3';
    let mut reader = Md5Reader::new(bytes);
    assert!(matches!(read_header(&mut reader), Err(ParseError::MagicMismatch)));
    assert_eq!(reader.remaining(), 56);
}

#[test]
fn a_wrong_magic_counts_before_a_short_stream() {
    let mut reader = Md5Reader::new(b"PAR1\0PKT".to_vec());
    assert!(matches!(read_header(&mut reader), Err(ParseError::MagicMismatch)));
}

#[test]
fn a_header_cut_short_is_an_io_failure() {
    let bytes = header_bytes(64, &TYPE_MAIN);
    for n in 8..64 {
        let mut reader = Md5Reader::new(bytes[..n].to_vec());
        assert!(matches!(read_header(&mut reader), Err(ParseError::IoFailure)));
        assert_eq!(reader.remaining(), 0);
    }
}

#[test]
fn a_length_below_the_header_size_is_malformed() {
    for length in [0u64, 1, 55, 56, 63] {
        let mut bytes = header_bytes(length, &TYPE_MAIN);
        bytes.extend_from_slice(&[0u8; 32]);
        let mut reader = Md5Reader::new(bytes);
        assert!(matches!(read_header(&mut reader), Err(ParseError::MalformedHeader)));
        // the header is read, and not one byte of what follows it
        assert_eq!(reader.remaining(), 32);
    }
}

#[test]
fn a_length_of_the_header_size_is_accepted() {
    let mut reader = Md5Reader::new(header_bytes(64, &TYPE_MAIN));
    let header = read_header(&mut reader).unwrap().unwrap();
    assert_eq!(header.length, 64);
    assert_eq!(header.remaining(), Ok(0));
}

#[test]
fn remaining_is_the_length_less_the_header() {
    let mut header = Header::default();
    header.length = 64 + 1000;
    assert_eq!(header.remaining(), Ok(1000));
    header.length = u64::MAX;
    assert_eq!(header.remaining(), Ok(u64::MAX - 64));
    header.length = 63;
    assert_eq!(header.remaining(), Err(ParseError::MalformedHeader));
}

#[test]
fn type_tags_are_told_apart_byte_for_byte() {
    let mut header = Header::default();
    assert_eq!(header.packet_type(), PacketType::Unknown);
    header.t = TYPE_MAIN;
    assert_eq!(header.packet_type(), PacketType::Main);
    header.t = TYPE_FILEDESC;
    assert_eq!(header.packet_type(), PacketType::FileDesc);
    header.t = TYPE_IFSC;
    assert_eq!(header.packet_type(), PacketType::IFSC);
    header.t = TYPE_RECVSLICE;
    assert_eq!(header.packet_type(), PacketType::RecvSlice);
    header.t = TYPE_CREATOR;
    assert_eq!(header.packet_type(), PacketType::Creator);
    header.t[15] = 1;
    assert_eq!(header.packet_type(), PacketType::Unknown);
}

#[test]
fn the_default_header_is_all_zero() {
    let header = Header::default();
    assert_eq!(header.magic, [0u8; 8]);
    assert_eq!(header.length, 0);
    assert_eq!(header.packet_md5, [0u8; 16]);
    assert_eq!(header.recovery_set_id, [0u8; 16]);
    assert_eq!(header.t, [0u8; 16]);
}
