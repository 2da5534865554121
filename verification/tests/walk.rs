use par2_packets::header::{MAGIC_PKT, TYPE_CREATOR, TYPE_FILEDESC, TYPE_IFSC, TYPE_MAIN};
use par2_packets::{read_header, read_packet, walk, Body, Md5Reader, ParseError, ReadHasher};

const SET_ID: [u8; 16] = [
    0xa0, 0xa1, 0xa2, 0xa3, 0xa4, 0xa5, 0xa6, 0xa7, 0xa8, 0xa9, 0xaa, 0xab, 0xac, 0xad, 0xae, 0xaf,
];

/// MD5 of the main packet below, from its recovery-set id to its end.
const MAIN_DIGEST: [u8; 16] = [
    0xa3, 0x2c, 0x89, 0x75, 0xec, 0xd1, 0x0a, 0x2c, 0x51, 0x87, 0x11, 0x63, 0xd9, 0xb0, 0xbc, 0x9f,
];

/// MD5 of the slice checksum packet below, from its recovery-set id to its end.
const IFSC_DIGEST: [u8; 16] = [
    0xe0, 0x90, 0xdf, 0xa2, 0x24, 0x4a, 0x7a, 0x0c, 0xf1, 0x9a, 0xea, 0xa7, 0x35, 0x64, 0x87, 0xe2,
];

fn framed(digest: &[u8; 16], tag: &[u8; 16], body: &[u8]) -> Vec<u8> {
    let mut bytes = Vec::new();
    bytes.extend_from_slice(&MAGIC_PKT);
    bytes.extend_from_slice(&(64 + body.len() as u64).to_le_bytes());
    bytes.extend_from_slice(digest);
    bytes.extend_from_slice(&SET_ID);
    bytes.extend_from_slice(tag);
    bytes.extend_from_slice(body);
    bytes
}

/// A packet whose header carries the digest of its own bytes.
fn sealed(tag: &[u8; 16], body: &[u8]) -> Vec<u8> {
    let unsealed = framed(&[0u8; 16], tag, body);
    framed(&md5::compute(&unsealed[32..]).0, tag, body)
}

fn main_fixture_body() -> Vec<u8> {
    let mut body = Vec::new();
    body.extend_from_slice(&1024u64.to_le_bytes());
    body.extend_from_slice(&2u32.to_le_bytes());
    body.extend_from_slice(&[0x11; 16]);
    body.extend_from_slice(&[0x22; 16]);
    body
}

fn ifsc_fixture_body() -> Vec<u8> {
    let mut body = Vec::new();
    body.extend_from_slice(&[0x11; 16]);
    body.extend_from_slice(&[0x31; 16]);
    body.extend_from_slice(&0xdead_beefu32.to_le_bytes());
    body.extend_from_slice(&[0x32; 16]);
    body.extend_from_slice(&1u32.to_le_bytes());
    body.extend_from_slice(&[0x33; 16]);
    body.extend_from_slice(&0x1234_5678u32.to_le_bytes());
    body
}

fn file_desc_fixture_body(name: &[u8]) -> Vec<u8> {
    let mut body = Vec::new();
    body.extend_from_slice(&[0x01; 16]);
    body.extend_from_slice(&[0x02; 16]);
    body.extend_from_slice(&[0x03; 16]);
    body.extend_from_slice(&123u64.to_le_bytes());
    body.extend_from_slice(name);
    body
}

#[test]
fn a_main_and_a_slice_checksum_packet_end_to_end() {
    let mut stream = framed(&MAIN_DIGEST, &TYPE_MAIN, &main_fixture_body());
    stream.extend_from_slice(&framed(&IFSC_DIGEST, &TYPE_IFSC, &ifsc_fixture_body()));
    assert_eq!(stream.len(), 108 + 140);

    let mut reader = Md5Reader::new(stream);
    let result = walk(&mut reader);
    assert_eq!(result.failure, None);
    assert_eq!(result.packets.len(), 2);

    let first = &result.packets[0];
    assert_eq!(first.header.length, 108);
    assert_eq!(first.header.recovery_set_id, SET_ID);
    assert_eq!(first.header.t, TYPE_MAIN);
    assert_eq!(first.computed_md5, MAIN_DIGEST);
    assert_eq!(first.header.packet_md5, MAIN_DIGEST);
    assert_eq!(first.verify(), Ok(()));
    match &first.body {
        Ok(Body::Main(main)) => {
            assert_eq!(main.size, 1024);
            assert_eq!(main.files, 2);
            assert_eq!(main.recovery_set, vec![[0x11u8; 16], [0x22u8; 16]]);
            assert!(main.non_recovery_set.is_empty());
        }
        other => panic!("not a main packet: {:?}", other),
    }

    let second = &result.packets[1];
    assert_eq!(second.header.length, 140);
    assert_eq!(second.header.t, TYPE_IFSC);
    assert_eq!(second.computed_md5, IFSC_DIGEST);
    assert_eq!(second.verify(), Ok(()));
    match &second.body {
        Ok(Body::IFSC(ifsc)) => {
            assert_eq!(ifsc.id, [0x11u8; 16]);
            assert_eq!(ifsc.hashes.len(), 3);
            assert_eq!(ifsc.hashes[0].md5, [0x31u8; 16]);
            assert_eq!(ifsc.hashes[0].crc32, 0xdead_beef);
            assert_eq!(ifsc.hashes[1].md5, [0x32u8; 16]);
            assert_eq!(ifsc.hashes[1].crc32, 1);
            assert_eq!(ifsc.hashes[2].md5, [0x33u8; 16]);
            assert_eq!(ifsc.hashes[2].crc32, 0x1234_5678);
        }
        other => panic!("not a slice checksum packet: {:?}", other),
    }

    // the stream is at its end, at a packet boundary
    assert_eq!(reader.remaining(), 0);
    assert!(matches!(read_header(&mut reader), Ok(None)));
    assert!(matches!(read_packet(&mut reader), Ok(None)));
}

#[test]
fn packets_come_one_by_one() {
    let mut stream = framed(&MAIN_DIGEST, &TYPE_MAIN, &main_fixture_body());
    stream.extend_from_slice(&framed(&IFSC_DIGEST, &TYPE_IFSC, &ifsc_fixture_body()));
    let mut reader = Md5Reader::new(stream);
    let first = read_packet(&mut reader).unwrap().unwrap();
    assert!(matches!(first.body, Ok(Body::Main(_))));
    assert_eq!(reader.remaining(), 140);
    let second = read_packet(&mut reader).unwrap().unwrap();
    assert!(matches!(second.body, Ok(Body::IFSC(_))));
    assert_eq!(reader.remaining(), 0);
    assert!(matches!(read_packet(&mut reader), Ok(None)));
}

#[test]
fn the_fixture_digests_are_those_of_the_packets() {
    let main = framed(&MAIN_DIGEST, &TYPE_MAIN, &main_fixture_body());
    assert_eq!(md5::compute(&main[32..]).0, MAIN_DIGEST);
    let ifsc = framed(&IFSC_DIGEST, &TYPE_IFSC, &ifsc_fixture_body());
    assert_eq!(md5::compute(&ifsc[32..]).0, IFSC_DIGEST);
}

#[test]
fn an_empty_stream_has_no_packets() {
    let mut reader = Md5Reader::new(Vec::new());
    let result = walk(&mut reader);
    assert!(result.packets.is_empty());
    assert_eq!(result.failure, None);
}

#[test]
fn a_flipped_body_byte_is_a_checksum_mismatch() {
    let mut stream = framed(&MAIN_DIGEST, &TYPE_MAIN, &main_fixture_body());
    stream[64 + 20] ^= 0x01;
    let mut reader = Md5Reader::new(stream);
    let pkt = read_packet(&mut reader).unwrap().unwrap();
    assert_ne!(pkt.computed_md5, MAIN_DIGEST);
    assert_eq!(pkt.header.packet_md5, MAIN_DIGEST);
    assert_eq!(pkt.verify(), Err(ParseError::ChecksumMismatch));
    assert_eq!(reader.remaining(), 0);
}

#[test]
fn a_flipped_byte_before_the_recovery_set_id_is_not_hashed() {
    let mut stream = framed(&MAIN_DIGEST, &TYPE_MAIN, &main_fixture_body());
    // in the stored digest itself
    stream[16] ^= 0x01;
    let mut reader = Md5Reader::new(stream);
    let pkt = read_packet(&mut reader).unwrap().unwrap();
    assert_eq!(pkt.computed_md5, MAIN_DIGEST);
    assert_eq!(pkt.verify(), Err(ParseError::ChecksumMismatch));
}

#[test]
fn a_flipped_recovery_set_id_is_a_checksum_mismatch() {
    let mut stream = framed(&MAIN_DIGEST, &TYPE_MAIN, &main_fixture_body());
    stream[32] ^= 0x80;
    let mut reader = Md5Reader::new(stream);
    let pkt = read_packet(&mut reader).unwrap().unwrap();
    assert_ne!(pkt.computed_md5, MAIN_DIGEST);
    assert_eq!(pkt.verify(), Err(ParseError::ChecksumMismatch));
}

#[test]
fn a_checksum_mismatch_does_not_stop_the_walk() {
    let mut stream = framed(&MAIN_DIGEST, &TYPE_MAIN, &main_fixture_body());
    stream[64] ^= 0xff;
    stream.extend_from_slice(&framed(&IFSC_DIGEST, &TYPE_IFSC, &ifsc_fixture_body()));
    let mut reader = Md5Reader::new(stream);
    let result = walk(&mut reader);
    assert_eq!(result.failure, None);
    assert_eq!(result.packets.len(), 2);
    assert_eq!(result.packets[0].verify(), Err(ParseError::ChecksumMismatch));
    assert_eq!(result.packets[1].verify(), Ok(()));
}

#[test]
fn an_unknown_packet_is_stepped_over_and_hashed() {
    let mut tag = TYPE_MAIN;
    tag[8] = b'X';
    let body = [0x5a; 37];
    let mut stream = sealed(&tag, &body);
    stream.extend_from_slice(&sealed(&TYPE_CREATOR, b"made by hand"));
    stream.extend_from_slice(&framed(&IFSC_DIGEST, &TYPE_IFSC, &ifsc_fixture_body()));
    let mut reader = Md5Reader::new(stream);
    let result = walk(&mut reader);
    assert_eq!(result.failure, None);
    assert_eq!(result.packets.len(), 3);
    assert!(matches!(result.packets[0].body, Ok(Body::Skipped)));
    assert_eq!(result.packets[0].header.t, tag);
    assert_eq!(result.packets[0].verify(), Ok(()));
    assert!(matches!(result.packets[1].body, Ok(Body::Skipped)));
    assert_eq!(result.packets[1].verify(), Ok(()));
    assert!(matches!(result.packets[2].body, Ok(Body::IFSC(_))));
    assert_eq!(result.packets[2].verify(), Ok(()));
}

#[test]
fn an_unknown_packet_takes_as_much_as_a_known_one_of_its_length() {
    let body = main_fixture_body();
    let mut tag = TYPE_MAIN;
    tag[15] = b'?';
    let tail = [0xeeu8; 9];

    let mut known = sealed(&TYPE_MAIN, &body);
    known.extend_from_slice(&tail);
    let mut unknown = sealed(&tag, &body);
    unknown.extend_from_slice(&tail);

    let mut reader = Md5Reader::new(known);
    let pkt = read_packet(&mut reader).unwrap().unwrap();
    assert!(matches!(pkt.body, Ok(Body::Main(_))));
    let after_known = reader.remaining();

    let mut reader = Md5Reader::new(unknown);
    let pkt = read_packet(&mut reader).unwrap().unwrap();
    assert!(matches!(pkt.body, Ok(Body::Skipped)));
    assert_eq!(pkt.verify(), Ok(()));
    assert_eq!(reader.remaining(), after_known);
    assert_eq!(after_known, 9);
}

#[test]
fn a_name_that_is_not_text_fails_one_packet_only() {
    let mut stream = sealed(&TYPE_FILEDESC, &file_desc_fixture_body(&[0xc3, 0x28, 0, 0]));
    stream.extend_from_slice(&sealed(&TYPE_FILEDESC, &file_desc_fixture_body(b"ok.bin\0\0")));
    let mut reader = Md5Reader::new(stream);
    let result = walk(&mut reader);
    assert_eq!(result.failure, None);
    assert_eq!(result.packets.len(), 2);
    assert!(matches!(result.packets[0].body, Err(ParseError::TextDecodeFailure)));
    assert_eq!(result.packets[0].verify(), Ok(()));
    match &result.packets[1].body {
        Ok(Body::FileDesc(desc)) => {
            assert_eq!(desc.name, "ok.bin");
            assert_eq!(desc.length, 123);
        }
        other => panic!("not a file description: {:?}", other),
    }
    assert_eq!(result.packets[1].verify(), Ok(()));
}

#[test]
fn a_malformed_body_stops_the_walk() {
    let mut stream = sealed(&TYPE_CREATOR, b"first");
    // a slice checksum packet with 7 bytes behind its last pair
    let mut body = ifsc_fixture_body();
    body.extend_from_slice(&[0u8; 7]);
    stream.extend_from_slice(&sealed(&TYPE_IFSC, &body));
    stream.extend_from_slice(&sealed(&TYPE_CREATOR, b"never reached"));
    let mut reader = Md5Reader::new(stream);
    let result = walk(&mut reader);
    assert_eq!(result.packets.len(), 1);
    assert_eq!(result.failure, Some(ParseError::MalformedBody));
}

#[test]
fn a_length_below_the_header_size_stops_the_walk_at_the_body() {
    let mut stream = sealed(&TYPE_CREATOR, b"first");
    let mut short = framed(&[0u8; 16], &TYPE_MAIN, &main_fixture_body());
    short[8..16].copy_from_slice(&55u64.to_le_bytes());
    let body_len = short.len() - 64;
    stream.extend_from_slice(&short);
    let mut reader = Md5Reader::new(stream);
    let result = walk(&mut reader);
    assert_eq!(result.packets.len(), 1);
    assert_eq!(result.failure, Some(ParseError::MalformedHeader));
    assert_eq!(reader.remaining(), body_len);
}

#[test]
fn a_wrong_magic_stops_the_walk() {
    let mut stream = sealed(&TYPE_CREATOR, b"first");
    stream.extend_from_slice(b"garbage that is no packet");
    let mut reader = Md5Reader::new(stream);
    let result = walk(&mut reader);
    assert_eq!(result.packets.len(), 1);
    assert_eq!(result.failure, Some(ParseError::MagicMismatch));
}

#[test]
fn a_stream_cut_inside_a_packet_is_an_io_failure() {
    let whole = sealed(&TYPE_MAIN, &main_fixture_body());
    for n in 1..whole.len() {
        let mut reader = Md5Reader::new(whole[..n].to_vec());
        let result = walk(&mut reader);
        assert!(result.packets.is_empty());
        assert_eq!(result.failure, Some(ParseError::IoFailure));
        assert_eq!(reader.remaining(), 0);
    }
}

#[test]
fn an_unknown_packet_cut_short_is_an_io_failure() {
    let whole = sealed(&TYPE_CREATOR, b"a creator string");
    let mut reader = Md5Reader::new(whole[..whole.len() - 1].to_vec());
    let result = walk(&mut reader);
    assert!(result.packets.is_empty());
    assert_eq!(result.failure, Some(ParseError::IoFailure));
}

#[test]
fn the_digest_is_empty_again_after_each_packet() {
    let stream = sealed(&TYPE_CREATOR, b"first");
    let mut reader = Md5Reader::new(stream);
    read_packet(&mut reader).unwrap().unwrap();
    assert_eq!(reader.compute().0, md5::compute(b"").0);
}
