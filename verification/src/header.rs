//! The fixed header that frames every packet.
use crate::bytes::{bytes_equal, le_u64, le_value};
use crate::error::ParseError;
use crate::md5_reader::{Md5Reader, ReadHasher};
use vstd::prelude::*;

verus! {

/// "PAR2\0PKT"
pub const MAGIC_PKT: [u8; 8] = [0x50, 0x41, 0x52, 0x32, 0x00, 0x50, 0x4b, 0x54];

/// "PAR 2.0\0Main\0\0\0\0"
pub const TYPE_MAIN: [u8; 16] = [
    0x50, 0x41, 0x52, 0x20, 0x32, 0x2e, 0x30, 0x00, 0x4d, 0x61, 0x69, 0x6e, 0x00, 0x00, 0x00, 0x00,
];

/// "PAR 2.0\0FileDesc"
pub const TYPE_FILEDESC: [u8; 16] = [
    0x50, 0x41, 0x52, 0x20, 0x32, 0x2e, 0x30, 0x00, 0x46, 0x69, 0x6c, 0x65, 0x44, 0x65, 0x73, 0x63,
];

/// "PAR 2.0\0IFSC\0\0\0\0"
pub const TYPE_IFSC: [u8; 16] = [
    0x50, 0x41, 0x52, 0x20, 0x32, 0x2e, 0x30, 0x00, 0x49, 0x46, 0x53, 0x43, 0x00, 0x00, 0x00, 0x00,
];

/// "PAR 2.0\0RecvSlic"
pub const TYPE_RECVSLICE: [u8; 16] = [
    0x50, 0x41, 0x52, 0x20, 0x32, 0x2e, 0x30, 0x00, 0x52, 0x65, 0x63, 0x76, 0x53, 0x6c, 0x69, 0x63,
];

/// "PAR 2.0\0Creator\0"
pub const TYPE_CREATOR: [u8; 16] = [
    0x50, 0x41, 0x52, 0x20, 0x32, 0x2e, 0x30, 0x00, 0x43, 0x72, 0x65, 0x61, 0x74, 0x6f, 0x72, 0x00,
];

/// 8 + 8 + 16 + 16 + 16: magic, length, packet digest, recovery-set id, type.
pub const HEADER_LEN: u64 = 64;

/// How many bytes of the header come before the part that the digest covers.
pub const UNHASHED_LEN: u64 = 32;

/// The 64 bytes in front of every packet body.
#[derive(Debug)]
pub struct Header {
    /// {'P', 'A', 'R', '2', '\0', 'P', 'K', 'T'}
    pub magic: [u8; 8],
    /// Length of the whole packet, header included.
    pub length: u64,
    /// MD5 of the packet from `recovery_set_id` to the end of the body.
    pub packet_md5: [u8; 16],
    /// The same in every packet of one recovery set.
    pub recovery_set_id: [u8; 16],
    /// Type tag: ASCII, padded with zero bytes.
    pub t: [u8; 16],
}

/// A header as plain values.
pub struct HeaderView {
    pub magic: Seq<u8>,
    pub length: nat,
    pub packet_md5: Seq<u8>,
    pub recovery_set_id: Seq<u8>,
    pub t: Seq<u8>,
}

impl View for Header {
    type V = HeaderView;

    open spec fn view(&self) -> HeaderView {
        HeaderView {
            magic: self.magic@,
            length: self.length as nat,
            packet_md5: self.packet_md5@,
            recovery_set_id: self.recovery_set_id@,
            t: self.t@,
        }
    }
}

/// The header that the first 64 bytes of `bytes` spell.
///
/// | offset | size | field                        |
/// |--------|------|------------------------------|
/// | 0      | 8    | magic                        |
/// | 8      | 8    | packet length, little-endian |
/// | 16     | 16   | packet digest                |
/// | 32     | 16   | recovery-set id              |
/// | 48     | 16   | type tag                     |
pub open spec fn header_of(bytes: Seq<u8>) -> HeaderView {
    HeaderView {
        magic: bytes.subrange(0, 8),
        length: le_value(bytes.subrange(8, 16)),
        packet_md5: bytes.subrange(16, 32),
        recovery_set_id: bytes.subrange(32, 48),
        t: bytes.subrange(48, 64),
    }
}

impl Default for Header {
    fn default() -> (header: Header)
        ensures
            header.magic@ == Seq::new(8, |i: int| 0u8),
            header.length == 0,
            header.packet_md5@ == Seq::new(16, |i: int| 0u8),
            header.recovery_set_id@ == Seq::new(16, |i: int| 0u8),
            header.t@ == Seq::new(16, |i: int| 0u8),
    {
        let header = Header {
            magic: [0u8;8],
            length: 0,
            packet_md5: [0u8;16],
            recovery_set_id: [0u8;16],
            t: [0u8;16],
        };
        assert(header.magic@ =~= Seq::new(8, |i: int| 0u8));
        assert(header.packet_md5@ =~= Seq::new(16, |i: int| 0u8));
        assert(header.recovery_set_id@ =~= Seq::new(16, |i: int| 0u8));
        assert(header.t@ =~= Seq::new(16, |i: int| 0u8));
        header
    }
}

/// What the type tag of a header says the body is.
#[derive(Clone, Copy, Debug, PartialEq, Eq, Structural)]
pub enum PacketType {
    Main,
    FileDesc,
    IFSC,
    RecvSlice,
    Creator,
    /// Any tag but the five above.
    Unknown,
}

/// The packet type that a 16-byte tag names: one of the five known tags, byte
/// for byte, or `Unknown`.
pub open spec fn packet_type_of(tag: Seq<u8>) -> PacketType {
    if tag == TYPE_MAIN@ {
        PacketType::Main
    } else if tag == TYPE_FILEDESC@ {
        PacketType::FileDesc
    } else if tag == TYPE_IFSC@ {
        PacketType::IFSC
    } else if tag == TYPE_RECVSLICE@ {
        PacketType::RecvSlice
    } else if tag == TYPE_CREATOR@ {
        PacketType::Creator
    } else {
        PacketType::Unknown
    }
}

impl Header {
    /// The type of the packet that the header frames.
    pub fn packet_type(&self) -> (kind: PacketType)
        ensures
            kind == packet_type_of(self.t@),
    {
        if bytes_equal(&self.t, &TYPE_MAIN) {
            PacketType::Main
        } else if bytes_equal(&self.t, &TYPE_FILEDESC) {
            PacketType::FileDesc
        } else if bytes_equal(&self.t, &TYPE_IFSC) {
            PacketType::IFSC
        } else if bytes_equal(&self.t, &TYPE_RECVSLICE) {
            PacketType::RecvSlice
        } else if bytes_equal(&self.t, &TYPE_CREATOR) {
            PacketType::Creator
        } else {
            PacketType::Unknown
        }
    }

    /// The length that the header declares for the body, or `MalformedHeader`
    /// where the declared packet length has no room for the header itself.
    pub fn remaining(&self) -> (r: Result<u64, ParseError>)
        ensures
            match r {
                Ok(n) => self.length >= HEADER_LEN && n == self.length - HEADER_LEN,
                Err(e) => self.length < HEADER_LEN && e == ParseError::MalformedHeader,
            },
    {
        if self.length < HEADER_LEN {
            Err(ParseError::MalformedHeader)
        } else {
            Ok(self.length - HEADER_LEN)
        }
    }
}

/// Why no header can be read from a stream whose unread bytes are `rest`, if
/// none can.  An empty `rest` is no error but the end of the stream.
pub open spec fn header_error(rest: Seq<u8>) -> Option<ParseError> {
    if rest.len() == 0 {
        None
    } else if rest.len() < 8 {
        Some(ParseError::IoFailure)
    } else if rest.take(8) != MAGIC_PKT@ {
        Some(ParseError::MagicMismatch)
    } else if rest.len() < HEADER_LEN {
        Some(ParseError::IoFailure)
    } else if header_of(rest).length < HEADER_LEN {
        Some(ParseError::MalformedHeader)
    } else {
        None
    }
}

/// How many bytes reading a header takes from such a stream: the magic alone
/// where it is wrong, the whole header where there is one, and all that is
/// left where the stream ends before that.
pub open spec fn header_consumed(rest: Seq<u8>) -> nat {
    if rest.len() < 8 {
        rest.len()
    } else if rest.take(8) != MAGIC_PKT@ {
        8
    } else if rest.len() < HEADER_LEN {
        rest.len()
    } else {
        HEADER_LEN as nat
    }
}

/// What the digest holds after reading a header from such a stream, where
/// `hashed` is what it held before.  Once magic, length and packet digest are
/// read the digest is emptied, so that it covers the packet from the
/// recovery-set id on.
pub open spec fn header_hashed(hashed: Seq<u8>, rest: Seq<u8>) -> Seq<u8> {
    if rest.len() >= UNHASHED_LEN && rest.take(8) == MAGIC_PKT@ {
        rest.subrange(UNHASHED_LEN as int, header_consumed(rest) as int)
    } else {
        hashed + rest.take(header_consumed(rest) as int)
    }
}

/// Reads the header of the next packet, or finds the stream at its end.
///
/// `Ok(None)` is the clean end: not one byte is left at the packet boundary.
/// A stream that ends anywhere inside the header is an `IoFailure`.
pub fn read_header(reader: &mut Md5Reader) -> (r: Result<Option<Header>, ParseError>)
    ensures
        match r {
            Ok(None) => old(reader).upcoming().len() == 0,
            Ok(Some(header)) => old(reader).upcoming().len() > 0 && header_error(
                old(reader).upcoming(),
            ) is None && header@ == header_of(old(reader).upcoming()),
            Err(e) => header_error(old(reader).upcoming()) == Some(e),
        },
        final(reader).stream() == old(reader).stream(),
        final(reader).position() == old(reader).position() + header_consumed(
            old(reader).upcoming(),
        ),
        final(reader).hashed() == header_hashed(old(reader).hashed(), old(reader).upcoming()),
{
    let ghost start = *reader;
    let ghost rest = reader.upcoming();
    proof {
        reader.lemma_position_in_stream();
    }
    let mut magic = [0u8;8];

    // Read the magic, but special case the end of the stream: with not one
    // byte left this is where the packets end.
    let n: usize = reader.read(&mut magic);
    if n == 0 {
        proof {
            assert(rest.take(0) =~= Seq::<u8>::empty());
            assert(start.hashed() + Seq::<u8>::empty() =~= start.hashed());
        }
        return Ok(None);
    }
    if n < 8 {
        proof {
            assert(rest.take(n as int) =~= rest);
        }
        return Err(ParseError::IoFailure);
    }
    proof {
        assert(magic@ =~= rest.take(8));
    }
    if !bytes_equal(&magic, &MAGIC_PKT) {
        return Err(ParseError::MagicMismatch);
    }
    let ghost after_magic = *reader;

    let mut length_bytes = [0u8;8];
    let got = reader.read_exact(&mut length_bytes);
    let ghost after_length = *reader;
    proof {
        Md5Reader::lemma_advanced_twice(
            start,
            after_magic,
            after_length,
            8,
            if 8 <= after_magic.upcoming().len() {
                8
            } else {
                after_magic.upcoming().len()
            },
        );
    }
    if let Err(e) = got {
        proof {
            assert(rest.take(rest.len() as int) =~= rest);
        }
        return Err(e);
    }
    let length: u64 = le_u64(&length_bytes);
    proof {
        assert(length_bytes@.take(8) =~= rest.subrange(8, 16));
    }

    let mut packet_md5 = [0u8;16];
    let got = reader.read_exact(&mut packet_md5);
    let ghost after_md5 = *reader;
    proof {
        Md5Reader::lemma_advanced_twice(
            start,
            after_length,
            after_md5,
            16,
            if 16 <= after_length.upcoming().len() {
                16
            } else {
                after_length.upcoming().len()
            },
        );
    }
    if let Err(e) = got {
        proof {
            assert(rest.take(rest.len() as int) =~= rest);
        }
        return Err(e);
    }
    proof {
        assert(packet_md5@ =~= rest.subrange(16, 32));
    }

    reader.reset();
    let ghost after_reset = *reader;
    proof {
        after_reset.lemma_advanced_zero();
        assert(after_reset.upcoming() == rest.skip(32));
    }

    let mut recovery_set_id = [0u8;16];
    let got = reader.read_exact(&mut recovery_set_id);
    let ghost after_id = *reader;
    if let Err(e) = got {
        proof {
            assert(Seq::<u8>::empty() + rest.skip(32) =~= rest.subrange(32, rest.len() as int));
            assert(rest.skip(32).take(rest.len() - 32) =~= rest.skip(32));
        }
        return Err(e);
    }
    proof {
        assert(recovery_set_id@ =~= rest.subrange(32, 48));
    }

    let mut t = [0u8;16];
    let got = reader.read_exact(&mut t);
    proof {
        Md5Reader::lemma_advanced_twice(
            after_reset,
            after_id,
            *reader,
            16,
            if 16 <= after_id.upcoming().len() {
                16
            } else {
                after_id.upcoming().len()
            },
        );
    }
    if let Err(e) = got {
        proof {
            assert(Seq::<u8>::empty() + rest.skip(32).take(rest.len() - 32) =~= rest.subrange(
                32,
                rest.len() as int,
            ));
        }
        return Err(e);
    }
    proof {
        assert(t@ =~= rest.subrange(48, 64));
        assert(Seq::<u8>::empty() + rest.skip(32).take(32) =~= rest.subrange(32, 64));
        assert(magic@ =~= rest.subrange(0, 8));
    }

    // The length is tested before anything is subtracted from it.
    if length < HEADER_LEN {
        return Err(ParseError::MalformedHeader);
    }
    Ok(Some(Header { magic, length, packet_md5, recovery_set_id, t }))
}

} // verus!
