//! The file-description packet: id, digests, length and name of one file.
use crate::bytes::{le_value, string_from_utf8, strip_trailing_zeros, trim_trailing_zeros};
use crate::error::ParseError;
use crate::md5_reader::BoundedReader;
use vstd::prelude::*;
use vstd::utf8::{decode_utf8, valid_utf8};

verus! {

/// 16 + 16 + 16 + 8: what comes before the name in the body.
pub const FILEDESC_LEN: u64 = 56;

/// One file of the recovery set.
#[derive(Debug)]
pub struct FileDescPacket {
    pub id: [u8; 16],
    /// md5 hash of the whole file
    pub md5: [u8; 16],
    /// md5 hash of the first 16kb
    pub md5_16k: [u8; 16],
    pub length: u64,
    /// Name of the file, without the zero bytes that pad it in the packet.
    pub name: String,
}

/// A file description as plain values.
pub struct FileDescPacketView {
    pub id: Seq<u8>,
    pub md5: Seq<u8>,
    pub md5_16k: Seq<u8>,
    pub length: nat,
    pub name: Seq<char>,
}

impl View for FileDescPacket {
    type V = FileDescPacketView;

    open spec fn view(&self) -> FileDescPacketView {
        FileDescPacketView {
            id: self.id@,
            md5: self.md5@,
            md5_16k: self.md5_16k@,
            length: self.length as nat,
            name: self.name@,
        }
    }
}

impl Default for FileDescPacket {
    fn default() -> (pkt: FileDescPacket)
        ensures
            pkt.id@ == Seq::new(16, |i: int| 0u8),
            pkt.md5@ == Seq::new(16, |i: int| 0u8),
            pkt.md5_16k@ == Seq::new(16, |i: int| 0u8),
            pkt.length == 0,
            pkt.name@ == Seq::<char>::empty(),
    {
        let pkt = FileDescPacket {
            id: [0u8;16],
            md5: [0u8;16],
            md5_16k: [0u8;16],
            length: 0,
            name: String::new(),
        };
        assert(pkt.id@ =~= Seq::new(16, |i: int| 0u8));
        assert(pkt.md5@ =~= Seq::new(16, |i: int| 0u8));
        assert(pkt.md5_16k@ =~= Seq::new(16, |i: int| 0u8));
        pkt
    }
}

/// The bytes of the name in a body: all that follows the fixed fields, less
/// the zero bytes that pad the end.
pub open spec fn name_bytes(body: Seq<u8>) -> Seq<u8> {
    strip_trailing_zeros(body.skip(FILEDESC_LEN as int))
}

/// The file description that `body` spells: three 16-byte fields, the file's
/// length as a little-endian integer, and the name as UTF-8 text.
pub open spec fn file_desc_packet_of(body: Seq<u8>) -> FileDescPacketView {
    FileDescPacketView {
        id: body.subrange(0, 16),
        md5: body.subrange(16, 32),
        md5_16k: body.subrange(32, 48),
        length: le_value(body.subrange(48, 56)),
        name: decode_utf8(name_bytes(body)),
    }
}

/// Why no file description can be read from a view with a budget of `limit`
/// bytes that can deliver `window`, if none can.
///
/// A name that is not valid UTF-8 is found only when the whole body has been
/// read: that failure leaves the stream at the next packet.
pub open spec fn file_desc_error(limit: nat, window: Seq<u8>) -> Option<ParseError> {
    if limit < FILEDESC_LEN {
        Some(ParseError::MalformedBody)
    } else if window.len() < limit {
        Some(ParseError::IoFailure)
    } else if !valid_utf8(name_bytes(window)) {
        Some(ParseError::TextDecodeFailure)
    } else {
        None
    }
}

/// How many bytes reading a file description takes from such a view: none
/// where the budget has no room for the fixed fields, and otherwise all that
/// the view can deliver.
pub open spec fn file_desc_consumed(limit: nat, window: Seq<u8>) -> nat {
    if limit < FILEDESC_LEN {
        0
    } else {
        window.len()
    }
}

/// Reads the body of a file description through a view whose budget is the
/// length that the packet's header declares for the body.
pub fn read_file_desc_packet(reader: &mut BoundedReader) -> (r: Result<FileDescPacket, ParseError>)
    ensures
        match r {
            Ok(pkt) => file_desc_error(old(reader).limit as nat, old(reader).window()) is None
                && pkt@ == file_desc_packet_of(old(reader).window()),
            Err(e) => file_desc_error(old(reader).limit as nat, old(reader).window()) == Some(e),
        },
        final(reader).advanced(
            *old(reader),
            file_desc_consumed(old(reader).limit as nat, old(reader).window()),
        ),
        *final(final(reader).inner) == *final(old(reader).inner),
        r is Ok || r == Err::<FileDescPacket, ParseError>(ParseError::TextDecodeFailure)
            ==> final(reader).limit == 0,
{
    let ghost window = reader.window();
    let ghost start = *reader;
    proof {
        reader.lemma_advanced_zero();
    }
    let limit: u64 = reader.limit;
    if limit < FILEDESC_LEN {
        return Err(ParseError::MalformedBody);
    }
    let id = reader.read_id();
    let ghost after_id = *reader;
    let id: [u8; 16] = match id {
        Ok(id) => id,
        Err(e) => {
            return Err(e);
        },
    };
    let md5 = reader.read_id();
    let ghost after_md5 = *reader;
    proof {
        BoundedReader::lemma_advanced_twice(
            start,
            after_id,
            after_md5,
            16,
            if 16 <= after_id.window().len() {
                16
            } else {
                after_id.window().len()
            },
        );
    }
    let md5: [u8; 16] = match md5 {
        Ok(md5) => md5,
        Err(e) => {
            return Err(e);
        },
    };
    let md5_16k = reader.read_id();
    let ghost after_16k = *reader;
    proof {
        BoundedReader::lemma_advanced_twice(
            start,
            after_md5,
            after_16k,
            32,
            if 16 <= after_md5.window().len() {
                16
            } else {
                after_md5.window().len()
            },
        );
    }
    let md5_16k: [u8; 16] = match md5_16k {
        Ok(md5_16k) => md5_16k,
        Err(e) => {
            return Err(e);
        },
    };
    let length = reader.read_u64();
    let ghost after_length = *reader;
    proof {
        BoundedReader::lemma_advanced_twice(
            start,
            after_16k,
            after_length,
            48,
            if 8 <= after_16k.window().len() {
                8
            } else {
                after_16k.window().len()
            },
        );
    }
    let length: u64 = match length {
        Ok(length) => length,
        Err(e) => {
            return Err(e);
        },
    };
    proof {
        assert(window.take(16) =~= window.subrange(0, 16));
        assert(after_id.window().take(16) =~= window.subrange(16, 32));
        assert(after_md5.window().take(16) =~= window.subrange(32, 48));
        assert(after_16k.window().take(8) =~= window.subrange(48, 56));
        after_length.lemma_advanced_zero();
    }

    // The buffer for the name is no longer than what is there to fill it.
    let left: usize = reader.inner.remaining();
    if reader.limit > left as u64 {
        let n: usize = reader.discard();
        proof {
            BoundedReader::lemma_advanced_twice(start, after_length, *reader, 56, n as nat);
        }
        return Err(ParseError::IoFailure);
    }
    let mut name: Vec<u8> = vec![0u8; reader.limit as usize];
    let filled = reader.read_exact(&mut name);
    proof {
        BoundedReader::lemma_advanced_twice(
            start,
            after_length,
            *reader,
            56,
            after_length.window().len(),
        );
        assert(after_length.window().take(after_length.window().len() as int) =~= window.skip(
            56,
        ));
    }
    if let Err(e) = filled {
        return Err(e);
    }
    trim_trailing_zeros(&mut name);

    match string_from_utf8(name) {
        Some(name) => Ok(FileDescPacket { id, md5, md5_16k, length, name }),
        None => Err(ParseError::TextDecodeFailure),
    }
}

} // verus!
