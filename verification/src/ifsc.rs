//! The input-file-slice-checksum packet: one digest and CRC per slice of a file.
use crate::bytes::le_value;
use crate::error::ParseError;
use crate::md5_reader::BoundedReader;
use vstd::prelude::*;

verus! {

/// 16 + 4: the digest of a slice and its CRC32.
pub const IFSC_PAIR_LEN: u64 = 20;

/// The checksums of one slice of a file.
#[derive(Debug)]
pub struct IFSCPair {
    pub md5: [u8; 16],
    pub crc32: u32,
}

impl Default for IFSCPair {
    fn default() -> (pair: IFSCPair)
        ensures
            pair.md5@ == Seq::new(16, |i: int| 0u8),
            pair.crc32 == 0,
    {
        let pair = IFSCPair { md5: [0u8;16], crc32: 0 };
        assert(pair.md5@ =~= Seq::new(16, |i: int| 0u8));
        pair
    }
}

/// A pair as plain values.
pub struct IFSCPairView {
    pub md5: Seq<u8>,
    pub crc32: nat,
}

impl View for IFSCPair {
    type V = IFSCPairView;

    open spec fn view(&self) -> IFSCPairView {
        IFSCPairView { md5: self.md5@, crc32: self.crc32 as nat }
    }
}

/// The pair that 20 bytes spell: a digest, and a CRC32 as a little-endian
/// integer.
pub open spec fn pair_of(bytes: Seq<u8>) -> IFSCPairView {
    IFSCPairView { md5: bytes.subrange(0, 16), crc32: le_value(bytes.subrange(16, 20)) }
}

/// The checksums of all the slices of one file.
#[derive(Debug)]
pub struct InputFileSliceChecksumPacket {
    pub id: [u8; 16],
    pub hashes: Vec<IFSCPair>,
}

impl Default for InputFileSliceChecksumPacket {
    fn default() -> (pkt: InputFileSliceChecksumPacket)
        ensures
            pkt.id@ == Seq::new(16, |i: int| 0u8),
            pkt.hashes@.len() == 0,
    {
        let pkt = InputFileSliceChecksumPacket { id: [0u8;16], hashes: Vec::new() };
        assert(pkt.id@ =~= Seq::new(16, |i: int| 0u8));
        pkt
    }
}

/// The `i`-th of the 20-byte pairs that follow the file id in a body.
pub open spec fn pair_at(body: Seq<u8>, i: int) -> Seq<u8> {
    body.subrange(16 + 20 * i, 36 + 20 * i)
}

/// A slice-checksum packet as plain values.
pub struct InputFileSliceChecksumPacketView {
    pub id: Seq<u8>,
    pub hashes: Seq<IFSCPairView>,
}

impl View for InputFileSliceChecksumPacket {
    type V = InputFileSliceChecksumPacketView;

    open spec fn view(&self) -> InputFileSliceChecksumPacketView {
        InputFileSliceChecksumPacketView {
            id: self.id@,
            hashes: self.hashes@.map_values(|pair: IFSCPair| pair@),
        }
    }
}

/// The slice-checksum packet that `body` spells: the id of a file, then one
/// pair for each 20 bytes up to the end of the body, in their order.
pub open spec fn ifsc_packet_of(body: Seq<u8>) -> InputFileSliceChecksumPacketView {
    InputFileSliceChecksumPacketView {
        id: body.subrange(0, 16),
        hashes: Seq::new(((body.len() - 16) / 20) as nat, |i: int| pair_of(pair_at(body, i))),
    }
}

/// Why no slice-checksum packet can be read from a view with a budget of
/// `limit` bytes that can deliver `window`, if none can.
///
/// The budget has to hold the file id and a whole number of pairs: this is
/// tested before a byte is read.
pub open spec fn ifsc_error(limit: nat, window: Seq<u8>) -> Option<ParseError> {
    if limit < 16 || (limit - 16) % 20 != 0 {
        Some(ParseError::MalformedBody)
    } else if window.len() < limit {
        Some(ParseError::IoFailure)
    } else {
        None
    }
}

/// How many bytes reading a slice-checksum packet takes from such a view:
/// none where the budget is wrong, and otherwise all that it can deliver.
pub open spec fn ifsc_consumed(limit: nat, window: Seq<u8>) -> nat {
    if limit < 16 || (limit - 16) % 20 != 0 {
        0
    } else {
        window.len()
    }
}

/// A body length that leaves part of a pair behind the last whole one is
/// malformed, whatever the stream holds, and not a byte of such a body is
/// read.
pub proof fn lemma_ifsc_partial_pair(n: nat, r: nat, window: Seq<u8>)
    requires
        0 < r < 20,
    ensures
        ifsc_error(16 + 20 * n + r, window) == Some(ParseError::MalformedBody),
        ifsc_consumed(16 + 20 * n + r, window) == 0,
{
    assert((20 * n + r) % 20 == r) by (nonlinear_arith)
        requires
            0 < r < 20,
    ;
}

/// Reads the body of a slice-checksum packet through a view whose budget is
/// the length that the packet's header declares for the body.
pub fn read_ifsc_packet(reader: &mut BoundedReader) -> (r: Result<
    InputFileSliceChecksumPacket,
    ParseError,
>)
    ensures
        match r {
            Ok(pkt) => ifsc_error(old(reader).limit as nat, old(reader).window()) is None
                && pkt@ == ifsc_packet_of(old(reader).window()),
            Err(e) => ifsc_error(old(reader).limit as nat, old(reader).window()) == Some(e),
        },
        final(reader).advanced(
            *old(reader),
            ifsc_consumed(old(reader).limit as nat, old(reader).window()),
        ),
        *final(final(reader).inner) == *final(old(reader).inner),
        r is Ok ==> final(reader).limit == 0,
{
    let ghost window = reader.window();
    let ghost start = *reader;
    proof {
        reader.lemma_advanced_zero();
    }
    let limit: u64 = reader.limit;
    if limit < 16 || (limit - 16) % IFSC_PAIR_LEN != 0 {
        return Err(ParseError::MalformedBody);
    }
    let id: [u8; 16] = match reader.read_id() {
        Ok(id) => id,
        Err(e) => {
            return Err(e);
        },
    };
    proof {
        assert(window.take(16) =~= window.subrange(0, 16));
    }
    let count: u64 = (limit - 16) / IFSC_PAIR_LEN;
    let mut hashes: Vec<IFSCPair> = Vec::new();
    let mut done: u64 = 0;
    while done < count
        invariant
            done <= count,
            limit == 16 + 20 * count,
            start == *old(reader),
            limit == start.limit,
            window == start.window(),
            16 + 20 * done <= window.len(),
            reader.advanced(start, 16 + 20 * done as nat),
            *final(reader.inner) == *final(start.inner),
            hashes@.len() == done,
            forall|i: int|
                0 <= i < done ==> (#[trigger] hashes@[i])@ == pair_of(pair_at(window, i)),
        decreases count - done,
    {
        let ghost before = *reader;
        let md5 = reader.read_id();
        let ghost between = *reader;
        proof {
            BoundedReader::lemma_advanced_twice(
                start,
                before,
                between,
                16 + 20 * done as nat,
                if 16 <= before.window().len() {
                    16
                } else {
                    before.window().len()
                },
            );
        }
        let md5: [u8; 16] = match md5 {
            Ok(md5) => md5,
            Err(e) => {
                return Err(e);
            },
        };
        let crc32 = reader.read_u32();
        proof {
            BoundedReader::lemma_advanced_twice(
                start,
                between,
                *reader,
                32 + 20 * done as nat,
                if 4 <= between.window().len() {
                    4
                } else {
                    between.window().len()
                },
            );
        }
        let crc32: u32 = match crc32 {
            Ok(crc32) => crc32,
            Err(e) => {
                return Err(e);
            },
        };
        let pair = IFSCPair { md5, crc32 };
        proof {
            let bytes = pair_at(window, done as int);
            assert(bytes.subrange(0, 16) =~= before.window().take(16));
            assert(bytes.subrange(16, 20) =~= between.window().take(4));
        }
        hashes.push(pair);
        done = done + 1;
    }
    let pkt = InputFileSliceChecksumPacket { id, hashes };
    proof {
        assert(pkt@.hashes =~= ifsc_packet_of(window).hashes);
    }
    Ok(pkt)
}

} // verus!
