//! The main packet: slice size and the ids of the files of the recovery set.
use crate::bytes::le_value;
use crate::error::ParseError;
use crate::md5_reader::BoundedReader;
use vstd::prelude::*;

verus! {

/// The `i`-th of the 16-byte ids that a byte string holds back to back.
pub open spec fn id_at(bytes: Seq<u8>, i: int) -> Seq<u8> {
    bytes.subrange(16 * i, 16 * i + 16)
}

/// What a recovery set is made of.
#[derive(Debug)]
pub struct MainPacket {
    /// Slice size in bytes.
    pub size: u64,
    /// Number of files in the recovery set.
    pub files: u32,
    /// Ids of the files of the recovery set, as the packet lists them.
    pub recovery_set: Vec<[u8; 16]>,
    /// Ids of the files that are named but not protected.
    pub non_recovery_set: Vec<[u8; 16]>,
}

/// A main packet as plain values.
pub struct MainPacketView {
    pub size: nat,
    pub files: nat,
    pub recovery_set: Seq<Seq<u8>>,
    pub non_recovery_set: Seq<Seq<u8>>,
}

impl View for MainPacket {
    type V = MainPacketView;

    open spec fn view(&self) -> MainPacketView {
        MainPacketView {
            size: self.size as nat,
            files: self.files as nat,
            recovery_set: self.recovery_set@.map_values(|id: [u8; 16]| id@),
            non_recovery_set: self.non_recovery_set@.map_values(|id: [u8; 16]| id@),
        }
    }
}

/// The 16-byte ids that a byte string holds back to back, in their order.
pub open spec fn ids_of(bytes: Seq<u8>) -> Seq<Seq<u8>> {
    Seq::new(bytes.len() / 16, |i: int| id_at(bytes, i))
}

/// The main packet that `body` spells: slice size and file count as
/// little-endian integers, then as many ids of the recovery set as the file
/// count says, then the ids of the non-recovery set up to the end of the body.
pub open spec fn main_packet_of(body: Seq<u8>) -> MainPacketView {
    let files = le_value(body.subrange(8, 12));
    MainPacketView {
        size: le_value(body.subrange(0, 8)),
        files,
        recovery_set: ids_of(body.subrange(12, 12 + 16 * files as int)),
        non_recovery_set: ids_of(body.skip(12 + 16 * files as int)),
    }
}

impl Default for MainPacket {
    fn default() -> (pkt: MainPacket)
        ensures
            pkt.size == 0,
            pkt.files == 0,
            pkt.recovery_set@.len() == 0,
            pkt.non_recovery_set@.len() == 0,
    {
        MainPacket { size: 0, files: 0, recovery_set: Vec::new(), non_recovery_set: Vec::new() }
    }
}

/// Why a main packet cannot be read from a view with a budget of `limit`
/// bytes that can deliver `window`, if it cannot.
///
/// The budget has to hold the two integers and a whole number of ids, and at
/// least as many ids as the file count says.  A window shorter than the
/// budget means that the stream ends inside the packet.
pub open spec fn main_error(limit: nat, window: Seq<u8>) -> Option<ParseError> {
    if limit < 12 || (limit - 12) % 16 != 0 {
        Some(ParseError::MalformedBody)
    } else if window.len() < 12 {
        Some(ParseError::IoFailure)
    } else if 12 + 16 * le_value(window.subrange(8, 12)) > limit {
        Some(ParseError::MalformedBody)
    } else if window.len() < limit {
        Some(ParseError::IoFailure)
    } else {
        None
    }
}

/// How many bytes reading a main packet takes from such a view: none where
/// the budget itself is wrong, the two integers where the file count does not
/// fit, and otherwise all that the view can deliver.
pub open spec fn main_consumed(limit: nat, window: Seq<u8>) -> nat {
    if limit < 12 || (limit - 12) % 16 != 0 {
        0
    } else if window.len() < 12 {
        window.len()
    } else if 12 + 16 * le_value(window.subrange(8, 12)) > limit {
        12
    } else {
        window.len()
    }
}

/// A body that holds the two integers, then `k` ids where `k` is its file
/// count, then `m` more ids, is a well-formed main packet and is read to its
/// last byte.  The packet that it spells has the first `k` ids as its
/// recovery set and the other `m` as its non-recovery set, each in the order
/// of the bytes.
pub proof fn lemma_main_sets(body: Seq<u8>, k: nat, m: nat)
    requires
        body.len() == 12 + 16 * k + 16 * m,
        le_value(body.subrange(8, 12)) == k,
    ensures
        main_error(body.len(), body) is None,
        main_consumed(body.len(), body) == body.len(),
        main_packet_of(body).files == k,
        main_packet_of(body).recovery_set.len() == k,
        main_packet_of(body).non_recovery_set.len() == m,
        forall|i: int|
            0 <= i < k ==> #[trigger] main_packet_of(body).recovery_set[i] == body.subrange(
                12 + 16 * i,
                28 + 16 * i,
            ),
        forall|j: int|
            0 <= j < m ==> #[trigger] main_packet_of(body).non_recovery_set[j] == body.subrange(
                12 + 16 * (k + j),
                28 + 16 * (k + j),
            ),
{
    assert((16 * (k + m)) % 16 == 0) by (nonlinear_arith);
    let first = body.subrange(12, 12 + 16 * k as int);
    let second = body.skip(12 + 16 * k as int);
    assert forall|i: int| 0 <= i < k implies #[trigger] main_packet_of(body).recovery_set[i]
        == body.subrange(12 + 16 * i, 28 + 16 * i) by {
        assert(id_at(first, i) =~= body.subrange(12 + 16 * i, 28 + 16 * i));
    }
    assert forall|j: int| 0 <= j < m implies #[trigger] main_packet_of(body).non_recovery_set[j]
        == body.subrange(12 + 16 * (k + j), 28 + 16 * (k + j)) by {
        assert(id_at(second, j) =~= body.subrange(12 + 16 * (k + j), 28 + 16 * (k + j)));
    }
}

/// Reads `count` ids through the view and appends them to `set`.
fn read_ids(reader: &mut BoundedReader, set: &mut Vec<[u8; 16]>, count: u64) -> (r: Result<
    (),
    ParseError,
>)
    ensures
        r is Ok <==> 16 * count <= old(reader).window().len(),
        r matches Err(e) ==> e == ParseError::IoFailure,
        final(reader).took(*old(reader), 16 * count as nat),
        *final(final(reader).inner) == *final(old(reader).inner),
        r is Ok ==> final(set)@.len() == old(set)@.len() + count,
        r is Ok ==> forall|i: int|
            0 <= i < old(set)@.len() ==> (#[trigger] final(set)@[i]) == old(set)@[i],
        r is Ok ==> forall|k: int|
            old(set)@.len() <= k < final(set)@.len() ==> (#[trigger] final(set)@[k])@ == id_at(
                old(reader).window(),
                k - old(set)@.len(),
            ),
{
    let ghost window = reader.window();
    let mut done: u64 = 0;
    proof {
        reader.lemma_advanced_zero();
    }
    while done < count
        invariant
            done <= count,
            16 * done <= window.len(),
            window == old(reader).window(),
            reader.advanced(*old(reader), 16 * done as nat),
            *final(reader.inner) == *final(old(reader).inner),
            set@.len() == old(set)@.len() + done,
            forall|i: int| 0 <= i < old(set)@.len() ==> (#[trigger] set@[i]) == old(set)@[i],
            forall|k: int|
                old(set)@.len() <= k < set@.len() ==> (#[trigger] set@[k])@ == id_at(
                    window,
                    k - old(set)@.len(),
                ),
        decreases count - done,
    {
        let ghost before = *reader;
        let ghost had = set@;
        let step = reader.read_id();
        proof {
            let n: nat = if 16 <= before.window().len() {
                16
            } else {
                before.window().len()
            };
            BoundedReader::lemma_advanced_twice(
                *old(reader),
                before,
                *reader,
                16 * done as nat,
                n,
            );
        }
        match step {
            Ok(id) => {
                set.push(id);
                proof {
                    assert(id@ =~= id_at(window, done as int));
                    assert forall|k: int| old(set)@.len() <= k < set@.len() implies (
                    #[trigger] set@[k])@ == id_at(window, k - old(set)@.len()) by {
                        if k < had.len() {
                            assert(set@[k] == had[k]);
                        }
                    }
                }
                done = done + 1;
            },
            Err(e) => {
                return Err(e);
            },
        }
    }
    Ok(())
}

/// Reads the body of a main packet through a view whose budget is the length
/// that the packet's header declares for the body.
pub fn read_main_packet(reader: &mut BoundedReader) -> (r: Result<MainPacket, ParseError>)
    ensures
        match r {
            Ok(pkt) => main_error(old(reader).limit as nat, old(reader).window()) is None
                && pkt@ == main_packet_of(old(reader).window()),
            Err(e) => main_error(old(reader).limit as nat, old(reader).window()) == Some(e),
        },
        final(reader).advanced(
            *old(reader),
            main_consumed(old(reader).limit as nat, old(reader).window()),
        ),
        *final(final(reader).inner) == *final(old(reader).inner),
        r is Ok ==> final(reader).limit == 0,
{
    let ghost window = reader.window();
    let ghost start = *reader;
    proof {
        reader.lemma_advanced_zero();
    }
    let limit: u64 = reader.limit;
    if limit < 12 || (limit - 12) % 16 != 0 {
        return Err(ParseError::MalformedBody);
    }
    let size: u64 = match reader.read_u64() {
        Ok(v) => v,
        Err(e) => {
            return Err(e);
        },
    };
    let ghost after_size = *reader;
    let files: u32 = match reader.read_u32() {
        Ok(v) => v,
        Err(e) => {
            proof {
                BoundedReader::lemma_advanced_twice(
                    start,
                    after_size,
                    *reader,
                    8,
                    after_size.window().len(),
                );
            }
            return Err(e);
        },
    };
    let ghost after_files = *reader;
    proof {
        BoundedReader::lemma_advanced_twice(start, after_size, after_files, 8, 4);
        assert(window.take(8) =~= window.subrange(0, 8));
        assert(after_size.window().take(4) =~= window.subrange(8, 12));
    }
    // There could be 2^32 files: the count is held against the budget before
    // any id is read.
    let ids: u64 = (limit - 12) / 16;
    if files as u64 > ids {
        return Err(ParseError::MalformedBody);
    }
    let mut pkt = MainPacket {
        size,
        files,
        recovery_set: Vec::new(),
        non_recovery_set: Vec::new(),
    };
    let first = read_ids(reader, &mut pkt.recovery_set, files as u64);
    let ghost after_first = *reader;
    proof {
        let n: nat = if 16 * files <= after_files.window().len() {
            16 * files as nat
        } else {
            after_files.window().len()
        };
        BoundedReader::lemma_advanced_twice(start, after_files, after_first, 12, n);
    }
    if let Err(e) = first {
        return Err(e);
    }
    let rest: u64 = ids - files as u64;
    let second = read_ids(reader, &mut pkt.non_recovery_set, rest);
    proof {
        let n: nat = if 16 * rest <= after_first.window().len() {
            16 * rest as nat
        } else {
            after_first.window().len()
        };
        BoundedReader::lemma_advanced_twice(
            start,
            after_first,
            *reader,
            12 + 16 * files as nat,
            n,
        );
    }
    if let Err(e) = second {
        return Err(e);
    }
    proof {
        let first = window.subrange(12, 12 + 16 * files);
        let second = window.skip(12 + 16 * files);
        assert(after_files.window() == window.skip(12));
        assert(after_first.window() == second);
        assert forall|i: int| 0 <= i < files implies #[trigger] pkt@.recovery_set[i] == id_at(
            first,
            i,
        ) by {
            assert(pkt.recovery_set@[i]@ == id_at(window.skip(12), i));
            assert(id_at(window.skip(12), i) =~= id_at(first, i));
        }
        assert(pkt@.recovery_set =~= ids_of(first));
        assert forall|j: int| 0 <= j < rest implies #[trigger] pkt@.non_recovery_set[j] == id_at(
            second,
            j,
        ) by {
            assert(pkt.non_recovery_set@[j]@ == id_at(second, j));
        }
        assert(pkt@.non_recovery_set =~= ids_of(second));
    }
    Ok(pkt)
}

} // verus!
