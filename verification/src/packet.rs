//! One whole packet: header, body by type, and the digest computed over it.
use crate::bytes::bytes_equal;
use crate::digest::md5_digest;
use crate::error::ParseError;
use crate::file_desc::{
    file_desc_consumed, file_desc_error, file_desc_packet_of, read_file_desc_packet,
    FileDescPacket, FileDescPacketView,
};
use crate::header::{
    header_consumed, header_error, header_hashed, header_of, packet_type_of, read_header, Header,
    HeaderView, PacketType, HEADER_LEN, UNHASHED_LEN,
};
use crate::ifsc::{
    ifsc_consumed, ifsc_error, ifsc_packet_of, read_ifsc_packet, InputFileSliceChecksumPacket,
    InputFileSliceChecksumPacketView,
};
use crate::main_packet::{
    main_consumed, main_error, main_packet_of, read_main_packet, MainPacket, MainPacketView,
};
use crate::md5_reader::{BoundedReader, Md5Reader, ReadHasher};
use vstd::prelude::*;

verus! {

/// What was made of the body of a packet.
#[derive(Debug)]
pub enum Body {
    Main(MainPacket),
    FileDesc(FileDescPacket),
    IFSC(InputFileSliceChecksumPacket),
    /// The body of a packet of any other type: read for the digest, and
    /// dropped.
    Skipped,
}

/// A body as plain values.
pub enum BodyView {
    Main(MainPacketView),
    FileDesc(FileDescPacketView),
    IFSC(InputFileSliceChecksumPacketView),
    Skipped,
}

impl View for Body {
    type V = BodyView;

    open spec fn view(&self) -> BodyView {
        match *self {
            Body::Main(pkt) => BodyView::Main(pkt@),
            Body::FileDesc(pkt) => BodyView::FileDesc(pkt@),
            Body::IFSC(pkt) => BodyView::IFSC(pkt@),
            Body::Skipped => BodyView::Skipped,
        }
    }
}

/// What a body of the given type and bytes is decoded to.
pub open spec fn body_of(kind: PacketType, bytes: Seq<u8>) -> BodyView {
    match kind {
        PacketType::Main => BodyView::Main(main_packet_of(bytes)),
        PacketType::FileDesc => BodyView::FileDesc(file_desc_packet_of(bytes)),
        PacketType::IFSC => BodyView::IFSC(ifsc_packet_of(bytes)),
        _ => BodyView::Skipped,
    }
}

/// Why a body that is not decoded cannot be stepped over, if it cannot: the
/// stream ends before the declared length is reached.
pub open spec fn skip_error(limit: nat, window: Seq<u8>) -> Option<ParseError> {
    if window.len() < limit {
        Some(ParseError::IoFailure)
    } else {
        None
    }
}

/// Why the body of a packet of type `kind` cannot be read from a view with a
/// budget of `limit` bytes that can deliver `window`, if it cannot.
pub open spec fn body_error(kind: PacketType, limit: nat, window: Seq<u8>) -> Option<ParseError> {
    match kind {
        PacketType::Main => main_error(limit, window),
        PacketType::FileDesc => file_desc_error(limit, window),
        PacketType::IFSC => ifsc_error(limit, window),
        _ => skip_error(limit, window),
    }
}

/// How many bytes reading such a body takes from such a view.
pub open spec fn body_consumed(kind: PacketType, limit: nat, window: Seq<u8>) -> nat {
    match kind {
        PacketType::Main => main_consumed(limit, window),
        PacketType::FileDesc => file_desc_consumed(limit, window),
        PacketType::IFSC => ifsc_consumed(limit, window),
        _ => window.len(),
    }
}

/// Steps over a body that is not decoded: every byte of it goes into the
/// digest and none is kept.
pub fn skip_packet(reader: &mut BoundedReader) -> (r: Result<(), ParseError>)
    ensures
        match r {
            Ok(()) => skip_error(old(reader).limit as nat, old(reader).window()) is None,
            Err(e) => skip_error(old(reader).limit as nat, old(reader).window()) == Some(e),
        },
        final(reader).advanced(*old(reader), old(reader).window().len()),
        *final(final(reader).inner) == *final(old(reader).inner),
        r is Ok ==> final(reader).limit == 0,
{
    proof {
        reader.lemma_advanced_zero();
    }
    // Fully read the unknown packet (this is so we can check the md5sum)
    let _ = reader.discard();
    if reader.limit > 0 {
        Err(ParseError::IoFailure)
    } else {
        Ok(())
    }
}

/// Reads the body of a packet of type `kind` through a view whose budget is
/// the length that the packet's header declares for the body.
pub fn read_body(reader: &mut BoundedReader, kind: PacketType) -> (r: Result<Body, ParseError>)
    ensures
        match r {
            Ok(body) => body_error(kind, old(reader).limit as nat, old(reader).window()) is None
                && body@ == body_of(kind, old(reader).window()),
            Err(e) => body_error(kind, old(reader).limit as nat, old(reader).window()) == Some(e),
        },
        final(reader).advanced(
            *old(reader),
            body_consumed(kind, old(reader).limit as nat, old(reader).window()),
        ),
        *final(final(reader).inner) == *final(old(reader).inner),
        r is Ok || r == Err::<Body, ParseError>(ParseError::TextDecodeFailure)
            ==> final(reader).limit == 0,
{
    match kind {
        PacketType::Main => {
            match read_main_packet(reader) {
                Ok(pkt) => Ok(Body::Main(pkt)),
                Err(e) => Err(e),
            }
        },
        PacketType::FileDesc => {
            match read_file_desc_packet(reader) {
                Ok(pkt) => Ok(Body::FileDesc(pkt)),
                Err(e) => Err(e),
            }
        },
        PacketType::IFSC => {
            match read_ifsc_packet(reader) {
                Ok(pkt) => Ok(Body::IFSC(pkt)),
                Err(e) => Err(e),
            }
        },
        _ => {
            match skip_packet(reader) {
                Ok(()) => Ok(Body::Skipped),
                Err(e) => Err(e),
            }
        },
    }
}

/// The packet length that the header at the head of `rest` declares.
pub open spec fn declared_len(rest: Seq<u8>) -> nat {
    header_of(rest).length
}

/// The type that the header at the head of `rest` names.
pub open spec fn declared_type(rest: Seq<u8>) -> PacketType {
    packet_type_of(header_of(rest).t)
}

/// The body length that the header at the head of `rest` declares.
pub open spec fn body_limit(rest: Seq<u8>) -> nat {
    (declared_len(rest) - HEADER_LEN) as nat
}

/// The bytes that a view of the declared body length can deliver once the
/// header at the head of `rest` is read.
pub open spec fn body_window(rest: Seq<u8>) -> Seq<u8> {
    let after = rest.skip(HEADER_LEN as int);
    if body_limit(rest) <= after.len() {
        after.take(body_limit(rest) as int)
    } else {
        after
    }
}

/// Why the body of the packet at the head of `rest` cannot be read, if it
/// cannot; `rest` starts with a well-formed header.
pub open spec fn framed_body_error(rest: Seq<u8>) -> Option<ParseError> {
    body_error(declared_type(rest), body_limit(rest), body_window(rest))
}

/// The error that stops the reading of the packet at the head of `rest`, if
/// one does.  A body that fails in a way that is not fatal stops nothing.
pub open spec fn packet_error(rest: Seq<u8>) -> Option<ParseError> {
    if rest.len() == 0 {
        None
    } else if header_error(rest) is Some {
        header_error(rest)
    } else {
        match framed_body_error(rest) {
            Some(e) if e.fatal() => Some(e),
            _ => None,
        }
    }
}

/// How many bytes reading the packet at the head of `rest` takes.
pub open spec fn packet_consumed(rest: Seq<u8>) -> nat {
    if rest.len() == 0 || header_error(rest) is Some {
        header_consumed(rest)
    } else {
        HEADER_LEN as nat + body_consumed(declared_type(rest), body_limit(rest), body_window(rest))
    }
}

/// What the digest holds after reading the packet at the head of `rest`,
/// where `hashed` is what it held before: nothing once a packet is read to its
/// end, since its digest is then taken.
pub open spec fn packet_hashed(hashed: Seq<u8>, rest: Seq<u8>) -> Seq<u8> {
    if rest.len() == 0 || header_error(rest) is Some {
        header_hashed(hashed, rest)
    } else if packet_error(rest) is Some {
        rest.subrange(UNHASHED_LEN as int, packet_consumed(rest) as int)
    } else {
        Seq::<u8>::empty()
    }
}

/// A packet as it was read from a stream.
#[derive(Debug)]
pub struct Packet {
    pub header: Header,
    /// The decoded body, or the failure that kept this one body from being
    /// decoded.
    pub body: Result<Body, ParseError>,
    /// The digest of the packet's bytes from the recovery-set id to the end
    /// of the body, as computed while reading them.
    pub computed_md5: [u8; 16],
}

/// A packet as plain values.
pub struct PacketView {
    pub header: HeaderView,
    pub body: Result<BodyView, ParseError>,
    pub computed_md5: Seq<u8>,
}

impl View for Packet {
    type V = PacketView;

    open spec fn view(&self) -> PacketView {
        PacketView {
            header: self.header@,
            body: match self.body {
                Ok(body) => Ok(body@),
                Err(e) => Err(e),
            },
            computed_md5: self.computed_md5@,
        }
    }
}

/// The packet that the bytes `frame` spell: its header, what its body is
/// decoded to or why it is not decoded, and the MD5 digest of the bytes from
/// the recovery-set id to the end.
pub open spec fn packet_of(frame: Seq<u8>) -> PacketView {
    PacketView {
        header: header_of(frame),
        body: match framed_body_error(frame) {
            Some(e) => Err(e),
            None => Ok(body_of(declared_type(frame), frame.skip(HEADER_LEN as int))),
        },
        computed_md5: md5_digest(frame.skip(UNHASHED_LEN as int)),
    }
}

impl Packet {
    /// Whether the packet's bytes have the digest that its header carries.
    pub open spec fn intact(&self) -> bool {
        self.computed_md5@ == self.header.packet_md5@
    }

    /// Holds the computed digest against the one in the header.
    pub fn verify(&self) -> (r: Result<(), ParseError>)
        ensures
            match r {
                Ok(()) => self.intact(),
                Err(e) => !self.intact() && e == ParseError::ChecksumMismatch,
            },
    {
        if bytes_equal(&self.computed_md5, &self.header.packet_md5) {
            Ok(())
        } else {
            Err(ParseError::ChecksumMismatch)
        }
    }
}

/// A packet that is read without a fatal error takes exactly the length that
/// its header declares, whatever its type, and all of that is in the stream.
pub proof fn lemma_packet_length(rest: Seq<u8>)
    requires
        rest.len() > 0,
        packet_error(rest) is None,
    ensures
        HEADER_LEN <= declared_len(rest) <= rest.len(),
        packet_consumed(rest) == declared_len(rest),
        body_window(rest) == rest.subrange(HEADER_LEN as int, declared_len(rest) as int),
{
    assert(body_window(rest).len() == body_limit(rest));
    assert(body_window(rest) =~= rest.subrange(HEADER_LEN as int, declared_len(rest) as int));
}

/// A body that is read without a fatal error is read to the last byte of its
/// declared length, whatever its type: one of an unknown type takes as many
/// bytes as a decoded one.
pub proof fn lemma_body_length(kind: PacketType, limit: nat, window: Seq<u8>)
    requires
        window.len() <= limit,
        match body_error(kind, limit, window) {
            Some(e) => !e.fatal(),
            None => true,
        },
    ensures
        window.len() == limit,
        body_consumed(kind, limit, window) == limit,
        body_consumed(kind, limit, window) == body_consumed(PacketType::Unknown, limit, window),
{
}

/// Two packets of the same declared length leave the stream at the same
/// distance from where they began, whether or not their types are known.
pub proof fn lemma_alignment(one: Seq<u8>, other: Seq<u8>)
    requires
        one.len() > 0,
        other.len() > 0,
        packet_error(one) is None,
        packet_error(other) is None,
        declared_len(one) == declared_len(other),
    ensures
        packet_consumed(one) == packet_consumed(other),
        packet_consumed(one) == declared_len(one),
{
    lemma_packet_length(one);
    lemma_packet_length(other);
}

/// A slice-checksum packet whose body length leaves part of a pair behind
/// the last whole one fails as malformed once its header is read, and not a
/// byte of its body is read.
pub proof fn lemma_ifsc_packet_partial_pair(rest: Seq<u8>, n: nat, r: nat)
    requires
        rest.len() > 0,
        header_error(rest) is None,
        declared_type(rest) == PacketType::IFSC,
        body_limit(rest) == 16 + 20 * n + r,
        0 < r < 20,
    ensures
        packet_error(rest) == Some(ParseError::MalformedBody),
        packet_consumed(rest) == HEADER_LEN,
{
    crate::ifsc::lemma_ifsc_partial_pair(n, r, body_window(rest));
}

/// A packet whose declared length is smaller than its header is malformed,
/// and reading it takes the header and not a byte of what follows.
pub proof fn lemma_short_length(rest: Seq<u8>)
    requires
        rest.len() >= HEADER_LEN,
        rest.take(8) == crate::header::MAGIC_PKT@,
        declared_len(rest) < HEADER_LEN,
    ensures
        header_error(rest) == Some(ParseError::MalformedHeader),
        packet_error(rest) == Some(ParseError::MalformedHeader),
        packet_consumed(rest) == HEADER_LEN,
{
}

/// The digest computed for a packet is the MD5 of its bytes from the
/// recovery-set id to its end, and the packet is intact exactly where the 16
/// bytes before that are this digest.
pub proof fn lemma_digest_scope(pkt: Packet, frame: Seq<u8>)
    requires
        pkt@ == packet_of(frame),
    ensures
        pkt.computed_md5@ == md5_digest(frame.subrange(UNHASHED_LEN as int, frame.len() as int)),
        pkt.intact() <==> frame.subrange(16, 32) == md5_digest(
            frame.subrange(UNHASHED_LEN as int, frame.len() as int),
        ),
{
}

/// Reads the next packet of the stream: its header, its body through a view
/// of the declared length, and then the digest of what was read since the
/// packet digest in the header.
///
/// `Ok(None)` is the clean end of the stream.  A packet comes back with its
/// computed digest whether or not that is the digest in its header, and with
/// `TextDecodeFailure` in place of a body whose name is not text: in both
/// cases the stream is at the next packet.
pub fn read_packet(reader: &mut Md5Reader) -> (r: Result<Option<Packet>, ParseError>)
    ensures
        match r {
            Ok(None) => old(reader).upcoming().len() == 0,
            Ok(Some(pkt)) => old(reader).upcoming().len() > 0 && packet_error(
                old(reader).upcoming(),
            ) is None && pkt@ == packet_of(
                old(reader).upcoming().take(declared_len(old(reader).upcoming()) as int),
            ),
            Err(e) => packet_error(old(reader).upcoming()) == Some(e),
        },
        final(reader).stream() == old(reader).stream(),
        final(reader).position() == old(reader).position() + packet_consumed(
            old(reader).upcoming(),
        ),
        final(reader).hashed() == packet_hashed(old(reader).hashed(), old(reader).upcoming()),
{
    let ghost start = *reader;
    let ghost rest = reader.upcoming();
    proof {
        start.lemma_position_in_stream();
    }
    let header: Header = match read_header(reader) {
        Ok(Some(header)) => header,
        Ok(None) => {
            return Ok(None);
        },
        Err(e) => {
            return Err(e);
        },
    };
    let ghost framed = *reader;
    proof {
        framed.lemma_position_in_stream();
        framed.lemma_advanced_zero();
        assert(framed.upcoming() =~= rest.skip(HEADER_LEN as int));
    }
    let remaining: u64 = match header.remaining() {
        Ok(n) => n,
        Err(e) => {
            return Err(e);
        },
    };
    let kind: PacketType = header.packet_type();

    // Constrain the reader to the bytes of this packet's body
    let mut view = BoundedReader::new(reader, remaining);
    assert(view.window() == body_window(rest));
    let body = read_body(&mut view, kind);
    let ghost taken: nat = body_consumed(kind, remaining as nat, body_window(rest));
    assert(reader.advanced(framed, taken));
    proof {
        assert(framed.hashed() + body_window(rest).take(taken as int) =~= rest.subrange(
            UNHASHED_LEN as int,
            HEADER_LEN + taken,
        ));
    }
    let body: Result<Body, ParseError> = match body {
        Ok(body) => Ok(body),
        Err(e) => {
            if e.is_fatal() {
                return Err(e);
            }
            Err(e)
        },
    };
    proof {
        lemma_packet_length(rest);
        let frame = rest.take(declared_len(rest) as int);
        assert(frame.subrange(0, 8) =~= rest.subrange(0, 8));
        assert(frame.subrange(8, 16) =~= rest.subrange(8, 16));
        assert(frame.subrange(16, 32) =~= rest.subrange(16, 32));
        assert(frame.subrange(32, 48) =~= rest.subrange(32, 48));
        assert(frame.subrange(48, 64) =~= rest.subrange(48, 64));
        assert(header_of(frame) == header_of(rest));
        assert(frame.skip(HEADER_LEN as int) =~= body_window(rest));
        assert(body_window(frame) =~= body_window(rest));
        assert(frame.skip(UNHASHED_LEN as int) =~= rest.subrange(
            UNHASHED_LEN as int,
            declared_len(rest) as int,
        ));
    }
    let computed_md5: [u8; 16] = reader.compute().0;
    Ok(Some(Packet { header, body, computed_md5 }))
}

} // verus!
