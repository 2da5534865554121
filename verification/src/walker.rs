//! Walking a stream packet by packet, to its end or to the first fatal error.
use crate::error::ParseError;
use crate::md5_reader::{Md5Reader, ReadHasher};
use crate::packet::{
    declared_len, lemma_packet_length, packet_consumed, packet_error, packet_hashed, packet_of,
    read_packet, Packet,
};
use vstd::prelude::*;

verus! {

/// The byte strings of the packets that can be read one after the other from
/// the head of `rest`, up to the end of the stream or the first packet that
/// fails fatally.
pub open spec fn frames(rest: Seq<u8>) -> Seq<Seq<u8>>
    decreases rest.len(),
{
    if rest.len() == 0 || packet_error(rest) is Some {
        Seq::empty()
    } else {
        proof {
            lemma_packet_length(rest);
        }
        seq![rest.take(declared_len(rest) as int)] + frames(rest.skip(declared_len(rest) as int))
    }
}

/// What is left of `rest` behind those packets: nothing, or bytes that start
/// with a packet that fails fatally.
pub open spec fn unframed(rest: Seq<u8>) -> Seq<u8>
    decreases rest.len(),
{
    if rest.len() == 0 || packet_error(rest) is Some {
        rest
    } else {
        proof {
            lemma_packet_length(rest);
        }
        unframed(rest.skip(declared_len(rest) as int))
    }
}

/// The packets of a stream and what ended the walk over it.
#[derive(Debug)]
pub struct Walk {
    /// The packets that were read, in the order of the stream.
    pub packets: Vec<Packet>,
    /// The fatal error at which the walk stopped; `None` where it reached
    /// the end of the stream at a packet boundary.
    pub failure: Option<ParseError>,
}

/// The packets of a stream are laid end to end: together with what is left
/// behind them they make up the stream.
pub proof fn lemma_frames_cover(rest: Seq<u8>)
    ensures
        frames(rest).flatten() + unframed(rest) == rest,
        unframed(rest).len() <= rest.len(),
        unframed(rest).len() == 0 || packet_error(unframed(rest)) is Some,
    decreases rest.len(),
{
    if rest.len() == 0 || packet_error(rest) is Some {
        assert(frames(rest).flatten() =~= Seq::<u8>::empty());
        assert(Seq::<u8>::empty() + rest =~= rest);
    } else {
        lemma_packet_length(rest);
        let n = declared_len(rest) as int;
        lemma_frames_cover(rest.skip(n));
        let head = seq![rest.take(n)];
        let tail = frames(rest.skip(n));
        assert((head + tail).flatten() =~= rest.take(n) + tail.flatten()) by {
            assert((head + tail).first() == rest.take(n));
            assert((head + tail).drop_first() =~= tail);
        }
        assert((rest.take(n) + tail.flatten()) + unframed(rest.skip(n)) =~= rest.take(n) + (
        tail.flatten() + unframed(rest.skip(n))));
        assert(rest.take(n) + rest.skip(n) =~= rest);
    }
}

/// Reads packets from the stream until it ends or a packet fails fatally.
///
/// A packet whose digest does not match, or whose name is not text, is in the
/// result like any other and does not stop the walk: see `Packet::verify` and
/// `Packet::body`.
pub fn walk(reader: &mut Md5Reader) -> (w: Walk)
    ensures
        w.packets@.len() == frames(old(reader).upcoming()).len(),
        forall|i: int|
            0 <= i < w.packets@.len() ==> (#[trigger] w.packets@[i])@ == packet_of(
                frames(old(reader).upcoming())[i],
            ),
        w.failure == packet_error(unframed(old(reader).upcoming())),
        w.failure is None ==> final(reader).upcoming().len() == 0,
        final(reader).stream() == old(reader).stream(),
        final(reader).position() == old(reader).position() + (old(reader).upcoming().len()
            - unframed(old(reader).upcoming()).len()) + packet_consumed(
            unframed(old(reader).upcoming()),
        ),
        final(reader).hashed() == packet_hashed(
            if w.packets@.len() == 0 {
                old(reader).hashed()
            } else {
                Seq::<u8>::empty()
            },
            unframed(old(reader).upcoming()),
        ),
{
    let ghost rest = reader.upcoming();
    let ghost mut done: Seq<Seq<u8>> = Seq::empty();
    let mut packets: Vec<Packet> = Vec::new();
    proof {
        reader.lemma_position_in_stream();
        assert(done + frames(rest) =~= frames(rest));
    }
    loop
        invariant
            rest == old(reader).upcoming(),
            reader.stream() == old(reader).stream(),
            reader.position() == old(reader).position() + (rest.len() - reader.upcoming().len()),
            reader.upcoming().len() <= rest.len(),
            frames(rest) == done + frames(reader.upcoming()),
            unframed(rest) == unframed(reader.upcoming()),
            packets@.len() == done.len(),
            forall|i: int|
                0 <= i < packets@.len() ==> (#[trigger] packets@[i])@ == packet_of(done[i]),
            reader.hashed() == if packets@.len() == 0 {
                old(reader).hashed()
            } else {
                Seq::<u8>::empty()
            },
        decreases reader.upcoming().len(),
    {
        let ghost cur = reader.upcoming();
        let ghost before = *reader;
        proof {
            before.lemma_position_in_stream();
        }
        match read_packet(reader) {
            Ok(Some(pkt)) => {
                proof {
                    lemma_packet_length(cur);
                    reader.lemma_position_in_stream();
                    let n = declared_len(cur) as int;
                    assert(reader.upcoming() =~= cur.skip(n));
                    assert(done + (seq![cur.take(n)] + frames(cur.skip(n))) =~= done.push(
                        cur.take(n),
                    ) + frames(cur.skip(n)));
                    done = done.push(cur.take(n));
                }
                packets.push(pkt);
            },
            Ok(None) => {
                proof {
                    assert(done + frames(cur) =~= done);
                }
                return Walk { packets, failure: None };
            },
            Err(e) => {
                proof {
                    assert(done + frames(cur) =~= done);
                }
                return Walk { packets, failure: Some(e) };
            },
        }
    }
}

} // verus!
