//! Reading the packets of a PAR2 recovery file.
//!
//! A recovery file is a sequence of self-framed packets.  Each packet starts
//! with a 64-byte header that carries its total length, an MD5 digest and a
//! 16-byte type tag; the digest covers the packet from the recovery-set id
//! (byte 32) to the end of its body.  This crate frames the packets of a byte
//! stream, decodes the bodies it understands, steps over the others so that
//! the stream stays aligned, and computes the digest of every packet while it
//! reads.
//!
//! * [`md5_reader`]: the byte source with its running digest, and the bounded
//!   view through which a body is read;
//! * [`header`]: the header and the type tags;
//! * [`main_packet`], [`file_desc`], [`ifsc`]: the three bodies that are
//!   decoded;
//! * [`packet`]: one whole packet, whatever its type;
//! * [`walker`]: all the packets of a stream;
//! * [`bytes`], [`digest`]: little-endian integers, text and MD5, which come
//!   from outside this crate and are taken on trust.
//!
//! What each function returns and how far it moves the stream is stated over
//! the bytes of the stream alone: `header_of`, `main_packet_of` and the like
//! say what a byte string spells, `header_error`, `main_error` and the like
//! say when it spells nothing.
pub mod bytes;
pub mod digest;
pub mod error;
pub mod file_desc;
pub mod header;
pub mod ifsc;
pub mod main_packet;
pub mod md5_reader;
pub mod packet;
pub mod walker;

pub use error::ParseError;
pub use file_desc::{read_file_desc_packet, FileDescPacket};
pub use header::{read_header, Header, PacketType};
pub use ifsc::{read_ifsc_packet, IFSCPair, InputFileSliceChecksumPacket};
pub use main_packet::{read_main_packet, MainPacket};
pub use md5_reader::{BoundedReader, Md5Reader, ReadHasher};
pub use packet::{read_body, read_packet, skip_packet, Body, Packet};
pub use walker::{walk, Walk};
