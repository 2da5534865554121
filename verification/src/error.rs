//! The ways in which reading a packet stream can fail.
use vstd::prelude::*;

verus! {

/// Why a packet, or the walk over a stream, did not come out clean.
///
/// A stream that ends exactly at a packet boundary is no error: the header
/// reader reports it as `Ok(None)`.
#[derive(Clone, Copy, Debug, PartialEq, Eq, Structural)]
pub enum ParseError {
    /// The byte source ran out inside a packet.
    IoFailure,
    /// The eight bytes at a packet boundary are not the packet magic.
    MagicMismatch,
    /// The declared packet length is smaller than the header itself.
    MalformedHeader,
    /// The declared body length does not fit the layout of the packet type.
    MalformedBody,
    /// The name of a file description is not valid UTF-8.
    TextDecodeFailure,
    /// The digest computed over a packet differs from the one in its header.
    ChecksumMismatch,
}

impl ParseError {
    /// A fatal error leaves the stream at a position from which no further
    /// packet can be framed.  The other two concern one packet only: its
    /// bytes were consumed in full and the next header follows.
    pub open spec fn fatal(self) -> bool {
        !(self is TextDecodeFailure || self is ChecksumMismatch)
    }

    /// Whether the walk over a stream has to stop at this error.
    pub fn is_fatal(&self) -> (b: bool)
        ensures
            b == self.fatal(),
    {
        match self {
            ParseError::TextDecodeFailure => false,
            ParseError::ChecksumMismatch => false,
            _ => true,
        }
    }
}

} // verus!
