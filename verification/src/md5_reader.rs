//! A byte source that hashes what it hands out, and a bounded view of it.
use crate::bytes::{le_u32, le_u64, le_value};
use crate::digest::{absorbed, context_compute, context_consume, context_new, md5_digest};
use crate::error::ParseError;
use vstd::prelude::*;
use vstd::slice::slice_subrange;

verus! {

/// A reader with a running digest that can be emptied and finished.
pub trait ReadHasher {
    /// The bytes that went into the digest since it was last emptied.
    spec fn hashed(&self) -> Seq<u8>;

    /// Reset the currently computed hash.
    fn reset(&mut self)
        ensures
            final(self).hashed() == Seq::<u8>::empty(),
    ;

    /// Computes the hash, and starts a fresh one.
    fn compute(&mut self) -> (digest: md5::Digest)
        ensures
            digest.0@ == md5_digest(old(self).hashed()),
            final(self).hashed() == Seq::<u8>::empty(),
    ;
}

/// Md5Reader holds the bytes of a stream and hashes all the data read from it.
pub struct Md5Reader {
    inner: Vec<u8>,
    pos: usize,
    hasher: md5::Context,
}

impl Md5Reader {
    #[verifier::type_invariant]
    spec fn in_bounds(&self) -> bool {
        self.pos <= self.inner@.len()
    }

    /// All the bytes of the stream, read or not.
    pub closed spec fn stream(&self) -> Seq<u8> {
        self.inner@
    }

    /// How many bytes of the stream have been read.
    pub closed spec fn position(&self) -> nat {
        if self.pos <= self.inner@.len() {
            self.pos as nat
        } else {
            self.inner@.len()
        }
    }

    /// The bytes of the stream that have not been read yet.
    pub open spec fn upcoming(&self) -> Seq<u8> {
        self.stream().skip(self.position() as int)
    }

    /// `self` is what `before` becomes by reading its next `n` bytes: the
    /// position moves on by `n` and the digest takes those bytes in.
    pub open spec fn advanced(&self, before: Md5Reader, n: nat) -> bool {
        &&& n <= before.upcoming().len()
        &&& self.stream() == before.stream()
        &&& self.position() == before.position() + n
        &&& self.hashed() == before.hashed() + before.upcoming().take(n as int)
    }

    /// `self` is what `before` becomes when it is asked for exactly `n` bytes:
    /// it reads them, or all that is left of the stream where that is less.
    pub open spec fn took(&self, before: Md5Reader, n: nat) -> bool {
        self.advanced(
            before,
            if n <= before.upcoming().len() {
                n
            } else {
                before.upcoming().len()
            },
        )
    }

    /// The position never passes the end of the stream.
    pub proof fn lemma_position_in_stream(&self)
        ensures
            self.position() <= self.stream().len() <= usize::MAX,
            self.upcoming().len() == self.stream().len() - self.position(),
    {
        assert(self.inner.len() == self.inner@.len());
    }

    /// Reading nothing changes nothing.
    pub proof fn lemma_advanced_zero(&self)
        ensures
            self.advanced(*self, 0),
    {
        self.lemma_position_in_stream();
        assert(self.upcoming().take(0) =~= Seq::<u8>::empty());
        assert(self.hashed() + Seq::<u8>::empty() =~= self.hashed());
    }

    /// Reading `n` bytes and then `m` bytes is reading `n + m` bytes.
    pub proof fn lemma_advanced_twice(a: Md5Reader, b: Md5Reader, c: Md5Reader, n: nat, m: nat)
        requires
            b.advanced(a, n),
            c.advanced(b, m),
        ensures
            c.advanced(a, n + m),
            b.upcoming() == a.upcoming().skip(n as int),
    {
        a.lemma_position_in_stream();
        assert(b.upcoming() =~= a.upcoming().skip(n as int));
        assert(a.upcoming().take(n as int) + b.upcoming().take(m as int) =~= a.upcoming().take(
            (n + m) as int,
        ));
        assert((a.hashed() + a.upcoming().take(n as int)) + b.upcoming().take(m as int)
            =~= a.hashed() + (a.upcoming().take(n as int) + b.upcoming().take(m as int)));
    }

    /// Create a new Md5Reader
    pub fn new(inner: Vec<u8>) -> (reader: Md5Reader)
        ensures
            reader.stream() == inner@,
            reader.position() == 0,
            reader.hashed() == Seq::<u8>::empty(),
    {
        Md5Reader { inner, pos: 0, hasher: context_new() }
    }

    /// Copies the next bytes of the stream into the front of `buf`, as many as
    /// `max`, `buf` and the stream allow, and feeds them to the digest.
    fn read_at_most(&mut self, buf: &mut [u8], max: usize) -> (n: usize)
        ensures
            n <= max,
            n <= old(buf)@.len(),
            n <= old(self).upcoming().len(),
            n == max || n == old(buf)@.len() || n == old(self).upcoming().len(),
            final(self).advanced(*old(self), n as nat),
            final(buf)@ == old(self).upcoming().take(n as int) + old(buf)@.skip(n as int),
    {
        proof {
            use_type_invariant(&*self);
        }
        let left: usize = self.inner.len() - self.pos;
        let room: usize = if buf.len() < max {
            buf.len()
        } else {
            max
        };
        let n: usize = if room < left {
            room
        } else {
            left
        };
        let mut i: usize = 0;
        while i < n
            invariant
                i <= n,
                n <= buf@.len(),
                buf@.len() == old(buf)@.len(),
                self.pos + n <= self.inner@.len() <= usize::MAX,
                *self == *old(self),
                forall|j: int| 0 <= j < i ==> buf@[j] == self.inner@[self.pos + j],
                forall|j: int| i <= j < buf@.len() ==> buf@[j] == old(buf)@[j],
            decreases n - i,
        {
            buf[i] = self.inner[self.pos + i];
            i = i + 1;
        }
        let read: &[u8] = slice_subrange(self.inner.as_slice(), self.pos, self.pos + n);
        context_consume(&mut self.hasher, read);
        self.pos = self.pos + n;
        proof {
            let taken = old(self).upcoming().take(n as int);
            assert(self.inner@.subrange(old(self).pos as int, old(self).pos + n) =~= taken);
            assert(buf@ =~= taken + old(buf)@.skip(n as int));
        }
        n
    }

    /// Feeds the next bytes of the stream to the digest without handing them
    /// out, as many as `max` and the stream allow.
    fn skip_at_most(&mut self, max: usize) -> (n: usize)
        ensures
            n <= max,
            n <= old(self).upcoming().len(),
            n == max || n == old(self).upcoming().len(),
            final(self).advanced(*old(self), n as nat),
    {
        proof {
            use_type_invariant(&*self);
        }
        let left: usize = self.inner.len() - self.pos;
        let n: usize = if max < left {
            max
        } else {
            left
        };
        let skipped: &[u8] = slice_subrange(self.inner.as_slice(), self.pos, self.pos + n);
        context_consume(&mut self.hasher, skipped);
        self.pos = self.pos + n;
        proof {
            assert(self.inner@.subrange(old(self).pos as int, old(self).pos + n) =~= old(
                self,
            ).upcoming().take(n as int));
        }
        n
    }

    /// Reads up to `buf.len()` bytes into the front of `buf` and returns how
    /// many were read: fewer than asked for only where the stream ends.  Every
    /// byte read has gone into the digest.
    pub fn read(&mut self, buf: &mut [u8]) -> (n: usize)
        ensures
            n <= old(buf)@.len(),
            n <= old(self).upcoming().len(),
            n == old(buf)@.len() || n == old(self).upcoming().len(),
            final(self).advanced(*old(self), n as nat),
            final(buf)@ == old(self).upcoming().take(n as int) + old(buf)@.skip(n as int),
    {
        let max: usize = buf.len();
        self.read_at_most(buf, max)
    }

    /// Fills `buf` from the stream, or fails with `IoFailure` where the stream
    /// is too short for that.  On failure the rest of the stream has been read
    /// into the front of `buf` all the same.
    pub fn read_exact(&mut self, buf: &mut [u8]) -> (r: Result<(), ParseError>)
        ensures
            r is Ok <==> old(buf)@.len() <= old(self).upcoming().len(),
            r matches Err(e) ==> e == ParseError::IoFailure,
            final(self).took(*old(self), old(buf)@.len()),
            r is Ok ==> final(buf)@ == old(self).upcoming().take(old(buf)@.len() as int),
            r is Err ==> final(buf)@ == old(self).upcoming() + old(buf)@.skip(
                old(self).upcoming().len() as int,
            ),
    {
        let ghost before = *self;
        let ghost room = buf@;
        let n: usize = self.read(buf);
        if n < buf.len() {
            proof {
                assert(before.upcoming().take(n as int) =~= before.upcoming());
            }
            Err(ParseError::IoFailure)
        } else {
            proof {
                assert(room.skip(n as int) =~= Seq::<u8>::empty());
                assert(buf@ =~= before.upcoming().take(n as int));
            }
            Ok(())
        }
    }

    /// The number of bytes that are left to read.
    pub fn remaining(&self) -> (n: usize)
        ensures
            n == self.upcoming().len(),
    {
        proof {
            use_type_invariant(self);
        }
        self.inner.len() - self.pos
    }
}

impl ReadHasher for Md5Reader {
    closed spec fn hashed(&self) -> Seq<u8> {
        absorbed(self.hasher)
    }

    fn reset(&mut self)
        ensures
            final(self).stream() == old(self).stream(),
            final(self).position() == old(self).position(),
    {
        proof {
            use_type_invariant(&*self);
        }
        self.hasher = context_new();
    }

    fn compute(&mut self) -> (digest: md5::Digest)
        ensures
            final(self).stream() == old(self).stream(),
            final(self).position() == old(self).position(),
    {
        proof {
            use_type_invariant(&*self);
        }
        // Swap out the hasher with a fresh one
        let mut hasher = context_new();
        core::mem::swap(&mut self.hasher, &mut hasher);
        // and consume/finalise the old one
        context_compute(hasher)
    }
}

/// A view of a reader that hands out no more than a fixed number of bytes.
///
/// The view borrows the reader: what is read through the view is read from
/// the reader and goes into the reader's digest.  The bound caps the length,
/// it does not bound what is hashed.
pub struct BoundedReader<'a> {
    /// The reader behind the view.
    pub inner: &'a mut Md5Reader,
    /// How many bytes the view may still hand out.
    pub limit: u64,
}

impl<'a> BoundedReader<'a> {
    /// The bytes that the view can still deliver: the next `limit` bytes of
    /// the reader, or all that is left of the stream where that is less.
    pub open spec fn window(&self) -> Seq<u8> {
        let rest = self.inner.upcoming();
        if self.limit <= rest.len() {
            rest.take(self.limit as int)
        } else {
            rest
        }
    }

    /// `self` is what `before` becomes by delivering its next `n` bytes.
    pub open spec fn advanced(&self, before: BoundedReader<'a>, n: nat) -> bool {
        &&& n <= before.window().len()
        &&& self.limit == before.limit - n
        &&& self.inner.advanced(*before.inner, n)
    }

    /// `self` is what `before` becomes when it is asked for exactly `n` bytes:
    /// it delivers them, or all it can deliver where that is less.
    pub open spec fn took(&self, before: BoundedReader<'a>, n: nat) -> bool {
        self.advanced(
            before,
            if n <= before.window().len() {
                n
            } else {
                before.window().len()
            },
        )
    }

    /// Delivering nothing changes nothing.
    pub proof fn lemma_advanced_zero(&self)
        ensures
            self.advanced(*self, 0),
            self.window().len() <= self.limit,
            self.window().len() <= usize::MAX,
    {
        self.inner.lemma_advanced_zero();
        self.inner.lemma_position_in_stream();
    }

    /// Delivering `n` bytes and then `m` bytes is delivering `n + m` bytes,
    /// and after the first `n` the view has the rest of its window left.
    pub proof fn lemma_advanced_twice(
        a: BoundedReader<'a>,
        b: BoundedReader<'a>,
        c: BoundedReader<'a>,
        n: nat,
        m: nat,
    )
        requires
            b.advanced(a, n),
            c.advanced(b, m),
        ensures
            c.advanced(a, n + m),
            b.window() == a.window().skip(n as int),
    {
        Md5Reader::lemma_advanced_twice(*a.inner, *b.inner, *c.inner, n, m);
        assert(b.window() =~= a.window().skip(n as int));
    }

    /// A view of `inner` that delivers at most `limit` bytes.
    pub fn new(inner: &'a mut Md5Reader, limit: u64) -> (view: BoundedReader<'a>)
        ensures
            *view.inner == *old(inner),
            *final(view.inner) == *final(inner),
            view.limit == limit,
    {
        BoundedReader { inner, limit }
    }

    /// The budget as a buffer length.
    fn cap(&self) -> (cap: usize)
        ensures
            cap <= self.limit,
            cap == self.limit || cap == usize::MAX,
    {
        if self.limit > usize::MAX as u64 {
            usize::MAX
        } else {
            self.limit as usize
        }
    }

    /// Reads up to `buf.len()` bytes into the front of `buf`, clipped to what
    /// is left of the budget, and returns how many were read.  With a budget
    /// of 0 the reader behind the view is not touched.
    pub fn read(&mut self, buf: &mut [u8]) -> (n: usize)
        ensures
            n <= old(buf)@.len(),
            n == old(buf)@.len() || n == old(self).window().len(),
            final(self).advanced(*old(self), n as nat),
            *final(final(self).inner) == *final(old(self).inner),
            final(buf)@ == old(self).window().take(n as int) + old(buf)@.skip(n as int),
            old(self).limit == 0 ==> *final(self).inner == *old(self).inner,
    {
        proof {
            self.inner.lemma_position_in_stream();
        }
        if self.limit == 0 {
            proof {
                assert(buf@ =~= self.window().take(0) + buf@.skip(0));
                assert(self.inner.upcoming().take(0) =~= Seq::<u8>::empty());
                assert(self.inner.hashed() + Seq::<u8>::empty() =~= self.inner.hashed());
            }
            return 0;
        }
        let cap: usize = self.cap();
        let n: usize = self.inner.read_at_most(buf, cap);
        self.limit = self.limit - n as u64;
        proof {
            assert(old(self).window().take(n as int) =~= old(self).inner.upcoming().take(n as int));
        }
        n
    }

    /// Fills `buf` through the view, or fails with `IoFailure` where the view
    /// cannot deliver that many bytes.  On failure the view has delivered all
    /// it could, into the front of `buf`.
    pub fn read_exact(&mut self, buf: &mut [u8]) -> (r: Result<(), ParseError>)
        ensures
            r is Ok <==> old(buf)@.len() <= old(self).window().len(),
            r matches Err(e) ==> e == ParseError::IoFailure,
            final(self).took(*old(self), old(buf)@.len()),
            *final(final(self).inner) == *final(old(self).inner),
            r is Ok ==> final(buf)@ == old(self).window().take(old(buf)@.len() as int),
            r is Err ==> final(buf)@ == old(self).window() + old(buf)@.skip(
                old(self).window().len() as int,
            ),
    {
        let ghost room = buf@;
        let n: usize = self.read(buf);
        if n < buf.len() {
            proof {
                assert(old(self).window().take(n as int) =~= old(self).window());
            }
            Err(ParseError::IoFailure)
        } else {
            proof {
                assert(room.skip(n as int) =~= Seq::<u8>::empty());
                assert(buf@ =~= old(self).window().take(n as int));
            }
            Ok(())
        }
    }

    /// Reads a little-endian `u32` through the view.
    pub fn read_u32(&mut self) -> (r: Result<u32, ParseError>)
        ensures
            r is Ok <==> 4 <= old(self).window().len(),
            r matches Ok(v) ==> v == le_value(old(self).window().take(4)),
            r matches Err(e) ==> e == ParseError::IoFailure,
            final(self).took(*old(self), 4),
            *final(final(self).inner) == *final(old(self).inner),
    {
        let mut buf = [0u8; 4];
        match self.read_exact(&mut buf) {
            Ok(()) => {
                let v: u32 = le_u32(&buf);
                proof {
                    assert(buf@.take(4) =~= buf@);
                }
                Ok(v)
            },
            Err(e) => Err(e),
        }
    }

    /// Reads a little-endian `u64` through the view.
    pub fn read_u64(&mut self) -> (r: Result<u64, ParseError>)
        ensures
            r is Ok <==> 8 <= old(self).window().len(),
            r matches Ok(v) ==> v == le_value(old(self).window().take(8)),
            r matches Err(e) ==> e == ParseError::IoFailure,
            final(self).took(*old(self), 8),
            *final(final(self).inner) == *final(old(self).inner),
    {
        let mut buf = [0u8; 8];
        match self.read_exact(&mut buf) {
            Ok(()) => {
                let v: u64 = le_u64(&buf);
                proof {
                    assert(buf@.take(8) =~= buf@);
                }
                Ok(v)
            },
            Err(e) => Err(e),
        }
    }

    /// Reads one 16-byte identifier or digest through the view.
    pub fn read_id(&mut self) -> (r: Result<[u8; 16], ParseError>)
        ensures
            r is Ok <==> 16 <= old(self).window().len(),
            r matches Ok(id) ==> id@ == old(self).window().take(16),
            r matches Err(e) ==> e == ParseError::IoFailure,
            final(self).took(*old(self), 16),
            *final(final(self).inner) == *final(old(self).inner),
    {
        let mut id = [0u8; 16];
        match self.read_exact(&mut id) {
            Ok(()) => Ok(id),
            Err(e) => Err(e),
        }
    }

    /// Delivers everything that the view can still deliver to the digest
    /// alone, and returns how many bytes that was.
    pub fn discard(&mut self) -> (n: usize)
        ensures
            n == old(self).window().len(),
            final(self).advanced(*old(self), n as nat),
            *final(final(self).inner) == *final(old(self).inner),
    {
        proof {
            self.inner.lemma_position_in_stream();
        }
        let cap: usize = self.cap();
        let n: usize = self.inner.skip_at_most(cap);
        self.limit = self.limit - n as u64;
        n
    }
}

} // verus!
