//! The MD5 context of the `md5` crate, as far as the reader needs it.
//!
//! Nothing in this module is proved: the three functions below call into the
//! `md5` crate, and their contracts say what that crate's code does in terms of
//! two uninterpreted functions.
use vstd::prelude::*;

verus! {

#[verifier::external_type_specification]
#[verifier::external_body]
pub struct ExContext(md5::Context);

#[verifier::external_type_specification]
pub struct ExDigest(md5::Digest);

/// The bytes that a context has consumed since it was created, in order.
pub uninterp spec fn absorbed(ctx: md5::Context) -> Seq<u8>;

/// The MD5 digest of a byte string, as `md5::Context::compute` returns it.
pub uninterp spec fn md5_digest(bytes: Seq<u8>) -> Seq<u8>;

/// `md5::Context::new`: a context that has consumed nothing yet.
#[verifier::external_body]
pub(crate) fn context_new() -> (ctx: md5::Context)
    ensures
        absorbed(ctx) == Seq::<u8>::empty(),
{
    md5::Context::new()
}

/// `md5::Context::consume`: the context takes `data` in after what it has
/// consumed before.  The call does not panic for any input.
#[verifier::external_body]
pub(crate) fn context_consume(ctx: &mut md5::Context, data: &[u8])
    ensures
        absorbed(*final(ctx)) == absorbed(*old(ctx)) + data@,
    no_unwind
{
    ctx.consume(data)
}

/// `md5::Context::compute`: pads and finishes the context and returns the
/// digest of everything it has consumed.
#[verifier::external_body]
pub(crate) fn context_compute(ctx: md5::Context) -> (digest: md5::Digest)
    ensures
        digest.0@ == md5_digest(absorbed(ctx)),
{
    ctx.compute()
}

} // verus!
