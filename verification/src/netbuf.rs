//! The growable receive buffer that accumulates partial frames.
//!
//! The buffer itself is `BytesMut` from the `bytes` crate (re-exported by
//! `tokio-util`); Verus sees it through `buf_bytes`, the sequence of bytes
//! it currently holds, and the small trusted wrappers below.
use vstd::prelude::*;
use tokio_util::bytes::Buf;
use tokio_util::bytes::BytesMut;

verus! {

#[verifier::external_type_specification]
#[verifier::external_body]
pub struct ExBytesMut(BytesMut);

/// The bytes a receive buffer currently holds, oldest first.
pub uninterp spec fn buf_bytes(b: BytesMut) -> Seq<u8>;

/// Relies on BytesMut::new: a fresh buffer holds no bytes.
#[verifier::external_body]
pub(crate) fn buf_new() -> (b: BytesMut)
    ensures
        buf_bytes(b) == Seq::<u8>::empty(),
{
    BytesMut::new()
}

/// Relies on BytesMut::len: the number of bytes held.
#[verifier::external_body]
pub(crate) fn buf_len(b: &BytesMut) -> (n: usize)
    ensures
        n == buf_bytes(*b).len(),
{
    b.len()
}

/// Relies on Buf::advance for BytesMut: discards the first `cnt` bytes.
/// It panics when `cnt` exceeds the length, so that is required away.
#[verifier::external_body]
pub(crate) fn buf_advance(b: &mut BytesMut, cnt: usize)
    requires
        cnt <= buf_bytes(*old(b)).len(),
    ensures
        buf_bytes(*final(b)) == buf_bytes(*old(b)).skip(cnt as int),
{
    b.advance(cnt)
}

/// Relies on BytesMut::extend_from_slice: appends the slice's bytes.
#[verifier::external_body]
pub(crate) fn buf_extend(b: &mut BytesMut, s: &[u8])
    ensures
        buf_bytes(*final(b)) == buf_bytes(*old(b)) + s@,
{
    b.extend_from_slice(s)
}

/// Relies on BytesMut's Deref to [u8]: copies bytes `i..j` out.
/// Indexing panics out of range, so the range is required valid.
#[verifier::external_body]
pub(crate) fn buf_copy_range(b: &BytesMut, i: usize, j: usize) -> (v: Vec<u8>)
    requires
        i <= j <= buf_bytes(*b).len(),
    ensures
        v@ == buf_bytes(*b).subrange(i as int, j as int),
{
    b[i..j].to_vec()
}

} // verus!
