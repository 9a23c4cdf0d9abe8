//! SHA-1 digests, as used for the info-hash and piece verification.
use vstd::prelude::*;
use sha1::{Digest, Sha1};

verus! {

/// The SHA-1 digest of a byte sequence: twenty bytes, a function of the
/// input bytes alone.
pub uninterp spec fn sha1_of(data: Seq<u8>) -> Seq<u8>;

/// Relies on sha1::Sha1 through the Digest trait: `digest` returns the
/// 20-byte SHA-1 of the input, determined by the input bytes alone.
#[verifier::external_body]
pub(crate) fn sha1_digest(data: &Vec<u8>) -> (h: Vec<u8>)
    ensures
        h@ == sha1_of(data@),
        h@.len() == 20,
{
    Sha1::digest(data.as_slice()).to_vec()
}

} // verus!
