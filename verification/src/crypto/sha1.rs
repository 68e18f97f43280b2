//! SHA-1 digests.

use vstd::prelude::*;

verus! {

/// Size of a SHA-1 digest.
pub const SHA1_SIZE: usize = 20;

/// The SHA-1 digest of `data`.
pub uninterp spec fn sha1(data: Seq<u8>) -> Seq<u8>;

/// SHA-1 digest of `data`, computed with `sha1_smol::Sha1::from(..).digest().bytes()`.
/// Trusted: the result is the named digest of the input bytes.
#[verifier::external_body]
pub(crate) fn sha1_digest(data: &[u8]) -> (r: [u8; 20])
    ensures
        r@ == sha1(data@),
{
    sha1_smol::Sha1::from(data).digest().bytes()
}

} // verus!
