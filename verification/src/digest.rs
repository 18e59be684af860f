//! The SHA-1 digest.
use sha1::Digest;
use sha1::Sha1;
use vstd::prelude::*;

verus! {

/// The SHA-1 digest of a byte string.
pub uninterp spec fn sha1_of(data: Seq<u8>) -> Seq<u8>;

/// `sha1::Sha1::digest`: the twenty bytes of the digest of `data`, named by
/// `sha1_of`.
#[verifier::external_body]
pub(crate) fn sha1_digest(data: &[u8]) -> (hash: [u8; 20])
    ensures
        hash@ == sha1_of(data@),
{
    Sha1::digest(data).into()
}

} // verus!
