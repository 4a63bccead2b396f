//! Object identity. An identity is the 20-byte SHA-1 digest of an object's
//! canonical bytes; the digest itself comes from the sha1 crate.
use vstd::prelude::*;
use sha1::Digest;

verus! {

/// The SHA-1 digest of a byte string. Stated rather than defined: the value
/// is a pure function of the input alone, computed by the sha1 crate.
pub uninterp spec fn sha1_of(data: Seq<u8>) -> Seq<u8>;

/// Relies on sha1::Sha1 (through digest::Digest::digest): a 20-byte digest
/// that depends on the input bytes alone.
#[verifier::external_body]
pub fn sha1_digest(data: &[u8]) -> (r: Vec<u8>)
    ensures
        r@ == sha1_of(data@),
        r@.len() == 20,
{
    sha1::Sha1::digest(data).to_vec()
}

} // verus!
