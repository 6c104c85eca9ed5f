use vstd::prelude::*;

use sha1::Digest;

verus! {

/// The twenty-byte SHA-1 digest of a byte sequence: a function of the
/// bytes alone.
pub uninterp spec fn sha1_of(data: Seq<u8>) -> Seq<u8>;

/// Relies on sha1::Sha1 through the Digest trait: the digest depends on
/// the input bytes alone and is twenty bytes long.
#[verifier::external_body]
pub fn sha1_digest(data: &Vec<u8>) -> (r: Vec<u8>)
    ensures
        r@ == sha1_of(data@),
        r@.len() == 20,
{
    let digest = sha1::Sha1::digest(data.as_slice());
    digest.to_vec()
}

/// Whether the bytes hash to the expected twenty-byte digest.
pub fn matches_sha1(data: &Vec<u8>, expected: &Vec<u8>) -> (r: bool)
    ensures
        r == (sha1_of(data@) == expected@),
{
    let digest = sha1_digest(data);
    crate::text::bytes_eq(digest.as_slice(), expected.as_slice())
}

} // verus!
