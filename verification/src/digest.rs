//! Content digests for manifest entries.

use vstd::prelude::*;

verus! {

/// The MD5 digest of the bytes, rendered as 32 lowercase hex characters,
/// given as ASCII bytes. The digest depends on the input bytes alone.
pub uninterp spec fn md5_hex_of(data: Seq<u8>) -> Seq<u8>;

/// Relies on md5::compute and the md5 crate's LowerHex rendering of a
/// digest: the 16 digest bytes are printed as two lowercase hex characters
/// each, 32 ASCII bytes in all, and depend on the input bytes alone.
#[verifier::external_body]
pub(crate) fn md5_hex(data: &Vec<u8>) -> (r: Vec<u8>)
    ensures
        r@ == md5_hex_of(data@),
        r@.len() == 32,
{
    format!("{:x}", md5::compute(data.as_slice())).into_bytes()
}

} // verus!
