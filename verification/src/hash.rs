//! The digests limine checks files against.

use vstd::prelude::*;
use blake2::Digest;
use crate::text::{hex, hex_string};

verus! {

/// The BLAKE2b-512 digest of `data`.
pub uninterp spec fn blake2b_512(data: Seq<u8>) -> Seq<u8>;

/// Trusted: `blake2::Blake2b512::digest`, the one-shot BLAKE2b hash with a
/// 64-byte output. The contract claims only that the result is that hash of
/// exactly `data`, and that it is 64 bytes long; the hash itself is
/// BLAKE2's and is not restated here.
#[verifier::external_body]
fn blake2b_digest(data: &[u8]) -> (r: Vec<u8>)
    ensures
        r@ == blake2b_512(data@),
        r@.len() == 64,
{
    blake2::Blake2b512::digest(data).to_vec()
}

pub proof fn lemma_hex_len(bytes: Seq<u8>)
    ensures
        hex(bytes).len() == 2 * bytes.len(),
    decreases bytes.len(),
{
    if bytes.len() > 0 {
        lemma_hex_len(bytes.drop_last());
    }
}

/// The digest limine expects after the `#` of a `boot():` URI, and the one
/// `limine enroll-config` is handed: BLAKE2b-512 in lowercase hex.
pub fn blake2b(bytes: &[u8]) -> (r: String)
    ensures
        r@ == hex(blake2b_512(bytes@)),
        r@.len() == 128,
{
    let d = blake2b_digest(bytes);
    proof {
        lemma_hex_len(d@);
    }
    hex_string(d.as_slice())
}

} // verus!
