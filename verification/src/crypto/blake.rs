//! Blake2b hashes of a chosen output length.

use vstd::prelude::*;

verus! {

/// The digest named by the Blake2b hash function at a given output length.
pub uninterp spec fn blake2b_of(data: Seq<u8>, len: int) -> Seq<u8>;

/// Relies on `blake2b_simd::Params`: a digest of `len` bytes that depends
/// on the input bytes and the length alone. `hash_length` accepts only
/// lengths between 1 and 64.
#[verifier::external_body]
fn blake2b_digest(src: &[u8], len: usize) -> (r: Vec<u8>)
    requires
        1 <= len <= 64,
    ensures
        r@ == blake2b_of(src@, len as int),
        r@.len() == len,
{
    blake2b_simd::Params::new().hash_length(len).to_state().update(src).finalize().as_ref().to_vec()
}

/// Representation of a Blake hash
pub enum Blake {
    /// A 32-byte digest
    Long,
    /// A 20-byte digest
    Short,
}

impl Blake {
    /// Creates a (long) Blake hash from bytes
    pub fn long(src: &[u8]) -> (r: Vec<u8>)
        ensures
            r@ == blake2b_of(src@, 32),
            r@.len() == 32,
    {
        blake2b_digest(src, 32)
    }

    /// Creates a (short) Blake hash from bytes
    pub fn short(src: &[u8]) -> (r: Vec<u8>)
        ensures
            r@ == blake2b_of(src@, 20),
            r@.len() == 20,
    {
        blake2b_digest(src, 20)
    }
}

} // verus!
