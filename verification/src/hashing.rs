//! Streaming SHA-256 over slab bytes, rendered as a 64-character lowercase
//! hex digest.

use vstd::prelude::*;
use sha2::Digest;
use crate::text::hex_of;

verus! {

/// The SHA-256 digest of a byte sequence. The algorithm takes pages to state;
/// the digest depends on the input bytes alone.
pub uninterp spec fn sha256_of(data: Seq<u8>) -> Seq<u8>;

/// Relies on sha2's Sha256 one-shot digest: 32 bytes, a function of the input
/// bytes alone.
#[verifier::external_body]
fn sha256_digest(data: &Vec<u8>) -> (r: Vec<u8>)
    ensures
        r@ == sha256_of(data@),
        r@.len() == 32,
{
    sha2::Sha256::digest(data.as_slice()).to_vec()
}

/// Relies on hex::encode: lowercase, two hex digits for each input byte, high
/// nibble first.
#[verifier::external_body]
fn hex_encode(data: &Vec<u8>) -> (r: String)
    ensures
        r@ == hex_of(data@),
{
    hex::encode(data.as_slice())
}

/// The digest the verification gate compares against: 64 lowercase hex
/// characters of the SHA-256 of `data`.
pub fn calculate_hash(data: &Vec<u8>) -> (r: String)
    ensures
        r@ == hex_of(sha256_of(data@)),
        r@.len() == 64,
{
    let digest = sha256_digest(data);
    hex_encode(&digest)
}

/// Hashes a slab delivered in buffers, as the host reads it from disk: the
/// digest is that of the concatenated bytes.
pub fn calculate_hash_chunks(chunks: &Vec<Vec<u8>>) -> (r: String)
    ensures
        r@ == hex_of(sha256_of(chunks.deep_view().flatten())),
        r@.len() == 64,
{
    let mut data: Vec<u8> = Vec::new();
    let mut i: usize = 0;
    proof {
        assert(chunks.deep_view().take(0).flatten() =~= Seq::<u8>::empty());
    }
    while i < chunks.len()
        invariant
            i <= chunks@.len(),
            chunks.deep_view().len() == chunks@.len(),
            data@ == chunks.deep_view().take(i as int).flatten(),
        decreases chunks@.len() - i,
    {
        proof {
            assert(chunks.deep_view()[i as int] =~= chunks@[i as int]@);
            assert(chunks.deep_view().take(i + 1).drop_last() =~= chunks.deep_view().take(i as int));
            chunks.deep_view().take(i + 1).lemma_flatten_and_flatten_alt_are_equivalent();
            chunks.deep_view().take(i as int).lemma_flatten_and_flatten_alt_are_equivalent();
            assert(chunks.deep_view().take(i + 1).flatten_alt() == chunks.deep_view().take(
                i as int,
            ).flatten_alt() + chunks.deep_view()[i as int]);
        }
        let chunk = &chunks[i];
        let mut k: usize = 0;
        while k < chunk.len()
            invariant
                k <= chunk@.len(),
                chunk@ == chunks.deep_view()[i as int],
                i < chunks.deep_view().len(),
                data@ == chunks.deep_view().take(i as int).flatten() + chunk@.take(k as int),
            decreases chunk@.len() - k,
        {
            data.push(chunk[k]);
            k = k + 1;
            proof {
                assert(data@ =~= chunks.deep_view().take(i as int).flatten() + chunk@.take(
                    k as int,
                ));
            }
        }
        proof {
            assert(chunk@.take(chunk@.len() as int) =~= chunk@);
            assert(data@ =~= chunks.deep_view().take(i + 1).flatten());
        }
        i = i + 1;
    }
    proof {
        assert(chunks.deep_view().take(chunks.deep_view().len() as int) =~= chunks.deep_view());
    }
    calculate_hash(&data)
}

} // verus!
