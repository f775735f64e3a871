//! Similarity checker: perceptual fingerprints are compared by Hamming
//! distance over their 64-bit patterns, and a post is considered already
//! sourced when any fetched candidate image is within the threshold.

use vstd::prelude::*;

verus! {

/// Two fingerprints are considered similar when their Hamming distance is at
/// most this many bits.
pub const SIMILARITY_THRESHOLD: u64 = 3;

/// Number of set bits among the lowest `n` bits of `x`.
pub closed spec fn popcount_low(x: u64, n: nat) -> nat
    decreases n,
{
    if n == 0 {
        0
    } else {
        ((x & 1) as nat) + popcount_low(x >> 1, (n - 1) as nat)
    }
}

/// Number of set bits in a 64-bit word.
pub open spec fn popcount(x: u64) -> nat {
    popcount_low(x, 64)
}

/// Hamming distance between two 64-bit fingerprints: the number of bit
/// positions where they differ.
pub open spec fn hamming_distance(a: u64, b: u64) -> nat {
    popcount(a ^ b)
}

proof fn lemma_popcount_low_zero(n: nat)
    ensures
        popcount_low(0u64, n) == 0,
    decreases n,
{
    if n > 0 {
        assert(0u64 & 1 == 0) by (bit_vector);
        assert(0u64 >> 1 == 0) by (bit_vector);
        lemma_popcount_low_zero((n - 1) as nat);
    }
}

/// Count the set bits of a 64-bit word.
pub fn popcount_u64(x: u64) -> (r: u32)
    ensures
        r == popcount(x),
{
    let mut v: u64 = x;
    let mut count: u32 = 0;
    let mut i: usize = 0;
    while i < 64 && v != 0
        invariant
            i <= 64,
            count <= i,
            count + popcount_low(v, (64 - i) as nat) == popcount(x),
        decreases 64 - i,
    {
        proof {
            let n = (64 - i) as nat;
            assert(popcount_low(v, n) == ((v & 1) as nat) + popcount_low(v >> 1, (n - 1) as nat));
            assert((v & 1) <= 1) by (bit_vector);
        }
        count = count + (v & 1) as u32;
        v = v >> 1;
        i = i + 1;
    }
    proof {
        if v == 0 {
            lemma_popcount_low_zero((64 - i) as nat);
        }
    }
    count
}

/// Hamming distance between two 64-bit fingerprints.
pub fn hamming_u64(a: u64, b: u64) -> (r: u32)
    ensures
        r == hamming_distance(a, b),
{
    popcount_u64(a ^ b)
}

/// Whether two fingerprints are within the similarity threshold.
pub fn fingerprints_similar(a: u64, b: u64) -> (r: bool)
    ensures
        r == (hamming_distance(a, b) <= SIMILARITY_THRESHOLD),
{
    let d = hamming_u64(a, b);
    d as u64 <= SIMILARITY_THRESHOLD
}

/// The perceptual fingerprint of an encoded image: a function of the bytes
/// alone. `None` when the bytes do not decode as an image.
pub uninterp spec fn perceptual_hash_of(bytes: Seq<u8>) -> Option<u64>;

/// Relies on `image::load_from_memory` and `img_hash`'s default hasher (the
/// Gradient algorithm at 8x8, a 64-bit hash): both compute from the bytes
/// alone, so the fingerprint is a function of them; bytes that do not
/// decode yield `None`.
#[verifier::external_body]
fn hash_image_bytes(bytes: &Vec<u8>) -> (r: Option<u64>)
    ensures
        r == perceptual_hash_of(bytes@),
{
    let im = match image::load_from_memory(bytes) {
        Ok(im) => im,
        Err(_) => return None,
    };
    let hash = img_hash::HasherConfig::new().to_hasher().hash_image(&im);
    match <[u8; 8]>::try_from(hash.as_bytes()) {
        Ok(arr) => Some(u64::from_be_bytes(arr)),
        Err(_) => None,
    }
}

/// Compute the perceptual fingerprint of downloaded image bytes.
pub fn fingerprint_image(bytes: &Vec<u8>) -> (r: Option<u64>)
    ensures
        r == perceptual_hash_of(bytes@),
{
    hash_image_bytes(bytes)
}

/// A fetched candidate counts as similar when its bytes arrived, decoded,
/// and its fingerprint lies within the threshold of the target. A failed
/// download (`None`) or an undecodable image is excluded from the
/// decision, never treated as a match.
pub open spec fn is_similar_source(target: u64, img: Option<Vec<u8>>) -> bool {
    match img {
        Some(bytes) => match perceptual_hash_of(bytes@) {
            Some(h) => hamming_distance(target, h) <= SIMILARITY_THRESHOLD,
            None => false,
        },
        None => false,
    }
}

/// Whether any successfully fetched candidate image is within the
/// similarity threshold of the target fingerprint — equivalently, whether
/// the minimum Hamming distance among the fetched candidates is at most
/// the threshold. Scans in order and stops at the first hit.
pub fn has_similar_hash(target: u64, images: &Vec<Option<Vec<u8>>>) -> (r: bool)
    ensures
        r == exists|i: int|
            0 <= i < images@.len() && is_similar_source(target, #[trigger] images@[i]),
{
    let mut i: usize = 0;
    while i < images.len()
        invariant
            i <= images@.len(),
            forall|k: int| 0 <= k < i ==> !is_similar_source(target, #[trigger] images@[k]),
        decreases images@.len() - i,
    {
        match &images[i] {
            Some(bytes) => {
                match fingerprint_image(bytes) {
                    Some(h) => {
                        if fingerprints_similar(target, h) {
                            proof {
                                assert(is_similar_source(target, images@[i as int]));
                            }
                            return true;
                        }
                    },
                    None => {},
                }
            },
            None => {},
        }
        i = i + 1;
    }
    false
}

} // verus!
