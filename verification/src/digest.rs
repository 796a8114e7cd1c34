//! The digest primitive of the authenticated state tree.
//!
//! Every node of the tree summarizes its four children with a single 64-bit
//! word.  The compression function feeds the four child words, packed
//! little-endian, as the seed of the ChaCha20 stream cipher and takes the
//! first word of the resulting stream.  The stream is a pure function of the
//! seed, so every digest is a deterministic function of the leaf values below
//! it; nothing stronger (such as collision freedom) is claimed of it.

use vstd::prelude::*;
use vstd::bytes::spec_u64_to_le_bytes;
use vstd::bytes::u64_to_le_bytes;

verus! {

/// The first 64-bit word of the ChaCha20 stream for a 32-byte seed.
pub uninterp spec fn chacha_word_of(seed: Seq<u8>) -> u64;

/// Relies on rand_chacha's ChaCha20Rng (`from_seed`, then `next_u64`):
/// ChaCha20 is a deterministic stream cipher and rand_chacha documents its
/// output stream as reproducible and portable, so the first word drawn is a
/// function of the 32-byte seed alone.
#[verifier::external_body]
fn chacha_word(seed: &Vec<u8>) -> (r: u64)
    requires
        seed@.len() == 32,
    ensures
        r == chacha_word_of(seed@),
{
    let arr: [u8; 32] = seed.as_slice().try_into().unwrap();
    let mut rng = <rand_chacha::ChaCha20Rng as rand::SeedableRng>::from_seed(arr);
    rand::RngCore::next_u64(&mut rng)
}

/// Seed layout of the compression function: the four words, little-endian.
pub open spec fn seed4(a: u64, b: u64, c: u64, d: u64) -> Seq<u8> {
    spec_u64_to_le_bytes(a) + spec_u64_to_le_bytes(b) + spec_u64_to_le_bytes(c)
        + spec_u64_to_le_bytes(d)
}

/// Digest of four child words.
pub open spec fn combine4(a: u64, b: u64, c: u64, d: u64) -> u64 {
    chacha_word_of(seed4(a, b, c, d))
}

/// Computes `combine4`.
pub fn combine(a: u64, b: u64, c: u64, d: u64) -> (r: u64)
    ensures
        r == combine4(a, b, c, d),
{
    let mut seed = u64_to_le_bytes(a);
    let mut sb = u64_to_le_bytes(b);
    let mut sc = u64_to_le_bytes(c);
    let mut sd = u64_to_le_bytes(d);
    seed.append(&mut sb);
    seed.append(&mut sc);
    seed.append(&mut sd);
    chacha_word(&seed)
}

/// The lowercase hexadecimal digit for a value below 16.
pub open spec fn hex_digit(n: int) -> char {
    seq!['0', '1', '2', '3', '4', '5', '6', '7', '8', '9', 'a', 'b', 'c', 'd', 'e', 'f'][n]
}

/// Lowercase hexadecimal rendering of a byte string, high nibble first.
pub open spec fn hex_of(bytes: Seq<u8>) -> Seq<char> {
    Seq::new(2 * bytes.len(), |i: int| {
        if i % 2 == 0 {
            hex_digit(bytes[i / 2] as int / 16)
        } else {
            hex_digit(bytes[i / 2] as int % 16)
        }
    })
}

/// Relies on hex::encode: two lowercase hexadecimal digits per byte of input,
/// high nibble first.
#[verifier::external_body]
pub(crate) fn hex_encode(bytes: &Vec<u8>) -> (r: String)
    ensures
        r@ == hex_of(bytes@),
{
    hex::encode(bytes.as_slice())
}

} // verus!
