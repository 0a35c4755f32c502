//! Genomes: how a child's genome is mixed from its parents, and where the entropy comes from.

use vstd::prelude::*;
use parity_scale_codec::Encode;

verus! {

/// A kitty: its 16-byte genome. Kitties are never changed once created.
#[derive(Clone, Copy, Debug, PartialEq, Eq)]
pub struct Kitty(pub [u8; 16]);

/// One byte of a child: where `selector` has a bit set the bit comes from `dna1`, else from `dna2`.
pub open spec fn spec_combine_dna(dna1: u8, dna2: u8, selector: u8) -> u8 {
    (selector & dna1) | (!selector & dna2)
}

/// The genome of a child of `a` and `b` under `selector`, byte by byte.
pub open spec fn mixed_dna(a: Seq<u8>, b: Seq<u8>, selector: Seq<u8>) -> Seq<u8> {
    Seq::new(16, |i: int| spec_combine_dna(a[i], b[i], selector[i]))
}

/// Little-endian bytes of a `u32`.
pub open spec fn le_bytes_u32(x: u32) -> Seq<u8> {
    seq![
        (x & 0xff) as u8,
        ((x >> 8u32) & 0xff) as u8,
        ((x >> 16u32) & 0xff) as u8,
        ((x >> 24u32) & 0xff) as u8,
    ]
}

/// Little-endian bytes of a `u64`.
pub open spec fn le_bytes_u64(x: u64) -> Seq<u8> {
    seq![
        (x & 0xff) as u8,
        ((x >> 8u64) & 0xff) as u8,
        ((x >> 16u64) & 0xff) as u8,
        ((x >> 24u64) & 0xff) as u8,
        ((x >> 32u64) & 0xff) as u8,
        ((x >> 40u64) & 0xff) as u8,
        ((x >> 48u64) & 0xff) as u8,
        ((x >> 56u64) & 0xff) as u8,
    ]
}

/// The SCALE encoding of the entropy input `(seed, sender, extrinsic_index)`: the seed's bytes,
/// the sender in little-endian order, then `0` for no index or `1` and the index.
pub open spec fn entropy_payload(seed: Seq<u8>, sender: u64, extrinsic_index: Option<u32>) -> Seq<
    u8,
> {
    seed + le_bytes_u64(sender) + match extrinsic_index {
        None => seq![0u8],
        Some(i) => seq![1u8] + le_bytes_u32(i),
    }
}

/// The 128-bit Blake2 digest of `data`.
pub uninterp spec fn blake2_128_of(data: Seq<u8>) -> Seq<u8>;

/// The 16 bytes of entropy drawn for `sender` from the chain's `seed` at `extrinsic_index`.
pub open spec fn entropy_of(seed: Seq<u8>, sender: u64, extrinsic_index: Option<u32>) -> Seq<u8> {
    blake2_128_of(entropy_payload(seed, sender, extrinsic_index))
}

/// Relies on parity-scale-codec's `Encode` for a tuple of a byte array, a `u64` and an
/// `Option<u32>`: fields in order, arrays as raw bytes, integers little-endian, an option as a
/// tag byte followed by its value.
#[verifier::external_body]
fn encode_entropy_input(seed: [u8; 32], sender: u64, extrinsic_index: Option<u32>) -> (r: Vec<u8>)
    ensures
        r@ == entropy_payload(seed@, sender, extrinsic_index),
{
    (seed, sender, extrinsic_index).encode()
}

/// Relies on sp_io::hashing::blake2_128: the 128-bit Blake2 digest, a function of the bytes alone.
#[verifier::external_body]
fn blake2_128(data: &[u8]) -> (r: [u8; 16])
    ensures
        r@ == blake2_128_of(data@),
{
    sp_io::hashing::blake2_128(data)
}

/// Draws 16 bytes of entropy for `sender`: the Blake2-128 digest of the encoded
/// `(seed, sender, extrinsic_index)`, where `seed` is the chain's random seed and
/// `extrinsic_index` the position of the current call in its block.
pub fn random_value(seed: [u8; 32], sender: u64, extrinsic_index: Option<u32>) -> (r: [u8; 16])
    ensures
        r@ == entropy_of(seed@, sender, extrinsic_index),
{
    let payload = encode_entropy_input(seed, sender, extrinsic_index);
    blake2_128(payload.as_slice())
}

/// Mixes one byte of two parents: each bit of `selector` picks the bit of `dna1` (when set) or
/// of `dna2` (when clear).
pub fn combine_dna(dna1: u8, dna2: u8, selector: u8) -> (r: u8)
    ensures
        r == spec_combine_dna(dna1, dna2, selector),
{
    (selector & dna1) | (!selector & dna2)
}

/// The child of `a` and `b`: every byte mixed by the matching byte of `selector`.
pub fn combine_kitties(a: &Kitty, b: &Kitty, selector: [u8; 16]) -> (r: Kitty)
    ensures
        r.0@ == mixed_dna(a.0@, b.0@, selector@),
{
    let mut new_dna: [u8; 16] = [0u8; 16];
    let mut i: usize = 0;
    while i < 16
        invariant
            0 <= i <= 16,
            new_dna@.len() == 16,
            forall|j: int|
                0 <= j < i ==> new_dna@[j] == spec_combine_dna(a.0@[j], b.0@[j], selector@[j]),
        decreases 16 - i,
    {
        let byte = combine_dna(a.0[i], b.0[i], selector[i]);
        new_dna[i] = byte;
        i = i + 1;
    }
    assert(new_dna@ =~= mixed_dna(a.0@, b.0@, selector@));
    Kitty(new_dna)
}

/// Swapping the parents changes the child unless they are equal: whatever the selector, a byte
/// mixed from `a` and `b` equals the byte mixed from `b` and `a` exactly when `a == b`.
pub proof fn lemma_combine_not_symmetric(a: u8, b: u8, selector: u8)
    ensures
        spec_combine_dna(a, b, selector) == spec_combine_dna(b, a, selector) <==> a == b,
{
    assert(((selector & a) | (!selector & b)) == ((selector & b) | (!selector & a)) <==> a == b)
        by (bit_vector);
}

} // verus!
