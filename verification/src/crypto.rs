//! The two cryptographic primitives the claim protocol consumes — a
//! collision-resistant 256-bit hash and a strong random 64-bit source —
//! together with the verified construction of a claim's hash preimage.

use vstd::prelude::*;

verus! {

/// The big-endian bytes of a 64-bit value.
pub open spec fn spec_be_bytes_u64(x: u64) -> Seq<u8> {
    seq![
        ((x >> 56) & 0xff) as u8,
        ((x >> 48) & 0xff) as u8,
        ((x >> 40) & 0xff) as u8,
        ((x >> 32) & 0xff) as u8,
        ((x >> 24) & 0xff) as u8,
        ((x >> 16) & 0xff) as u8,
        ((x >> 8) & 0xff) as u8,
        (x & 0xff) as u8,
    ]
}

/// The big-endian bytes of a 32-bit value.
pub open spec fn spec_be_bytes_u32(x: u32) -> Seq<u8> {
    seq![((x >> 24) & 0xff) as u8, ((x >> 16) & 0xff) as u8, ((x >> 8) & 0xff) as u8, (x & 0xff) as u8]
}

/// A claim's hash preimage: the big-endian bytes of the random draw
/// followed by the big-endian bytes of the role identifier.
pub open spec fn spec_claim_preimage(draw: u64, role_id: u32) -> Seq<u8> {
    spec_be_bytes_u64(draw) + spec_be_bytes_u32(role_id)
}

/// The lowest byte of a 64-bit value.
fn low_byte(x: u64) -> (r: u8)
    ensures
        r == (x & 0xff) as u8,
{
    proof {
        assert((x & 0xff) < 256) by (bit_vector);
    }
    (x & 0xff) as u8
}

/// Builds the 12-byte preimage hashed into a claim key.
pub fn claim_preimage(draw: u64, role_id: u32) -> (r: Vec<u8>)
    ensures
        r@ == spec_claim_preimage(draw, role_id),
        r@.len() == 12,
{
    let mut out: Vec<u8> = Vec::new();
    out.push(low_byte(draw >> 56));
    out.push(low_byte(draw >> 48));
    out.push(low_byte(draw >> 40));
    out.push(low_byte(draw >> 32));
    out.push(low_byte(draw >> 24));
    out.push(low_byte(draw >> 16));
    out.push(low_byte(draw >> 8));
    out.push(low_byte(draw));
    out.push(low_byte((role_id >> 24) as u64));
    out.push(low_byte((role_id >> 16) as u64));
    out.push(low_byte((role_id >> 8) as u64));
    out.push(low_byte(role_id as u64));
    proof {
        assert(((role_id >> 24) as u64 & 0xff) as u8 == ((role_id >> 24) & 0xff) as u8)
            by (bit_vector);
        assert(((role_id >> 16) as u64 & 0xff) as u8 == ((role_id >> 16) & 0xff) as u8)
            by (bit_vector);
        assert(((role_id >> 8) as u64 & 0xff) as u8 == ((role_id >> 8) & 0xff) as u8)
            by (bit_vector);
        assert((role_id as u64 & 0xff) as u8 == (role_id & 0xff) as u8) by (bit_vector);
        assert(out@ =~= spec_claim_preimage(draw, role_id));
    }
    out
}

/// The digest the 256-bit collision-resistant hash assigns to a byte
/// sequence; it depends on the bytes alone.
pub uninterp spec fn sha256_of(input: Seq<u8>) -> Seq<u8>;

/// Relies on sha2's `Sha256` (the FIPS 180-4 function): the digest is 32
/// bytes and is determined by the input bytes alone.
#[verifier::external_body]
pub(crate) fn sha256(input: &Vec<u8>) -> (r: Vec<u8>)
    ensures
        r@ == sha256_of(input@),
        r@.len() == 32,
{
    <sha2::Sha256 as sha2::Digest>::digest(input.as_slice()).to_vec()
}

/// Relies on rand's thread-local generator: a uniformly random draw from
/// `1..=u64::MAX`; nothing but its range is promised of the result.
#[verifier::external_body]
pub(crate) fn random_nonzero_u64() -> (r: u64)
    ensures
        1 <= r,
{
    rand::RngExt::random_range(&mut rand::rng(), 1..=u64::MAX)
}

} // verus!
