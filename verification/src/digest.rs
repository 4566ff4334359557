//! Hash functions: SHA-256 and the BLAKE2b-based output stream from which the
//! second generator is drawn.

use vstd::prelude::*;

verus! {

/// The SHA-256 digest of a byte string, as the `sha2` crate computes it.
pub uninterp spec fn sha256(data: Seq<u8>) -> Seq<u8>;

/// `Sha256::digest`: the 32-byte SHA-256 digest of the data.
#[verifier::external_body]
pub(crate) fn sha256_digest(data: &[u8]) -> (r: [u8; 32])
    ensures
        r@ == sha256(data@),
{
    <sha2::Sha256 as sha2::Digest>::digest(data).into()
}

/// The BLAKE2b digest of `input` under the given parameter block, as
/// `blake2b_simd` computes it with no key, salt or personalisation.
pub uninterp spec fn blake2b(
    hash_length: u8,
    fanout: u8,
    max_depth: u8,
    max_leaf_length: u32,
    node_offset: u64,
    inner_hash_length: u8,
    input: Seq<u8>,
) -> Seq<u8>;

/// `blake2b_simd::Params` with the given digest length, fanout, depth, leaf
/// length, node offset and inner length, then `hash`: a digest of
/// `hash_length` bytes.
#[verifier::external_body]
fn blake2b_digest(
    hash_length: u8,
    fanout: u8,
    max_depth: u8,
    max_leaf_length: u32,
    node_offset: u64,
    inner_hash_length: u8,
    input: &[u8],
) -> (r: Vec<u8>)
    requires
        1 <= hash_length <= 64,
        inner_hash_length <= 64,
    ensures
        r@ == blake2b(
            hash_length,
            fanout,
            max_depth,
            max_leaf_length,
            node_offset,
            inner_hash_length,
            input@,
        ),
        r@.len() == hash_length,
{
    let mut params = blake2b_simd::Params::new();
    params.hash_length(hash_length as usize).fanout(fanout).max_depth(max_depth);
    params.max_leaf_length(max_leaf_length).node_offset(node_offset);
    params.inner_hash_length(inner_hash_length as usize);
    params.hash(input).as_bytes().to_vec()
}

/// The length field of an output stream whose length is not fixed in
/// advance, placed in the upper half of the node offset word.
pub open spec fn stream_length_field() -> u64 {
    0xFFFF_FFFF_0000_0000
}

/// The root digest of the output stream seeded by `seed`: plain sequential
/// BLAKE2b with 64 bytes of output, the stream length in the parameter block.
pub open spec fn stream_root(seed: Seq<u8>) -> Seq<u8> {
    blake2b(64, 1, 1, 0, stream_length_field(), 0, seed)
}

/// Block `i` of the output stream seeded by `seed`: the digest of the root
/// under fanout 0, depth 0, leaf length 64, node offset `i`, inner length 64.
pub open spec fn stream_block(seed: Seq<u8>, i: u32) -> Seq<u8> {
    blake2b(64, 0, 0, 64, (stream_length_field() + i) as u64, 64, stream_root(seed))
}

/// The root digest of the output stream seeded by `seed`.
pub fn compute_stream_root(seed: &[u8]) -> (r: Vec<u8>)
    ensures
        r@ == stream_root(seed@),
        r@.len() == 64,
{
    blake2b_digest(64, 1, 1, 0, 0xFFFF_FFFF_0000_0000, 0, seed)
}

/// Block `i` of the output stream with the given root digest.
pub fn compute_stream_block(root: &[u8], i: u32) -> (r: Vec<u8>)
    ensures
        r@ == blake2b(64, 0, 0, 64, (stream_length_field() + i) as u64, 64, root@),
        r@.len() == 64,
{
    let offset: u64 = 0xFFFF_FFFF_0000_0000 + i as u64;
    blake2b_digest(64, 0, 0, 64, offset, 64, root)
}

} // verus!
