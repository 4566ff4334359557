//! What binds the artifacts of one run together: the threshold rule, the
//! session identifier, and the second generator.

use vstd::prelude::*;
use crate::bytes::{concat_all, le32, put_all, put_bytes, put_u32, views};
use crate::digest::{compute_stream_block, compute_stream_root, sha256, sha256_digest, stream_block};
use crate::error::VssError;
use crate::point::{encodings, is_point, put_points, Point};

verus! {

/// Whether `t` is a threshold for `n` verifiers: at least 2 and at most `n`.
pub open spec fn valid_threshold(t: u32, n: nat) -> bool {
    2 <= t && t <= n
}

/// Whether `t` is a valid threshold for the given verifiers.
pub fn valid_t(t: u32, verifiers: &[Point]) -> (r: bool)
    ensures
        r == valid_threshold(t, verifiers@.len()),
{
    t >= 2 && t as usize <= verifiers.len()
}

/// The smallest threshold that is safe for `n` participants: half of `n`,
/// rounded up.
pub fn minimum_t(n: u32) -> (r: u32)
    ensures
        r == (n + 1) / 2,
{
    n / 2 + n % 2
}

/// What is hashed into the session identifier: the dealer's key, every
/// verifier's key, every commitment, and the threshold on four bytes.
pub open spec fn session_input(
    dealer: Seq<u8>,
    verifiers: Seq<Seq<u8>>,
    commitments: Seq<Seq<u8>>,
    t: u32,
) -> Seq<u8> {
    dealer + concat_all(verifiers) + concat_all(commitments) + le32(t)
}

/// The session identifier of a run: the SHA-256 digest of the session
/// input.
pub open spec fn session_id_spec(
    dealer: Seq<u8>,
    verifiers: Seq<Seq<u8>>,
    commitments: Seq<Seq<u8>>,
    t: u32,
) -> Seq<u8> {
    sha256(session_input(dealer, verifiers, commitments, t))
}

/// The identifier of the run led by `dealer` for `verifiers` with the given
/// commitments and threshold.
pub fn session_id(dealer: &Point, verifiers: &[Point], commitments: &[Vec<u8>], t: u32) -> (r: [u8;
    32])
    ensures
        r@ == session_id_spec(dealer@, encodings(verifiers@), views(commitments@), t),
{
    let mut buf: Vec<u8> = Vec::new();
    let d = dealer.to_bytes();
    put_bytes(&mut buf, d.as_slice());
    assert(buf@ =~= dealer@);
    put_points(&mut buf, verifiers);
    put_all(&mut buf, commitments);
    put_u32(&mut buf, t);
    sha256_digest(buf.as_slice())
}

/// The number of 32-byte chunks that the hash stream offers: two for each
/// of its `2^32` blocks.
pub open spec fn stream_chunks() -> nat {
    0x2_0000_0000
}

/// Chunk `k` of the hash stream seeded by `seed`: a half of block `k / 2`.
pub open spec fn stream_chunk(seed: Seq<u8>, k: nat) -> Seq<u8> {
    stream_block(seed, (k / 2) as u32).subrange(((k % 2) * 32) as int, ((k % 2) * 32 + 32) as int)
}

/// Whether chunk `k` is the first chunk of the stream that encodes a group
/// element.
pub open spec fn first_point_at(seed: Seq<u8>, k: nat) -> bool {
    &&& k < stream_chunks()
    &&& is_point(stream_chunk(seed, k))
    &&& forall|j: nat| j < k ==> !is_point(#[trigger] stream_chunk(seed, j))
}

/// The first chunk of the stream seeded by `seed` that encodes a group
/// element, if there is one.
pub open spec fn hash_to_point(seed: Seq<u8>) -> Option<Seq<u8>> {
    if exists|k: nat| first_point_at(seed, k) {
        Some(stream_chunk(seed, choose|k: nat| first_point_at(seed, k)))
    } else {
        None
    }
}

/// The second generator of a run, drawn from the verifiers' keys alone: the
/// first group element in the hash stream seeded by their encodings.
pub open spec fn derive_h_spec(verifiers: Seq<Point>) -> Option<Seq<u8>> {
    hash_to_point(concat_all(encodings(verifiers)))
}

/// The first chunk that encodes a group element is determined.
pub proof fn lemma_first_point_unique(seed: Seq<u8>, k1: nat, k2: nat)
    requires
        first_point_at(seed, k1),
        first_point_at(seed, k2),
    ensures
        k1 == k2,
{
    if k1 < k2 {
        assert(!is_point(stream_chunk(seed, k1)));
    }
    if k2 < k1 {
        assert(!is_point(stream_chunk(seed, k2)));
    }
}

/// The point encoded by the 32 bytes of `block` from `from` on, if they
/// encode one.
fn chunk_point(block: &Vec<u8>, from: usize) -> (r: Option<Point>)
    requires
        block@.len() == 64,
        from == 0 || from == 32,
    ensures
        r is Some <==> is_point(block@.subrange(from as int, from + 32)),
        r matches Some(p) ==> p@ == block@.subrange(from as int, from + 32) && p.wf(),
{
    let mut chunk: Vec<u8> = Vec::new();
    let mut k: usize = 0;
    while k < 32
        invariant
            k <= 32,
            from <= 32,
            from + 32 <= block@.len(),
            chunk@ == block@.subrange(from as int, from + k),
        decreases 32 - k,
    {
        chunk.push(block[from + k]);
        assert(chunk@ =~= block@.subrange(from as int, from + k + 1));
        k += 1;
    }
    Point::from_bytes(chunk.as_slice())
}

/// Derives the second generator `H` from the verifiers' keys.
///
/// The keys are hashed into a stream of 32-byte chunks, and `H` is the first
/// chunk that decodes to a group element. Every party of a run computes the
/// same `H`. Fails only if no chunk of the whole stream decodes.
pub fn derive_h(verifiers: &[Point]) -> (r: Result<Point, VssError>)
    ensures
        match r {
            Ok(h) => derive_h_spec(verifiers@) == Some(h@) && h.wf(),
            Err(e) => e == VssError::HashToPoint && derive_h_spec(verifiers@) is None,
        },
{
    let mut buf: Vec<u8> = Vec::new();
    put_points(&mut buf, verifiers);
    let ghost seed = concat_all(encodings(verifiers@));
    assert(buf@ =~= seed);
    let root = compute_stream_root(buf.as_slice());
    let mut i: u64 = 0;
    while i < 0x1_0000_0000
        invariant
            i <= 0x1_0000_0000,
            seed == concat_all(encodings(verifiers@)),
            root@ == crate::digest::stream_root(seed),
            forall|j: nat| j < 2 * i ==> !is_point(#[trigger] stream_chunk(seed, j)),
        decreases 0x1_0000_0000 - i,
    {
        let block = compute_stream_block(root.as_slice(), i as u32);
        assert(block@ == stream_block(seed, i as u32));
        assert(stream_chunk(seed, (2 * i) as nat) == block@.subrange(0, 32));
        assert(stream_chunk(seed, (2 * i + 1) as nat) == block@.subrange(32, 64));
        match chunk_point(&block, 0) {
            Some(p) => {
                proof {
                    assert(first_point_at(seed, (2 * i) as nat));
                    lemma_first_point_unique(
                        seed,
                        (2 * i) as nat,
                        choose|k: nat| first_point_at(seed, k),
                    );
                }
                return Ok(p);
            },
            None => {},
        }
        match chunk_point(&block, 32) {
            Some(p) => {
                proof {
                    assert forall|j: nat| j < 2 * i + 1 implies !is_point(
                        #[trigger] stream_chunk(seed, j),
                    ) by {
                        if j == 2 * i {
                        }
                    }
                    assert(first_point_at(seed, (2 * i + 1) as nat));
                    lemma_first_point_unique(
                        seed,
                        (2 * i + 1) as nat,
                        choose|k: nat| first_point_at(seed, k),
                    );
                }
                return Ok(p);
            },
            None => {},
        }
        assert forall|j: nat| j < 2 * (i + 1) implies !is_point(#[trigger] stream_chunk(seed, j)) by {
            if j == 2 * i {
            } else if j == 2 * i + 1 {
            }
        }
        i += 1;
    }
    proof {
        assert forall|k: nat| !first_point_at(seed, k) by {
            if first_point_at(seed, k) {
                assert(!is_point(stream_chunk(seed, k)));
            }
        }
    }
    Err(VssError::HashToPoint)
}

} // verus!
