//! The confidential channel from dealer to verifier: a Diffie-Hellman
//! exchange, a key derived from the shared point by HKDF-SHA-256, and
//! AES-256-GCM under that key.

use vstd::prelude::*;
use crate::bytes::{concat_all, put_bytes};
use crate::point::{put_points, encodings, Point};
use crate::scalar::{scalar_order, Scalar};

verus! {

/// The 32-byte output of HKDF-SHA-256 without salt on the input key material
/// `ikm` with the info string `info`, as the `hkdf` crate computes it.
pub uninterp spec fn hkdf_sha256(ikm: Seq<u8>, info: Seq<u8>) -> Seq<u8>;

/// What AES-256-GCM encryption of `msg` gives under `key` and `nonce` with
/// the associated data `aad`, as `aes-gcm` computes it: the ciphertext with
/// its tag, or nothing where the input is longer than the cipher admits.
pub uninterp spec fn aes256gcm_seal(key: Seq<u8>, nonce: Seq<u8>, aad: Seq<u8>, msg: Seq<u8>)
    -> Option<Seq<u8>>;

/// What AES-256-GCM decryption of `cipher` gives under `key` and `nonce`
/// with the associated data `aad`, as `aes-gcm` computes it: the plaintext,
/// or nothing where the tag does not match.
pub uninterp spec fn aes256gcm_open(key: Seq<u8>, nonce: Seq<u8>, aad: Seq<u8>, cipher: Seq<u8>)
    -> Option<Seq<u8>>;

/// `Hkdf::<Sha256>::new` without salt, then `expand` into 32 bytes.
#[verifier::external_body]
fn hkdf_expand(ikm: &[u8], info: &[u8]) -> (r: [u8; 32])
    ensures
        r@ == hkdf_sha256(ikm@, info@),
{
    let mut okm = [0u8; 32];
    hkdf::Hkdf::<sha2::Sha256>::new(None, ikm).expand(info, &mut okm).unwrap();
    okm
}

/// The longest message, and the longest associated data, that AES-GCM
/// admits: `2^36` bytes.
pub open spec fn gcm_limit() -> nat {
    0x10_0000_0000
}

/// `Aes256Gcm::new` then `Aead::encrypt` with a `Payload` of message and
/// associated data. It refuses exactly a message or associated data
/// longer than `2^36` bytes. What it returns, decryption under the same
/// key, nonce and associated data opens to the message.
#[verifier::external_body]
fn gcm_encrypt(key: &[u8; 32], nonce: &[u8; 12], aad: &[u8], msg: &[u8]) -> (r: Option<Vec<u8>>)
    ensures
        match r {
            Some(c) => {
                &&& msg@.len() <= gcm_limit() && aad@.len() <= gcm_limit()
                &&& aes256gcm_seal(key@, nonce@, aad@, msg@) == Some(c@)
                &&& aes256gcm_open(key@, nonce@, aad@, c@) == Some(msg@)
            },
            None => {
                &&& msg@.len() > gcm_limit() || aad@.len() > gcm_limit()
                &&& aes256gcm_seal(key@, nonce@, aad@, msg@) is None
            },
        },
{
    let cipher = <aes_gcm::Aes256Gcm as aead::KeyInit>::new(key.into());
    aead::Aead::encrypt(&cipher, nonce.into(), aead::Payload { msg, aad }).ok()
}

/// `Aes256Gcm::new` then `Aead::decrypt` with a `Payload` of ciphertext and
/// associated data.
#[verifier::external_body]
fn gcm_decrypt(key: &[u8; 32], nonce: &[u8; 12], aad: &[u8], cipher: &[u8]) -> (r: Option<Vec<u8>>)
    ensures
        match r {
            Some(m) => aes256gcm_open(key@, nonce@, aad@, cipher@) == Some(m@),
            None => aes256gcm_open(key@, nonce@, aad@, cipher@) is None,
        },
{
    let gcm = <aes_gcm::Aes256Gcm as aead::KeyInit>::new(key.into());
    aead::Aead::decrypt(&gcm, nonce.into(), aead::Payload { msg: cipher, aad }).ok()
}

/// The label that opens the key-derivation context.
pub open spec fn dealer_label() -> Seq<u8> {
    seq![0x76u8, 0x73, 0x73, 0x2d, 0x64, 0x65, 0x61, 0x6c, 0x65, 0x72]
}

/// The label that separates the dealer's key from the verifiers' keys.
pub open spec fn verifiers_label() -> Seq<u8> {
    seq![0x76u8, 0x73, 0x73, 0x2d, 0x76, 0x65, 0x72, 0x69, 0x66, 0x69, 0x65, 0x72, 0x73]
}

/// The key-derivation context of a run: `"vss-dealer"`, the dealer's key,
/// `"vss-verifiers"`, then every verifier's key in order.
pub open spec fn context_spec(dealer: Seq<u8>, verifiers: Seq<Seq<u8>>) -> Seq<u8> {
    dealer_label() + dealer + verifiers_label() + concat_all(verifiers)
}

/// The key-derivation context that binds a key to the participants of a
/// run. Dealer and verifiers compute the same string.
pub fn context(dealer: &Point, verifiers: &[Point]) -> (r: Vec<u8>)
    ensures
        r@ == context_spec(dealer@, encodings(verifiers@)),
{
    let mut out: Vec<u8> = Vec::new();
    let head: [u8; 10] = [0x76, 0x73, 0x73, 0x2d, 0x64, 0x65, 0x61, 0x6c, 0x65, 0x72];
    let sep: [u8; 13] = [0x76, 0x73, 0x73, 0x2d, 0x76, 0x65, 0x72, 0x69, 0x66, 0x69, 0x65, 0x72, 0x73];
    put_bytes(&mut out, head.as_slice());
    assert(out@ =~= dealer_label());
    let d = dealer.to_bytes();
    put_bytes(&mut out, d.as_slice());
    put_bytes(&mut out, sep.as_slice());
    assert(sep@ =~= verifiers_label());
    put_points(&mut out, verifiers);
    out
}

/// The point shared by the holder of `secret` and the holder of the secret
/// behind `public`: `secret·public`.
pub fn dh_exchange(secret: &Scalar, public: &Point) -> (r: Point)
    ensures
        r.wf(),
        r.index() == (secret@ * public.index()) % scalar_order(),
{
    public.scalar_mul(secret)
}

/// The AES-256-GCM key that both ends derive from the shared point.
pub open spec fn channel_key(shared: Seq<u8>, context: Seq<u8>) -> Seq<u8> {
    hkdf_sha256(shared, context)
}

/// What sealing `msg` for the holder of the shared point gives: AES-256-GCM
/// under the derived key with the nonce `nonce`, the context as associated
/// data.
pub open spec fn seal_spec(shared: Seq<u8>, context: Seq<u8>, nonce: Seq<u8>, msg: Seq<u8>)
    -> Option<Seq<u8>> {
    aes256gcm_seal(channel_key(shared, context), nonce, context, msg)
}

/// What opening `cipher` with the shared point gives: the plaintext, or
/// nothing where the nonce is not 12 bytes or the tag does not match.
pub open spec fn open_spec(shared: Seq<u8>, context: Seq<u8>, nonce: Seq<u8>, cipher: Seq<u8>)
    -> Option<Seq<u8>> {
    if nonce.len() == 12 {
        aes256gcm_open(channel_key(shared, context), nonce, context, cipher)
    } else {
        None
    }
}

/// Encrypts `msg` under the key derived from `shared` and `context`, with
/// the given nonce and the context as associated data. Fails exactly where
/// the message or the context is longer than the cipher admits.
pub fn seal(shared: &Point, context: &[u8], nonce: &[u8; 12], msg: &[u8]) -> (r: Option<Vec<u8>>)
    ensures
        r is Some <==> msg@.len() <= gcm_limit() && context@.len() <= gcm_limit(),
        match r {
            Some(c) => seal_spec(shared@, context@, nonce@, msg@) == Some(c@) && open_spec(
                shared@,
                context@,
                nonce@,
                c@,
            ) == Some(msg@),
            None => seal_spec(shared@, context@, nonce@, msg@) is None,
        },
{
    let pre = shared.to_bytes();
    let key = hkdf_expand(pre.as_slice(), context);
    gcm_encrypt(&key, nonce, context, msg)
}

/// Decrypts `cipher` under the key derived from `shared` and `context`.
pub fn open(shared: &Point, context: &[u8], nonce: &[u8], cipher: &[u8]) -> (r: Option<Vec<u8>>)
    ensures
        match r {
            Some(m) => open_spec(shared@, context@, nonce@, cipher@) == Some(m@),
            None => open_spec(shared@, context@, nonce@, cipher@) is None,
        },
{
    if nonce.len() != 12 {
        return None;
    }
    let mut fixed: [u8; 12] = [0u8; 12];
    let mut k: usize = 0;
    while k < 12
        invariant
            k <= 12,
            nonce.len() == 12,
            forall|j: int| 0 <= j < k ==> fixed@[j] == nonce@[j],
        decreases 12 - k,
    {
        fixed[k] = nonce[k];
        k += 1;
    }
    assert(fixed@ =~= nonce@);
    let pre = shared.to_bytes();
    let key = hkdf_expand(pre.as_slice(), context);
    gcm_decrypt(&key, &fixed, context, cipher)
}

} // verus!
