//! Schnorr signatures over Ristretto, made and checked by `schnorrkel`.
//!
//! A signature binds a message to a signing context: the context enters the
//! transcript that is signed, apart from the message.

use vstd::prelude::*;
use crate::bytes::le_nat;
use crate::digest::sha256_digest;
use crate::point::{is_point, ristretto_encoding, Point};
use crate::scalar::{scalar_order, Scalar};

verus! {

/// Whether `schnorrkel` accepts `signature` as one by `public_key` on
/// `message` in the signing context `context`.
pub uninterp spec fn schnorr_accepts(
    public_key: Seq<u8>,
    signature: Seq<u8>,
    message: Seq<u8>,
    context: Seq<u8>,
) -> bool;

/// `PublicKey::from_bytes`, `Signature::from_bytes` and
/// `PublicKey::verify_simple`: whether the key and the signature parse and
/// the signature is accepted for the message in the context.
#[verifier::external_body]
fn schnorrkel_verify(public_key: &[u8], signature: &[u8], message: &[u8], context: &[u8]) -> (r:
    bool)
    ensures
        r == schnorr_accepts(public_key@, signature@, message@, context@),
{
    let key = match schnorrkel::PublicKey::from_bytes(public_key) {
        Ok(k) => k,
        Err(_) => return false,
    };
    let sig = match schnorrkel::Signature::from_bytes(signature) {
        Ok(s) => s,
        Err(_) => return false,
    };
    key.verify_simple(context, message, &sig).is_ok()
}

/// `SecretKey::from_bytes` on the canonical scalar followed by the nonce
/// seed, `PublicKey::from_bytes`, then `SecretKey::sign_simple` and
/// `Signature::to_bytes`: a signature of 64 bytes, drawn with fresh
/// randomness, which `verify_simple` accepts for the same message and
/// context whenever the public key is the secret scalar's multiple of the
/// base point.
#[verifier::external_body]
fn schnorrkel_sign(
    secret: &[u8; 32],
    nonce_seed: &[u8; 32],
    public_key: &[u8; 32],
    message: &[u8],
    context: &[u8],
) -> (r: Vec<u8>)
    requires
        le_nat(secret@) < scalar_order(),
        is_point(public_key@),
    ensures
        r@.len() == 64,
        public_key@ == ristretto_encoding(le_nat(secret@)) ==> schnorr_accepts(
            public_key@,
            r@,
            message@,
            context@,
        ),
{
    let mut raw = [0u8; 64];
    raw[..32].copy_from_slice(secret);
    raw[32..].copy_from_slice(nonce_seed);
    let key = schnorrkel::SecretKey::from_bytes(&raw).unwrap();
    let public = schnorrkel::PublicKey::from_bytes(public_key).unwrap();
    key.sign_simple(context, message, &public).to_bytes().to_vec()
}

/// Signs `message` in the signing context `context` with the secret key
/// `secret`, whose public key is `public_key`.
///
/// The signature differs from call to call. Whatever it is, it is accepted
/// under `public_key` when that is `secret·B`.
pub fn sign_msg(secret: &Scalar, public_key: &Point, message: &[u8], context: &[u8]) -> (r: Vec<
    u8,
>)
    ensures
        r@.len() == 64,
        public_key.index() == secret@ ==> schnorr_accepts(public_key@, r@, message@, context@),
{
    let raw = secret.to_bytes();
    let public = public_key.to_bytes();
    let seed = sha256_digest(raw.as_slice());
    proof {
        use_type_invariant(secret);
        use_type_invariant(public_key);
        secret.lemma_wf();
        public_key.lemma_wf();
    }
    schnorrkel_sign(&raw, &seed, &public, message, context)
}

/// Whether `signature` is accepted as one by `public_key` on `message` in
/// the signing context `context`.
pub fn verify_signature(public_key: &[u8], signature: &[u8], message: &[u8], context: &[u8]) -> (r:
    bool)
    ensures
        r == schnorr_accepts(public_key@, signature@, message@, context@),
{
    schnorrkel_verify(public_key, signature, message, context)
}

} // verus!
