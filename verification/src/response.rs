//! The messages of a run besides the deal: the encrypted deal, the
//! verifier's response and the dealer's justification.

use vstd::prelude::*;
use vstd::std_specs::cmp::PartialEqSpecImpl;
use crate::bytes::{bytes_eq, copy_bytes, le32, put_bytes, put_u32};
use crate::codec::{encode, encode_deal};
use crate::deal::{Deal, DealView};
use crate::digest::{sha256, sha256_digest};
use crate::error::VssError;
use crate::dh::open_spec;
use crate::codec::encodable;
use crate::point::{point_index, ristretto_encoding, Point};
use crate::scalar::scalar_order;
use crate::sign::schnorr_accepts;

verus! {

/// A deal encrypted for one verifier, under a key that the dealer and the
/// verifier derive from a Diffie-Hellman exchange.
#[derive(Debug)]
pub struct EncryptedDeal {
    /// The dealer's ephemeral Diffie-Hellman key.
    pub dh_key: Point,
    /// The dealer's signature on the encoding of the ephemeral key.
    pub signature: Vec<u8>,
    /// The nonce of the encryption.
    pub nonce: Vec<u8>,
    /// The encrypted encoding of the deal.
    pub cipher: Vec<u8>,
}

/// An encrypted deal as a mathematical value.
pub struct EncryptedDealView {
    pub dh_key: Seq<u8>,
    pub signature: Seq<u8>,
    pub nonce: Seq<u8>,
    pub cipher: Seq<u8>,
}

impl View for EncryptedDeal {
    type V = EncryptedDealView;

    open spec fn view(&self) -> EncryptedDealView {
        EncryptedDealView {
            dh_key: self.dh_key@,
            signature: self.signature@,
            nonce: self.nonce@,
            cipher: self.cipher@,
        }
    }
}

impl Clone for EncryptedDeal {
    fn clone(&self) -> (r: EncryptedDeal)
        ensures
            r@ == self@,
    {
        EncryptedDeal {
            dh_key: self.dh_key,
            signature: copy_bytes(self.signature.as_slice()),
            nonce: copy_bytes(self.nonce.as_slice()),
            cipher: copy_bytes(self.cipher.as_slice()),
        }
    }
}

/// The nonce of every encrypted deal: twelve zero bytes. The key is used
/// once, so the nonce need not vary.
pub open spec fn zero_nonce() -> Seq<u8> {
    Seq::new(12, |i: int| 0u8)
}

/// The encoding of the point that the holder of `secret` shares with the
/// holder of the secret behind `public`: `secret·public`.
pub open spec fn shared_point(secret: nat, public: Seq<u8>) -> Seq<u8> {
    ristretto_encoding((secret * point_index(public)) % scalar_order())
}

/// Whether a byte string is the encoding of a deal.
pub open spec fn encodes_deal(m: Seq<u8>, v: DealView) -> bool {
    encodable(v) && encode_deal(v) == m
}

/// The deal that a byte string encodes, if it encodes one.
pub open spec fn decode_spec(m: Seq<u8>) -> Result<DealView, VssError> {
    if exists|v: DealView| encodes_deal(m, v) {
        Ok(choose|v: DealView| encodes_deal(m, v))
    } else {
        Err(VssError::MalformedDeal)
    }
}

/// What the verifier `index` with the secret key `long` finds in an
/// encrypted deal from `dealer`: the deal, or the first failure among the
/// dealer's signature on the ephemeral key, the decryption under the
/// shared key, and the decoding of the plaintext.
pub open spec fn decrypt_spec(
    ed: EncryptedDealView,
    long: nat,
    dealer: Seq<u8>,
    index: u32,
    context: Seq<u8>,
) -> Result<DealView, VssError> {
    let opened = open_spec(shared_point(long, ed.dh_key), context, ed.nonce, ed.cipher);
    if !schnorr_accepts(dealer, ed.signature, ed.dh_key, le32(index)) {
        Err(VssError::BadSignature)
    } else if opened is None {
        Err(VssError::DecryptionFailed)
    } else {
        decode_spec(opened->Some_0)
    }
}

/// A verifier's verdict on its deal: an approval, or a complaint.
#[derive(Debug)]
pub struct Response {
    /// The identifier of the run.
    pub session_id: Vec<u8>,
    /// The index of the verifier that issued the response.
    pub index: u32,
    /// Whether the verifier approves its deal.
    pub approved: bool,
    /// The verifier's signature on the response.
    pub signature: Vec<u8>,
}

/// A response as a mathematical value.
pub struct ResponseView {
    pub session_id: Seq<u8>,
    pub index: u32,
    pub approved: bool,
    pub signature: Seq<u8>,
}

impl View for Response {
    type V = ResponseView;

    open spec fn view(&self) -> ResponseView {
        ResponseView {
            session_id: self.session_id@,
            index: self.index,
            approved: self.approved,
            signature: self.signature@,
        }
    }
}

impl Clone for Response {
    fn clone(&self) -> (r: Response)
        ensures
            r@ == self@,
    {
        Response {
            session_id: copy_bytes(self.session_id.as_slice()),
            index: self.index,
            approved: self.approved,
            signature: copy_bytes(self.signature.as_slice()),
        }
    }
}

impl PartialEq for Response {
    /// Whether two responses are the same value.
    fn eq(&self, other: &Response) -> (r: bool) {
        bytes_eq(self.session_id.as_slice(), other.session_id.as_slice()) && self.index
            == other.index && self.approved == other.approved && bytes_eq(
            self.signature.as_slice(),
            other.signature.as_slice(),
        )
    }
}

impl PartialEqSpecImpl for Response {
    open spec fn obeys_eq_spec() -> bool {
        true
    }

    open spec fn eq_spec(&self, other: &Response) -> bool {
        self@ == other@
    }
}

impl Default for Response {
    /// A complaint of the verifier 0 without session identifier or
    /// signature.
    fn default() -> (r: Response)
        ensures
            r@ == (ResponseView {
                session_id: Seq::empty(),
                index: 0,
                approved: false,
                signature: Seq::empty(),
            }),
    {
        Response { session_id: Vec::new(), index: 0, approved: false, signature: Vec::new() }
    }
}

/// The ASCII bytes of `response`.
pub open spec fn response_label() -> Seq<u8> {
    seq![0x72u8, 0x65, 0x73, 0x70, 0x6f, 0x6e, 0x73, 0x65]
}

/// The ASCII bytes of `justification`.
pub open spec fn justification_label() -> Seq<u8> {
    seq![0x6au8, 0x75, 0x73, 0x74, 0x69, 0x66, 0x69, 0x63, 0x61, 0x74, 0x69, 0x6f, 0x6e]
}

/// What a verifier signs: `"response"`, the session identifier, the index
/// and the verdict, the two on four bytes each.
pub open spec fn response_input(session_id: Seq<u8>, index: u32, approved: u32) -> Seq<u8> {
    response_label() + session_id + le32(index) + le32(approved)
}

/// The digest that a verifier signs.
pub open spec fn response_hash(session_id: Seq<u8>, index: u32, approved: u32) -> Seq<u8> {
    sha256(response_input(session_id, index, approved))
}

/// The verdict as a number: 1 for an approval, 0 for a complaint.
pub open spec fn verdict(approved: bool) -> u32 {
    if approved {
        1
    } else {
        0
    }
}

impl ResponseView {
    /// The digest that the issuer of this response signs.
    pub open spec fn hash(self) -> Seq<u8> {
        response_hash(self.session_id, self.index, verdict(self.approved))
    }
}

impl Response {
    /// The digest that the verifier `index` signs for its verdict.
    pub fn hash(session_id: &[u8], index: u32, approved: u32) -> (r: Result<[u8; 32], VssError>)
        ensures
            r matches Ok(h) && h@ == response_hash(session_id@, index, approved),
    {
        let mut buf: Vec<u8> = Vec::new();
        let label: [u8; 8] = [0x72, 0x65, 0x73, 0x70, 0x6f, 0x6e, 0x73, 0x65];
        put_bytes(&mut buf, label.as_slice());
        assert(buf@ =~= response_label());
        put_bytes(&mut buf, session_id);
        put_u32(&mut buf, index);
        put_u32(&mut buf, approved);
        Ok(sha256_digest(buf.as_slice()))
    }

    /// The digest that the issuer of this response signs.
    pub fn hash_self(&self) -> (r: Result<[u8; 32], VssError>)
        ensures
            r matches Ok(h) && h@ == self@.hash(),
    {
        let approved: u32 = if self.approved {
            1
        } else {
            0
        };
        Response::hash(self.session_id.as_slice(), self.index, approved)
    }
}

/// The dealer's answer to a complaint: the deal of the complaining
/// verifier, in the clear.
#[derive(Debug)]
pub struct Justification {
    /// The identifier of the run.
    pub session_id: Vec<u8>,
    /// The index of the verifier that complained.
    pub index: u32,
    /// The deal of that verifier.
    pub deal: Deal,
    /// The dealer's signature on the justification.
    pub signature: Vec<u8>,
}

/// A justification as a mathematical value.
pub struct JustificationView {
    pub session_id: Seq<u8>,
    pub index: u32,
    pub deal: DealView,
    pub signature: Seq<u8>,
}

impl View for Justification {
    type V = JustificationView;

    open spec fn view(&self) -> JustificationView {
        JustificationView {
            session_id: self.session_id@,
            index: self.index,
            deal: self.deal@,
            signature: self.signature@,
        }
    }
}

impl Clone for Justification {
    fn clone(&self) -> (r: Justification)
        ensures
            r@ == self@,
    {
        Justification {
            session_id: copy_bytes(self.session_id.as_slice()),
            index: self.index,
            deal: self.deal.clone(),
            signature: copy_bytes(self.signature.as_slice()),
        }
    }
}

impl PartialEq for Justification {
    /// Whether two justifications are the same value.
    fn eq(&self, other: &Justification) -> (r: bool) {
        bytes_eq(self.session_id.as_slice(), other.session_id.as_slice()) && self.index
            == other.index && self.deal == other.deal && bytes_eq(
            self.signature.as_slice(),
            other.signature.as_slice(),
        )
    }
}

impl PartialEqSpecImpl for Justification {
    open spec fn obeys_eq_spec() -> bool {
        true
    }

    open spec fn eq_spec(&self, other: &Justification) -> bool {
        self@ == other@
    }
}

/// What the dealer signs: `"justification"`, the session identifier, the
/// index on four bytes, and the encoding of the deal.
pub open spec fn justification_input(session_id: Seq<u8>, index: u32, deal: DealView) -> Seq<u8> {
    justification_label() + session_id + le32(index) + encode_deal(deal)
}

/// The digest that the dealer signs.
pub open spec fn justification_hash(session_id: Seq<u8>, index: u32, deal: DealView) -> Seq<u8> {
    sha256(justification_input(session_id, index, deal))
}

impl Justification {
    /// The digest that the dealer signs to justify the deal of the verifier
    /// `index`.
    pub fn hash(session_id: &[u8], index: u32, deal: &Deal) -> (r: Result<[u8; 32], VssError>)
        ensures
            r matches Ok(h) && h@ == justification_hash(session_id@, index, deal@),
    {
        let mut buf: Vec<u8> = Vec::new();
        let label: [u8; 13] = [
            0x6a,
            0x75,
            0x73,
            0x74,
            0x69,
            0x66,
            0x69,
            0x63,
            0x61,
            0x74,
            0x69,
            0x6f,
            0x6e,
        ];
        put_bytes(&mut buf, label.as_slice());
        assert(buf@ =~= justification_label());
        put_bytes(&mut buf, session_id);
        put_u32(&mut buf, index);
        let deal_buf = encode(deal);
        put_bytes(&mut buf, deal_buf.as_slice());
        Ok(sha256_digest(buf.as_slice()))
    }
}

} // verus!
