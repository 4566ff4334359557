//! The verifier: a party that receives a share, checks it, and tells the
//! others what it found.

use std::rc::Rc;
use vstd::prelude::*;
use crate::aggregator::{all_responded, Aggregator};
use crate::bytes::{bytes_eq, copy_bytes, le32, put_u32};
use crate::codec::{decode, lemma_encode_deal_injective};
use crate::deal::{deal_check, Deal, DealView};
use crate::dh::{context, context_spec, dh_exchange, open};
use crate::error::VssError;
use crate::point::{encodings, Point};
use crate::response::{
    decode_spec,
    decrypt_spec,
    encodes_deal,
    shared_point,
    EncryptedDeal,
    EncryptedDealView,
    Justification,
    JustificationView,
    Response,
    ResponseView,
};
use crate::scalar::Scalar;
use crate::session::{session_id, session_id_spec};
use crate::sign::{schnorr_accepts, sign_msg, verify_signature};

verus! {

/// A party that holds a share of the secret once it has received and
/// checked its deal.
pub struct Verifier {
    longterm: Scalar,
    pub_k: Point,
    dealer: Point,
    index: u32,
    verifiers: Rc<Vec<Point>>,
    hkdf_context: Vec<u8>,
    aggregator: Aggregator,
}

impl Verifier {
    /// The verifier's long-term secret key.
    pub closed spec fn secret_key(&self) -> nat {
        self.longterm@
    }

    /// The verifier's long-term public key.
    pub closed spec fn public_key(&self) -> Point {
        self.pub_k
    }

    /// The dealer's public key.
    pub closed spec fn dealer_key(&self) -> Point {
        self.dealer
    }

    /// The verifier's index in the list of verifiers.
    pub closed spec fn own_index(&self) -> u32 {
        self.index
    }

    /// The verifiers' public keys.
    pub closed spec fn verifier_keys(&self) -> Seq<Point> {
        self.verifiers@
    }

    /// The key-derivation context of the run.
    pub closed spec fn context(&self) -> Seq<u8> {
        self.hkdf_context@
    }

    /// The verifier's aggregator.
    pub closed spec fn aggregator(&self) -> Aggregator {
        self.aggregator
    }

    /// The session identifier of the run as the verifier knows it: that of
    /// the deal it has cached, empty while it has none.
    pub open spec fn session(&self) -> Seq<u8> {
        self.aggregator().deal().session_id
    }

    /// The verifier is one of the run: its public key belongs to its
    /// secret key and stands at its index in the list of verifiers, and
    /// its aggregator is that of this run and checks responses against the
    /// session identifier of the cached deal.
    pub closed spec fn wf(&self) -> bool {
        &&& self.verifiers@.len() <= u32::MAX
        &&& self.index < self.verifiers@.len()
        &&& self.verifiers@[self.index as int]@ == self.pub_k@
        &&& self.longterm.wf()
        &&& self.pub_k.wf()
        &&& self.pub_k.index() == self.longterm@
        &&& self.hkdf_context@ == context_spec(self.dealer@, encodings(self.verifiers@))
        &&& self.aggregator.wf()
        &&& self.aggregator.dealer() == self.dealer
        &&& self.aggregator.verifiers() == self.verifiers@
        &&& self.aggregator.session() == self.aggregator.deal().session_id
    }

    /// What well-formedness says in terms of the verifier's public view.
    pub proof fn lemma_wf(&self)
        requires
            self.wf(),
        ensures
            self.verifier_keys().len() <= u32::MAX,
            self.own_index() < self.verifier_keys().len(),
            self.verifier_keys()[self.own_index() as int]@ == self.public_key()@,
            self.public_key().wf(),
            self.public_key().index() == self.secret_key(),
            self.context() == context_spec(self.dealer_key()@, encodings(self.verifier_keys())),
            self.aggregator().wf(),
            self.aggregator().dealer() == self.dealer_key(),
            self.aggregator().verifiers() == self.verifier_keys(),
            self.aggregator().session() == self.session(),
    {
    }

    /// Whether `other` is this verifier but for its aggregator.
    pub open spec fn same_party(&self, other: &Verifier) -> bool {
        &&& self.secret_key() == other.secret_key()
        &&& self.public_key() == other.public_key()
        &&& self.dealer_key() == other.dealer_key()
        &&& self.own_index() == other.own_index()
        &&& self.verifier_keys() == other.verifier_keys()
        &&& self.context() == other.context()
    }

    /// A verifier with the long-term key `longterm` in the run that
    /// `dealer` leads for `verifiers`. Its own public key must stand in the
    /// list; its index is the first place where it stands.
    pub fn new(longterm: Scalar, dealer: Point, verifiers: Vec<Point>) -> (r: Result<
        Verifier,
        VssError,
    >)
        requires
            verifiers@.len() <= u32::MAX,
        ensures
            match r {
                Ok(v) => {
                    &&& v.wf()
                    &&& v.secret_key() == longterm@
                    &&& v.dealer_key() == dealer
                    &&& v.verifier_keys() == verifiers@
                    &&& v.public_key().index() == longterm@
                    &&& v.own_index() < verifiers@.len()
                    &&& verifiers@[v.own_index() as int]@ == v.public_key()@
                    &&& forall|j: int|
                        0 <= j < v.own_index() ==> (#[trigger] verifiers@[j])@ != v.public_key()@
                    &&& v.aggregator().threshold() == 0
                    &&& v.aggregator().responses().dom() == Set::<u32>::empty()
                    &&& v.aggregator().deal() == Deal::empty_view()
                    &&& !v.aggregator().bad_dealer()
                },
                Err(e) => {
                    &&& e == VssError::KeyNotFound
                    &&& forall|j: int|
                        0 <= j < verifiers@.len() ==> (#[trigger] verifiers@[j]).index()
                            != longterm@
                },
            },
    {
        let pub_k = Point::mul_base(&longterm);
        let n = verifiers.len();
        let mut i: usize = 0;
        let mut found = false;
        while i < n && !found
            invariant
                i <= n == verifiers@.len() <= u32::MAX,
                found ==> i < n && verifiers@[i as int]@ == pub_k@,
                forall|j: int| 0 <= j < i ==> (#[trigger] verifiers@[j])@ != pub_k@,
                forall|j: int| 0 <= j < i ==> (#[trigger] verifiers@[j]).index() != pub_k.index(),
            decreases n - i + if found { 0int } else { 1int },
        {
            if verifiers[i].equals(&pub_k) {
                found = true;
            } else {
                i += 1;
            }
        }
        if !found {
            return Err(VssError::KeyNotFound);
        }
        let index = i as u32;
        let hkdf_context = context(&dealer, verifiers.as_slice());
        let ghost keys = verifiers@;
        let verifiers = Rc::new(verifiers);
        let aggregator = Aggregator::new(dealer, verifiers.clone(), 0, Vec::new());
        let v = Verifier { longterm, pub_k, dealer, verifiers, hkdf_context, index, aggregator };
        proof {
            use_type_invariant(&longterm);
            assert(v.verifiers@ == keys);
            assert(v.aggregator.responses().dom() =~= Set::<u32>::empty());
        }
        Ok(v)
    }

    /// What this verifier finds in an encrypted deal.
    pub open spec fn decrypted(&self, ed: EncryptedDealView) -> Result<DealView, VssError> {
        decrypt_spec(
            ed,
            self.secret_key(),
            self.dealer_key()@,
            self.own_index(),
            self.context(),
        )
    }

    /// Decrypts an encrypted deal: checks the dealer's signature on the
    /// ephemeral key in the signing context of the verifier's index,
    /// derives the key from the point shared with the dealer, decrypts
    /// with the context as associated data, and decodes the deal.
    pub fn decrypt_deal(&self, encr_d: &EncryptedDeal) -> (r: Result<Deal, VssError>)
        requires
            self.wf(),
        ensures
            match r {
                Ok(d) => self.decrypted(encr_d@) == Ok::<DealView, VssError>(d@),
                Err(e) => self.decrypted(encr_d@) == Err::<DealView, VssError>(e),
            },
    {
        let eph_buff = encr_d.dh_key.to_bytes();
        let dealer_buff = self.dealer.to_bytes();
        let mut index_le: Vec<u8> = Vec::new();
        put_u32(&mut index_le, self.index);
        assert(index_le@ =~= le32(self.index));
        if !verify_signature(
            dealer_buff.as_slice(),
            encr_d.signature.as_slice(),
            eph_buff.as_slice(),
            index_le.as_slice(),
        ) {
            return Err(VssError::BadSignature);
        }
        let pre = dh_exchange(&self.longterm, &encr_d.dh_key);
        proof {
            pre.lemma_wf();
            assert(pre@ == shared_point(self.longterm@, encr_d@.dh_key));
        }
        let decrypted = match open(
            &pre,
            self.hkdf_context.as_slice(),
            encr_d.nonce.as_slice(),
            encr_d.cipher.as_slice(),
        ) {
            Some(m) => m,
            None => {
                return Err(VssError::DecryptionFailed);
            },
        };
        match decode(decrypted.as_slice()) {
            Some(d) => {
                proof {
                    assert(encodes_deal(decrypted@, d@));
                    let found = choose|w: DealView| encodes_deal(decrypted@, w);
                    lemma_encode_deal_injective(found, d@);
                    assert(decode_spec(decrypted@) =~= Ok::<DealView, VssError>(d@));
                }
                Ok(d)
            },
            None => {
                proof {
                    assert forall|w: DealView| !encodes_deal(decrypted@, w) by {
                        if crate::codec::encodable(w) {
                            assert(crate::codec::encode_deal(w) != decrypted@);
                        }
                    }
                }
                Err(VssError::MalformedDeal)
            },
        }
    }

    /// Whether this verifier takes an encrypted deal for its own: the deal
    /// that it finds in it, or the first failure among the decryption, the
    /// deal's index being the verifier's, the deal's session identifier
    /// being that of the dealer, the verifiers, the deal's commitments and
    /// its threshold, and the verifier having no deal yet.
    pub open spec fn accept_check(&self, ed: EncryptedDealView) -> Result<DealView, VssError> {
        let found = self.decrypted(ed);
        let d = found->Ok_0;
        if found is Err {
            found
        } else if d.sec_index != self.own_index() {
            Err(VssError::WrongIndex)
        } else if d.session_id != session_id_spec(
            self.dealer_key()@,
            encodings(self.verifier_keys()),
            d.commitments,
            d.t,
        ) {
            Err(VssError::SessionIdMismatch)
        } else if self.aggregator().threshold() != 0 && self.aggregator().deal().t != 0 {
            Err(VssError::DealAlreadyReceived)
        } else {
            found
        }
    }

    /// The responses on which a deal is taken in: those recorded, or none
    /// where the aggregator still awaits its threshold and starts afresh.
    pub open spec fn base_responses(&self) -> Map<u32, ResponseView> {
        if self.aggregator().threshold() == 0 {
            Map::empty()
        } else {
            self.aggregator().responses()
        }
    }

    /// Takes in the encrypted deal from the dealer and answers it.
    ///
    /// The deal is decrypted and must be addressed to this verifier, carry
    /// the session identifier of this run, and be the first that the
    /// verifier takes in. It is then cached and verified, and the answer is
    /// a signed response for every participant: an approval if the deal
    /// verifies, a complaint if not. The response is recorded in the
    /// verifier's own aggregator, which refuses it if it holds one of this
    /// verifier already.
    pub fn process_encrypted_deal(&mut self, encr_d: &EncryptedDeal) -> (res: Result<
        Response,
        VssError,
    >)
        requires
            old(self).wf(),
        ensures
            final(self).wf(),
            final(self).same_party(old(self)),
            old(self).accept_check(encr_d@) is Err ==> {
                &&& res is Err
                &&& res->Err_0 == old(self).accept_check(encr_d@)->Err_0
                &&& final(self).aggregator() == old(self).aggregator()
            },
            old(self).accept_check(encr_d@) is Ok ==> {
                let d = old(self).accept_check(encr_d@)->Ok_0;
                let base = old(self).base_responses();
                let index = old(self).own_index();
                &&& final(self).aggregator().deal() == d
                &&& final(self).aggregator().session() == d.session_id
                &&& final(self).aggregator().threshold() == if old(self).aggregator().threshold()
                    == 0 {
                    d.t
                } else {
                    old(self).aggregator().threshold()
                }
                &&& final(self).aggregator().bad_dealer() == (old(self).aggregator().threshold() != 0
                    && old(self).aggregator().bad_dealer())
                &&& res is Err <==> base.contains_key(index)
                &&& res matches Err(e) ==> e == VssError::DuplicateResponse && final(self).aggregator().responses() == base
                &&& res matches Ok(r) ==> {
                    &&& r.session_id@ == d.session_id
                    &&& r.index == index
                    &&& r.approved == (deal_check(d, old(self).verifier_keys(), d.session_id) is Ok)
                    &&& schnorr_accepts(
                        old(self).public_key()@,
                        r.signature@,
                        r@.hash(),
                        le32(index),
                    )
                    &&& final(self).aggregator().responses() == base.insert(index, r@)
                }
            },
            old(self).aggregator().certified() ==> final(self).aggregator().certified(),
    {
        let deal = match self.decrypt_deal(encr_d) {
            Ok(d) => d,
            Err(e) => {
                return Err(e);
            },
        };
        if deal.sec_share.i != self.index {
            return Err(VssError::WrongIndex);
        }
        let sid = session_id(
            &self.dealer,
            self.verifiers.as_slice(),
            deal.commitments.as_slice(),
            deal.t,
        );
        if !bytes_eq(deal.session_id.as_slice(), sid.as_slice()) {
            return Err(VssError::SessionIdMismatch);
        }
        if self.aggregator.threshold_value() == 0 {
            self.aggregator =
            Aggregator::new(
                self.dealer,
                self.verifiers.clone(),
                deal.t,
                copy_bytes(deal.session_id.as_slice()),
            );
        }
        if self.aggregator.cached_deal().t != 0 {
            return Err(VssError::DealAlreadyReceived);
        }
        let approved = match deal.verify(self.aggregator.verifier_keys().as_slice(), sid.as_slice()) {
            Ok(()) => true,
            Err(_) => false,
        };
        let ghost d = deal@;
        self.aggregator.cache_deal(deal);
        let verdict: u32 = if approved {
            1
        } else {
            0
        };
        let r_hash = match Response::hash(sid.as_slice(), self.index, verdict) {
            Ok(h) => h,
            Err(e) => {
                return Err(e);
            },
        };
        let mut index_le: Vec<u8> = Vec::new();
        put_u32(&mut index_le, self.index);
        assert(index_le@ =~= le32(self.index));
        let signature = sign_msg(
            &self.longterm,
            &self.pub_k,
            r_hash.as_slice(),
            index_le.as_slice(),
        );
        let response = Response {
            index: self.index,
            session_id: copy_bytes(sid.as_slice()),
            approved,
            signature,
        };
        match self.aggregator.add_response(&response) {
            Ok(()) => Ok(response),
            Err(e) => Err(e),
        }
    }

    /// Whether the deal is certified, as far as this verifier knows.
    pub fn deal_certified(&self) -> (r: bool)
        requires
            self.wf(),
        ensures
            r == self.aggregator().certified(),
    {
        self.aggregator.deal_certified()
    }

    /// Whether at least as many verifiers approve as the threshold asks.
    pub fn enough_approvals(&self) -> (r: bool)
        requires
            self.wf(),
        ensures
            r == self.aggregator().has_enough_approvals(),
    {
        self.aggregator.enough_approvals()
    }

    /// Whether a justification is admitted to verification: its index names
    /// a verifier, its deal carries the verifier's session identifier, and
    /// a complaint is recorded for its index.
    pub open spec fn admits(&self, j: JustificationView) -> Result<(), VssError> {
        if j.index >= self.verifier_keys().len() {
            Err(VssError::IndexOutOfBounds)
        } else if self.session() != j.deal.session_id {
            Err(VssError::SessionIdMismatch)
        } else if !self.aggregator().responses().contains_key(j.index) {
            Err(VssError::NoComplaint)
        } else if self.aggregator().responses()[j.index].approved {
            Err(VssError::JustificationForApproval)
        } else {
            Ok(())
        }
    }

    /// What the check of a justification finds: why it is not admitted,
    /// or why its deal does not verify, or nothing.
    pub open spec fn justification_check(&self, j: JustificationView) -> Result<(), VssError> {
        if self.admits(j) is Err {
            self.admits(j)
        } else {
            deal_check(j.deal, self.verifier_keys(), self.session())
        }
    }

    /// Takes in the dealer's justification of a deal that drew a complaint.
    ///
    /// A justification that is not admitted changes nothing. An admitted
    /// one is adopted as the cached deal if the verifier has none, and its
    /// deal is verified: if it verifies, the complaint recorded for its
    /// index becomes an approval; if not, the dealer is marked, and the
    /// deal can no longer be certified.
    pub fn process_justification(&mut self, justification: &Justification) -> (res: Result<
        (),
        VssError,
    >)
        requires
            old(self).wf(),
        ensures
            final(self).wf(),
            final(self).same_party(old(self)),
            res is Ok <==> old(self).justification_check(justification@) is Ok,
            res matches Err(e) ==> old(self).justification_check(justification@) == Err::<
                (),
                VssError,
            >(e),
            old(self).admits(justification@) is Err ==> final(self).aggregator() == old(self).aggregator(),
            old(self).admits(justification@) is Ok ==> {
                &&& final(self).aggregator().threshold() == old(self).aggregator().threshold()
                &&& final(self).aggregator().session() == old(self).aggregator().session()
                &&& final(self).aggregator().deal() == if old(self).aggregator().deal().t == 0 {
                    justification@.deal
                } else {
                    old(self).aggregator().deal()
                }
                &&& final(self).aggregator().bad_dealer() == (old(self).aggregator().bad_dealer()
                    || res is Err)
                &&& final(self).aggregator().responses() == if res is Ok {
                    old(self).aggregator().responses().insert(
                        justification.index,
                        ResponseView {
                            approved: true,
                            ..old(self).aggregator().responses()[justification.index]
                        },
                    )
                } else {
                    old(self).aggregator().responses()
                }
            },
            old(self).aggregator().certified() ==> final(self).aggregator().certified() || (res
                is Err && final(self).aggregator().bad_dealer()),
    {
        if self.aggregator.verifier_keys().len() <= justification.index as usize {
            return Err(VssError::IndexOutOfBounds);
        }
        let session = copy_bytes(self.aggregator.cached_deal().session_id.as_slice());
        if !bytes_eq(session.as_slice(), justification.deal.session_id.as_slice()) {
            return Err(VssError::SessionIdMismatch);
        }
        match self.aggregator.verdict_of(justification.index) {
            None => {
                return Err(VssError::NoComplaint);
            },
            Some(approved) => {
                if approved {
                    return Err(VssError::JustificationForApproval);
                }
            },
        }
        if self.aggregator.cached_deal().t == 0 {
            self.aggregator.cache_deal(justification.deal.clone());
        }
        let verif = justification.deal.verify(
            self.aggregator.verifier_keys().as_slice(),
            session.as_slice(),
        );
        match verif {
            Err(e) => {
                self.aggregator.mark_bad_dealer();
                Err(e)
            },
            Ok(()) => {
                self.aggregator.approve(justification.index);
                Ok(())
            },
        }
    }

    /// Declares the time for responses over: every verifier that has not
    /// responded is recorded with a complaint.
    pub fn set_timeout(&mut self)
        requires
            old(self).wf(),
        ensures
            final(self).wf(),
            final(self).same_party(old(self)),
            final(self).aggregator().same_run(&old(self).aggregator()),
            all_responded(final(self).aggregator().responses(), final(self).verifier_keys().len()),
            forall|i: u32| #[trigger]
                final(self).aggregator().responses().contains_key(i) ==> final(self).aggregator().responses()[i] == if old(self).aggregator().responses().contains_key(
                    i,
                ) {
                    old(self).aggregator().responses()[i]
                } else {
                    Aggregator::silent_response(old(self).aggregator().session(), i)
                },
            old(self).aggregator().certified() ==> final(self).aggregator().certified(),
    {
        self.aggregator.clean_verifiers();
    }

    /// The verifier's index in the list of verifiers.
    pub fn index(&self) -> (r: u32)
        ensures
            r == self.own_index(),
    {
        self.index
    }

    /// The verifier's long-term key pair.
    pub fn key(&self) -> (r: (Scalar, Point))
        ensures
            r.0@ == self.secret_key(),
            r.1 == self.public_key(),
    {
        (self.longterm, self.pub_k)
    }

    /// The session identifier of the run: that of the cached deal, empty
    /// while the verifier has none.
    pub fn session_id(&self) -> (r: &[u8])
        ensures
            r@ == self.session(),
    {
        self.aggregator.cached_deal().session_id.as_slice()
    }

    /// The deal that the verifier has received, once it is certified.
    pub fn get_deal(&self) -> (r: Result<Deal, VssError>)
        requires
            self.wf(),
        ensures
            match r {
                Ok(d) => self.aggregator().certified() && d@ == self.aggregator().deal(),
                Err(e) => e == VssError::NotCertified && !self.aggregator().certified(),
            },
    {
        if !self.aggregator.enough_approvals() || !self.aggregator.deal_certified() {
            return Err(VssError::NotCertified);
        }
        Ok(self.aggregator.cached_deal().clone())
    }

    /// Takes in the response of another verifier: checks it and records it
    /// if it passes.
    pub fn process_response(&mut self, resp: &Response) -> (res: Result<(), VssError>)
        requires
            old(self).wf(),
        ensures
            final(self).wf(),
            final(self).same_party(old(self)),
            final(self).aggregator().same_run(&old(self).aggregator()),
            res is Ok <==> old(self).aggregator().response_check(resp@) is Ok,
            res matches Err(e) ==> old(self).aggregator().response_check(resp@) == Err::<
                (),
                VssError,
            >(e),
            res is Ok ==> final(self).aggregator().responses() == old(self).aggregator().responses().insert(resp.index, resp@),
            res is Err ==> final(self).aggregator().responses() == old(self).aggregator().responses(),
            old(self).aggregator().certified() ==> final(self).aggregator().certified(),
    {
        self.aggregator.verify_response(resp)
    }

    /// Records a response of the given index and verdict without a
    /// signature, unchecked. Meant for a key generation layer that runs the
    /// protocol on approvals only; not safe otherwise.
    pub fn unsafe_set_response_dkg(&mut self, index: u32, approved: bool) -> (res: Result<
        (),
        VssError,
    >)
        requires
            old(self).wf(),
        ensures
            final(self).wf(),
            final(self).same_party(old(self)),
            final(self).aggregator().same_run(&old(self).aggregator()),
            match res {
                Ok(()) => {
                    &&& index < old(self).verifier_keys().len()
                    &&& !old(self).aggregator().responses().contains_key(index)
                    &&& final(self).aggregator().responses() == old(self).aggregator().responses().insert(
                        index,
                        ResponseView {
                            session_id: old(self).aggregator().session(),
                            index,
                            approved,
                            signature: Seq::empty(),
                        },
                    )
                },
                Err(e) => {
                    &&& final(self).aggregator().responses() == old(self).aggregator().responses()
                    &&& e == if index >= old(self).verifier_keys().len() {
                        VssError::IndexOutOfBounds
                    } else {
                        VssError::DuplicateResponse
                    }
                    &&& index >= old(self).verifier_keys().len() || old(self).aggregator().responses().contains_key(index)
                },
            },
            old(self).aggregator().certified() ==> final(self).aggregator().certified(),
    {
        self.aggregator.unsafe_set_response_dkg(index, approved)
    }

    /// The verifiers' public keys.
    pub fn verifiers(&self) -> (r: &[Point])
        ensures
            r@ == self.verifier_keys(),
    {
        self.verifiers.as_slice()
    }
}

} // verus!
