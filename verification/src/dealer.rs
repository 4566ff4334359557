//! The dealer: the party that shares a secret among the verifiers.

use std::rc::Rc;
use vstd::prelude::*;
use crate::aggregator::Aggregator;
use crate::bytes::{copy_bytes, copy_list, le32, put_u32, views};
use crate::codec::{encodable, encode, encode_deal, lemma_encode_deal_injective};
use crate::deal::{Deal, DealView};
use crate::dh::{context, context_spec, dh_exchange, gcm_limit, seal, seal_spec};
use crate::error::VssError;
use crate::point::{encodings, is_point, point_index, ristretto_encoding, Point};
use crate::poly::{
    commitment_index,
    lemma_add_congruent,
    lemma_mod_twice_nat,
    poly_eval,
    share_x,
    PriPoly,
};
use crate::response::{
    decode_spec,
    decrypt_spec,
    encodes_deal,
    justification_hash,
    shared_point,
    zero_nonce,
    EncryptedDeal,
    EncryptedDealView,
    Justification,
    Response,
};
use crate::scalar::{lemma_order_is_large, scalar_order, Scalar};
use crate::session::{derive_h, derive_h_spec, session_id, session_id_spec, valid_t, valid_threshold};
use crate::sign::{schnorr_accepts, sign_msg};

verus! {

/// The index of the second generator of a run with the given verifiers.
pub open spec fn h_index(verifiers: Seq<Point>) -> nat {
    point_index(derive_h_spec(verifiers)->Some_0)
}

/// Whether `c` is the list of commitments to the polynomials `f` and `g`:
/// coefficient by coefficient, the encoding of `f[j]·G + g[j]·H`.
pub open spec fn honest_commitments(c: Seq<Seq<u8>>, f: Seq<nat>, g: Seq<nat>, h: nat) -> bool {
    &&& c.len() == f.len()
    &&& f.len() == g.len()
    &&& forall|j: int|
        0 <= j < c.len() ==> is_point(#[trigger] c[j]) && point_index(c[j]) == commitment_index(
            f[j],
            g[j],
            h,
        )
}

/// Whether `d` is the deal of the verifier `i` in the run `session` of an
/// honest dealer with the polynomials `f` and `g` and the commitments `c`.
pub open spec fn honest_deal(
    d: DealView,
    i: u32,
    session: Seq<u8>,
    t: u32,
    f: Seq<nat>,
    g: Seq<nat>,
    c: Seq<Seq<u8>>,
) -> bool {
    &&& d.session_id == session
    &&& d.t == t
    &&& d.sec_index == i
    &&& d.rnd_index == i
    &&& d.sec_value == poly_eval(f, share_x(i))
    &&& d.rnd_value == poly_eval(g, share_x(i))
    &&& d.commitments == c
}

/// The party that shares a secret: it holds the two polynomials' shares as
/// deals, one for each verifier, and collects the verifiers' responses.
pub struct Dealer {
    long: Scalar,
    pub_key: Point,
    secret: Scalar,
    secret_commits: Vec<Vec<u8>>,
    verifiers: Rc<Vec<Point>>,
    hkdf_context: Vec<u8>,
    t: u32,
    session_id: Vec<u8>,
    deals: Vec<Deal>,
    aggregator: Aggregator,
    secret_poly: Ghost<Seq<nat>>,
    blinding_poly: Ghost<Seq<nat>>,
    commitments: Ghost<Seq<Seq<u8>>>,
}

impl Dealer {
    /// The dealer's long-term secret key.
    pub closed spec fn secret_key(&self) -> nat {
        self.long@
    }

    /// The dealer's long-term public key.
    pub closed spec fn public_key(&self) -> Point {
        self.pub_key
    }

    /// The secret that is shared.
    pub closed spec fn secret(&self) -> nat {
        self.secret@
    }

    /// The verifiers' public keys.
    pub closed spec fn verifiers(&self) -> Seq<Point> {
        self.verifiers@
    }

    /// The threshold of the run.
    pub closed spec fn threshold(&self) -> u32 {
        self.t
    }

    /// The session identifier of the run.
    pub closed spec fn session(&self) -> Seq<u8> {
        self.session_id@
    }

    /// The key-derivation context of the run.
    pub closed spec fn context(&self) -> Seq<u8> {
        self.hkdf_context@
    }

    /// The deals, one for each verifier.
    pub closed spec fn deals(&self) -> Seq<DealView> {
        Seq::new(self.deals@.len(), |i: int| self.deals@[i]@)
    }

    /// The dealer's aggregator.
    pub closed spec fn aggregator(&self) -> Aggregator {
        self.aggregator
    }

    /// The coefficients of the secret polynomial, the secret first.
    pub closed spec fn secret_poly(&self) -> Seq<nat> {
        self.secret_poly@
    }

    /// The coefficients of the blinding polynomial.
    pub closed spec fn blinding_poly(&self) -> Seq<nat> {
        self.blinding_poly@
    }

    /// The encoded commitments `f[j]·G + g[j]·H` that every deal carries.
    pub closed spec fn commitments(&self) -> Seq<Seq<u8>> {
        self.commitments@
    }

    /// The encoded commitments `f[j]·G` to the secret polynomial alone.
    pub closed spec fn secret_commitments(&self) -> Seq<Seq<u8>> {
        views(self.secret_commits@)
    }

    /// The dealer is that of a run: the threshold is valid, the public key
    /// belongs to the secret key, there is one honest deal for each
    /// verifier, the commitments commit to the two polynomials, the session
    /// identifier is that of the dealer, the verifiers, the commitments and
    /// the threshold, and the aggregator is that of this run.
    pub closed spec fn wf(&self) -> bool {
        let n = self.verifiers@.len();
        let f = self.secret_poly@;
        let g = self.blinding_poly@;
        let c = self.commitments@;
        &&& n <= u32::MAX
        &&& valid_threshold(self.t, n)
        &&& self.long.wf()
        &&& self.secret.wf()
        &&& self.pub_key.wf()
        &&& self.pub_key.index() == self.long@
        &&& self.hkdf_context@ == context_spec(self.pub_key@, encodings(self.verifiers@))
        &&& derive_h_spec(self.verifiers@) is Some
        &&& f.len() == self.t
        &&& f[0] == self.secret@
        &&& honest_commitments(c, f, g, h_index(self.verifiers@))
        &&& self.session_id@ == session_id_spec(
            self.pub_key@,
            encodings(self.verifiers@),
            c,
            self.t,
        )
        &&& self.session_id@.len() == 32
        &&& self.deals@.len() == n
        &&& forall|i: int|
            0 <= i < n ==> honest_deal(
                (#[trigger] self.deals@[i])@,
                i as u32,
                self.session_id@,
                self.t,
                f,
                g,
                c,
            )
        &&& self.secret_commits@.len() == self.t
        &&& forall|j: int|
            0 <= j < self.t ==> is_point(#[trigger] self.secret_commits@[j]@) && point_index(
                self.secret_commits@[j]@,
            ) == f[j] % scalar_order()
        &&& self.aggregator.wf()
        &&& self.aggregator.dealer() == self.pub_key
        &&& self.aggregator.verifiers() == self.verifiers@
        &&& self.aggregator.session() == self.session_id@
        &&& self.aggregator.threshold() == self.t
    }

    /// What well-formedness says in terms of the dealer's public view.
    pub proof fn lemma_wf(&self)
        requires
            self.wf(),
        ensures
            self.verifiers().len() <= u32::MAX,
            valid_threshold(self.threshold(), self.verifiers().len()),
            self.public_key().wf(),
            self.public_key().index() == self.secret_key(),
            self.context() == context_spec(self.public_key()@, encodings(self.verifiers())),
            derive_h_spec(self.verifiers()) is Some,
            self.secret_poly().len() == self.threshold(),
            self.secret_poly()[0] == self.secret(),
            self.secret() < scalar_order(),
            honest_commitments(
                self.commitments(),
                self.secret_poly(),
                self.blinding_poly(),
                h_index(self.verifiers()),
            ),
            self.session() == session_id_spec(
                self.public_key()@,
                encodings(self.verifiers()),
                self.commitments(),
                self.threshold(),
            ),
            self.session().len() == 32,
            self.deals().len() == self.verifiers().len(),
            forall|i: int|
                0 <= i < self.deals().len() ==> honest_deal(
                    #[trigger] self.deals()[i],
                    i as u32,
                    self.session(),
                    self.threshold(),
                    self.secret_poly(),
                    self.blinding_poly(),
                    self.commitments(),
                ),
            self.secret_commitments().len() == self.threshold(),
            forall|j: int|
                0 <= j < self.threshold() ==> is_point(#[trigger] self.secret_commitments()[j])
                    && point_index(self.secret_commitments()[j]) == self.secret_poly()[j]
                    % scalar_order(),
            self.aggregator().wf(),
            self.aggregator().dealer() == self.public_key(),
            self.aggregator().verifiers() == self.verifiers(),
            self.aggregator().session() == self.session(),
            self.aggregator().threshold() == self.threshold(),
    {
        self.secret.lemma_wf();
        assert forall|i: int| 0 <= i < self.deals().len() implies honest_deal(
            #[trigger] self.deals()[i],
            i as u32,
            self.session(),
            self.threshold(),
            self.secret_poly(),
            self.blinding_poly(),
            self.commitments(),
        ) by {
            assert(self.deals()[i] == self.deals@[i]@);
        }
    }

    /// A dealer that shares `secret` among `verifiers` with the threshold
    /// `threshold`, under the long-term key `longterm`.
    ///
    /// The secret is the constant term of a polynomial whose other
    /// coefficients, like all those of the blinding polynomial, are drawn
    /// at random. Every verifier gets its share of both, and the
    /// commitments to both.
    pub fn new(longterm: Scalar, secret: Scalar, verifiers: Vec<Point>, threshold: u32) -> (r:
        Result<Dealer, VssError>)
        requires
            verifiers@.len() <= u32::MAX,
        ensures
            match r {
                Ok(d) => {
                    &&& valid_threshold(threshold, verifiers@.len())
                    &&& derive_h_spec(verifiers@) is Some
                    &&& d.wf()
                    &&& d.secret_key() == longterm@
                    &&& d.secret() == secret@
                    &&& d.verifiers() == verifiers@
                    &&& d.threshold() == threshold
                    &&& d.aggregator().responses().dom() == Set::<u32>::empty()
                    &&& !d.aggregator().bad_dealer()
                },
                Err(e) => e == if valid_threshold(threshold, verifiers@.len()) {
                    VssError::HashToPoint
                } else {
                    VssError::InvalidThreshold
                } && (valid_threshold(threshold, verifiers@.len()) ==> derive_h_spec(verifiers@)
                    is None),
            },
    {
        if !valid_t(threshold, verifiers.as_slice()) {
            return Err(VssError::InvalidThreshold);
        }
        let h = match derive_h(verifiers.as_slice()) {
            Ok(h) => h,
            Err(e) => {
                return Err(e);
            },
        };
        let sec_pri_poly = PriPoly::new(threshold, Some(secret));
        let rand_pri_poly = PriPoly::new(threshold, None);
        let ghost f = sec_pri_poly.coefficients();
        let ghost g = rand_pri_poly.coefficients();
        let ghost hx = h.index();

        let generator = Point::generator();
        let dealer_pub = Point::mul_base(&longterm);

        let f_pub = sec_pri_poly.commit(&generator);
        let g_pub = rand_pri_poly.commit(&h);
        let c = match f_pub.add(&g_pub) {
            Some(c) => c,
            None => {
                // both polynomials have `threshold` coefficients
                proof {
                    assert(false);
                }
                return Err(VssError::InvalidThreshold);
            },
        };
        let commitments = encode_points(c.info().1);
        proof {
            lemma_order_is_large();
            assert forall|j: int| 0 <= j < f.len() implies point_index(
                #[trigger] views(commitments@)[j],
            ) == commitment_index(f[j], g[j], hx) by {
                assert(c.indices()[j] == (f_pub.indices()[j] + g_pub.indices()[j]) % scalar_order());
                assert(f[j] * 1 == f[j]) by (nonlinear_arith);
                lemma_mod_twice_nat(f[j]);
                lemma_mod_twice_nat(g[j] * hx);
                lemma_add_congruent(f_pub.indices()[j], f[j], g_pub.indices()[j], g[j] * hx);
            }
            assert(honest_commitments(views(commitments@), f, g, hx));
        }
        let sid = session_id(&dealer_pub, verifiers.as_slice(), commitments.as_slice(), threshold);
        let ghost keys = verifiers@;
        let hkdf_context = context(&dealer_pub, verifiers.as_slice());
        let n = verifiers.len();
        let verifiers = Rc::new(verifiers);
        let aggregator = Aggregator::new(
            dealer_pub,
            verifiers.clone(),
            threshold,
            copy_bytes(sid.as_slice()),
        );

        let mut deals: Vec<Deal> = Vec::new();
        let mut i: usize = 0;
        while i < n
            invariant
                i <= n <= u32::MAX,
                deals@.len() == i,
                f == sec_pri_poly.coefficients(),
                g == rand_pri_poly.coefficients(),
                forall|k: int|
                    0 <= k < i ==> honest_deal(
                        (#[trigger] deals@[k])@,
                        k as u32,
                        sid@,
                        threshold,
                        f,
                        g,
                        views(commitments@),
                    ),
            decreases n - i,
        {
            let sec_share = sec_pri_poly.eval(i as u32);
            let rnd_share = rand_pri_poly.eval(i as u32);
            deals.push(
                Deal {
                    session_id: copy_bytes(sid.as_slice()),
                    sec_share,
                    rnd_share,
                    t: threshold,
                    commitments: copy_list(&commitments),
                },
            );
            i += 1;
        }

        let secret_commits = encode_points(f_pub.info().1);
        proof {
            assert(views(secret_commits@).len() == secret_commits@.len());
            assert(encodings(f_pub.commits()).len() == f_pub.indices().len());
            assert(f.len() == threshold);
            assert(secret_commits@.len() == threshold);
            assert forall|j: int| 0 <= j < threshold implies is_point(
                #[trigger] secret_commits@[j]@,
            ) && point_index(secret_commits@[j]@) == f[j] % scalar_order() by {
                assert(secret_commits@[j]@ == views(secret_commits@)[j]);
                assert(point_index(views(secret_commits@)[j]) == f_pub.indices()[j]);
                assert(f[j] * 1 == f[j]) by (nonlinear_arith);
            }
        }
        let d = Dealer {
            long: longterm,
            pub_key: dealer_pub,
            session_id: copy_bytes(sid.as_slice()),
            secret,
            secret_commits,
            verifiers,
            hkdf_context,
            t: threshold,
            deals,
            aggregator,
            secret_poly: Ghost(f),
            blinding_poly: Ghost(g),
            commitments: Ghost(views(commitments@)),
        };
        proof {
            use_type_invariant(&longterm);
            use_type_invariant(&secret);
            assert(d.verifiers@ == keys);
            assert(d.aggregator.responses().dom() =~= Set::<u32>::empty());
        }
        Ok(d)
    }

    /// Whether an encrypted deal is one for the verifier `i`: its nonce is
    /// the zero nonce, and the holder of the secret key behind the key of
    /// the verifier `i` finds in it the deal of the verifier `i`.
    pub open spec fn sealed_for(&self, ed: EncryptedDealView, i: u32) -> bool {
        &&& ed.nonce == zero_nonce()
        &&& decrypt_spec(
            ed,
            self.verifiers()[i as int].index(),
            self.public_key()@,
            i,
            self.context(),
        ) == Ok::<DealView, VssError>(self.deals()[i as int])
    }

    /// What sealing the deal of the verifier `i` under the ephemeral secret
    /// `e` gives: the ciphertext, or nothing where the cipher refuses.
    pub open spec fn sealed_spec(&self, i: u32, e: nat) -> Option<Seq<u8>> {
        seal_spec(
            shared_point(e, self.verifiers()[i as int]@),
            self.context(),
            zero_nonce(),
            encode_deal(self.deals()[i as int]),
        )
    }

    /// Whether the cipher admits the deal of the verifier `i`: neither its
    /// encoding nor the context is longer than `2^36` bytes.
    pub open spec fn sealable(&self, i: u32) -> bool {
        encode_deal(self.deals()[i as int]).len() <= gcm_limit() && self.context().len()
            <= gcm_limit()
    }

    /// The deal of an honest dealer can be encoded.
    proof fn lemma_deal_encodable(&self, i: int)
        requires
            self.wf(),
            0 <= i < self.deals@.len(),
        ensures
            encodable(self.deals@[i]@),
    {
        let d = self.deals@[i]@;
        lemma_order_is_large();
        crate::bytes::lemma_pow256_values();
        assert forall|k: int| 0 <= k < d.commitments.len() implies (#[trigger] d.commitments[k]).len()
            < crate::bytes::pow256(8) by {
            assert(is_point(self.commitments@[k]));
        }
    }

    /// Encrypts the deal of the verifier `i` under the ephemeral secret
    /// `ephemeral`, and attaches `signature` as the dealer's signature on
    /// the ephemeral public key.
    ///
    /// The key is derived from `ephemeral·V`, where `V` is the verifier's
    /// public key; the nonce is zero; the context is the associated data.
    pub fn seal_deal(&self, i: u32, ephemeral: &Scalar, signature: Vec<u8>) -> (r: Result<
        EncryptedDeal,
        VssError,
    >)
        requires
            self.wf(),
        ensures
            match r {
                Ok(ed) => {
                    &&& i < self.verifiers().len()
                    &&& self.sealable(i)
                    &&& ed.dh_key.index() == ephemeral@
                    &&& ed.dh_key@ == ristretto_encoding(ephemeral@)
                    &&& ed.signature@ == signature@
                    &&& ed.nonce@ == zero_nonce()
                    &&& self.sealed_spec(i, ephemeral@) == Some(ed.cipher@)
                    &&& schnorr_accepts(self.public_key()@, signature@, ed.dh_key@, le32(i))
                        ==> self.sealed_for(ed@, i)
                },
                Err(e) => e == if i < self.verifiers().len() {
                    VssError::EncryptionFailed
                } else {
                    VssError::IndexOutOfBounds
                } && (i < self.verifiers().len() ==> !self.sealable(i) && self.sealed_spec(
                    i,
                    ephemeral@,
                ) is None),
            },
    {
        if i as usize >= self.verifiers.len() {
            return Err(VssError::IndexOutOfBounds);
        }
        let v_pub = &self.verifiers[i as usize];
        let dh_key = Point::mul_base(ephemeral);
        let pre = dh_exchange(ephemeral, v_pub);
        let nonce: [u8; 12] = [0u8; 12];
        assert(nonce@ =~= zero_nonce());
        let deal = &self.deals[i as usize];
        let deal_buf = encode(deal);
        proof {
            pre.lemma_wf();
            assert(self.deals()[i as int] == deal@);
            assert(pre@ == shared_point(ephemeral@, v_pub@));
        }
        let cipher = match seal(&pre, self.hkdf_context.as_slice(), &nonce, deal_buf.as_slice()) {
            Some(c) => c,
            None => {
                return Err(VssError::EncryptionFailed);
            },
        };
        let ed = EncryptedDeal { cipher, nonce: copy_bytes(nonce.as_slice()), dh_key, signature };
        proof {
            // the verifier's side of the exchange gives the same point
            let v = v_pub.index();
            assert((v * ephemeral@) == (ephemeral@ * v)) by (nonlinear_arith);
            assert(shared_point(v, ed@.dh_key) == pre@);
            self.lemma_deal_encodable(i as int);
            assert(encodes_deal(deal_buf@, deal@));
            let found = choose|w: DealView| encodes_deal(deal_buf@, w);
            lemma_encode_deal_injective(found, deal@);
            assert(decode_spec(deal_buf@) =~= Ok::<DealView, VssError>(deal@));
        }
        Ok(ed)
    }

    /// Encrypts the deal of the verifier `i` for that verifier.
    ///
    /// The dealer draws an ephemeral key, signs its public half with the
    /// long-term key in the signing context of `i`, and encrypts the deal
    /// under the key that it shares with the verifier. The ephemeral key
    /// and the signature differ from call to call; whatever they are, the
    /// verifier `i` finds the deal in what is returned. Fails exactly where
    /// `i` names no verifier or the cipher does not admit the deal.
    pub fn encrypt_deal(&self, i: u32) -> (r: Result<EncryptedDeal, VssError>)
        requires
            self.wf(),
        ensures
            match r {
                Ok(ed) => i < self.verifiers().len() && self.sealable(i) && self.sealed_for(ed@, i),
                Err(e) => e == if i < self.verifiers().len() {
                    VssError::EncryptionFailed
                } else {
                    VssError::IndexOutOfBounds
                } && (i < self.verifiers().len() ==> !self.sealable(i)),
            },
    {
        if i as usize >= self.verifiers.len() {
            return Err(VssError::IndexOutOfBounds);
        }
        let dh_secret = Scalar::random();
        let dh_key = Point::mul_base(&dh_secret);
        let dh_pub_buf = dh_key.to_bytes();
        let mut index_le: Vec<u8> = Vec::new();
        put_u32(&mut index_le, i);
        assert(index_le@ =~= le32(i));
        let signature = sign_msg(
            &self.long,
            &self.pub_key,
            dh_pub_buf.as_slice(),
            index_le.as_slice(),
        );
        self.seal_deal(i, &dh_secret, signature)
    }

    /// Encrypts every deal for its verifier: item `i` of the result is for
    /// the verifier `i`.
    pub fn encrypt_deals(&self) -> (r: Result<Vec<EncryptedDeal>, VssError>)
        requires
            self.wf(),
        ensures
            match r {
                Ok(all) => {
                    &&& all@.len() == self.verifiers().len()
                    &&& forall|i: int|
                        0 <= i < all@.len() ==> self.sealed_for((#[trigger] all@[i])@, i as u32)
                    &&& forall|i: u32| i < self.verifiers().len() ==> #[trigger] self.sealable(i)
                },
                Err(e) => e == VssError::EncryptionFailed && exists|i: u32|
                    i < self.verifiers().len() && !#[trigger] self.sealable(i),
            },
    {
        let n = self.verifiers.len();
        let mut all: Vec<EncryptedDeal> = Vec::new();
        let mut i: usize = 0;
        while i < n
            invariant
                self.wf(),
                i <= n == self.verifiers@.len() <= u32::MAX,
                all@.len() == i,
                forall|k: int| 0 <= k < i ==> self.sealed_for((#[trigger] all@[k])@, k as u32),
                forall|k: u32| k < i ==> #[trigger] self.sealable(k),
            decreases n - i,
        {
            match self.encrypt_deal(i as u32) {
                Ok(ed) => {
                    all.push(ed);
                },
                Err(e) => {
                    return Err(e);
                },
            }
            i += 1;
        }
        Ok(all)
    }

    /// Whether the deal is certified.
    pub fn deal_certified(&self) -> (r: bool)
        requires
            self.wf(),
        ensures
            r == self.aggregator().certified(),
    {
        self.aggregator.deal_certified()
    }

    /// Whether `other` is this dealer but for the responses collected.
    pub open spec fn same_run(&self, other: &Dealer) -> bool {
        &&& self.secret_key() == other.secret_key()
        &&& self.public_key() == other.public_key()
        &&& self.secret() == other.secret()
        &&& self.verifiers() == other.verifiers()
        &&& self.threshold() == other.threshold()
        &&& self.session() == other.session()
        &&& self.context() == other.context()
        &&& self.deals() == other.deals()
        &&& self.secret_poly() == other.secret_poly()
        &&& self.blinding_poly() == other.blinding_poly()
        &&& self.commitments() == other.commitments()
        &&& self.secret_commitments() == other.secret_commitments()
        &&& self.aggregator().same_run(&other.aggregator())
    }

    /// Takes in the response of a verifier. A complaint is answered by a
    /// justification that discloses the verifier's deal, to be sent to
    /// every participant.
    ///
    /// The response is refused as the aggregator refuses it, and recorded
    /// otherwise. The justification carries the session identifier, the
    /// index of the complaint and that verifier's deal, with a signature
    /// that is accepted under the dealer's public key.
    pub fn process_response(&mut self, r: &Response) -> (res: Result<
        Option<Justification>,
        VssError,
    >)
        requires
            old(self).wf(),
        ensures
            final(self).wf(),
            final(self).same_run(old(self)),
            match res {
                Ok(answer) => {
                    &&& old(self).aggregator().response_check(r@) is Ok
                    &&& final(self).aggregator().responses() == old(self).aggregator().responses().insert(r.index, r@)
                    &&& answer is None <==> r.approved
                    &&& answer matches Some(j) ==> {
                        &&& j.session_id@ == old(self).session()
                        &&& j.index == r.index
                        &&& j.deal@ == old(self).deals()[r.index as int]
                        &&& schnorr_accepts(
                            old(self).public_key()@,
                            j.signature@,
                            justification_hash(j.session_id@, j.index, j.deal@),
                            le32(j.index),
                        )
                    }
                },
                Err(e) => {
                    &&& old(self).aggregator().response_check(r@) == Err::<(), VssError>(e)
                    &&& final(self).aggregator().responses() == old(self).aggregator().responses()
                },
            },
            old(self).aggregator().certified() ==> final(self).aggregator().certified(),
    {
        match self.aggregator.verify_response(r) {
            Ok(()) => {},
            Err(e) => {
                return Err(e);
            },
        }
        if r.approved {
            return Ok(None);
        }
        let deal = &self.deals[r.index as usize];
        assert(self.deals()[r.index as int] == deal@);
        let j_hash = match Justification::hash(self.session_id.as_slice(), r.index, deal) {
            Ok(h) => h,
            Err(e) => {
                return Err(e);
            },
        };
        let mut index_le: Vec<u8> = Vec::new();
        put_u32(&mut index_le, r.index);
        assert(index_le@ =~= le32(r.index));
        let signature = sign_msg(&self.long, &self.pub_key, j_hash.as_slice(), index_le.as_slice());
        Ok(
            Some(
                Justification {
                    session_id: copy_bytes(self.session_id.as_slice()),
                    index: r.index,
                    deal: deal.clone(),
                    signature,
                },
            ),
        )
    }

    /// The commitment `s·G` to the secret, once the deal is certified.
    pub fn secret_commit(&self) -> (r: Result<Point, VssError>)
        requires
            self.wf(),
        ensures
            match r {
                Ok(p) => self.aggregator().certified() && p.wf() && p.index() == self.secret(),
                Err(e) => e == VssError::NotCertified && !self.aggregator().certified(),
            },
    {
        if !self.aggregator.enough_approvals() || !self.deal_certified() {
            return Err(VssError::NotCertified);
        }
        Ok(Point::mul_base(&self.secret))
    }

    /// The encoded commitments to the coefficients of the secret
    /// polynomial, once the deal is certified.
    pub fn commits(&self) -> (r: Result<Vec<Vec<u8>>, VssError>)
        requires
            self.wf(),
        ensures
            match r {
                Ok(c) => self.aggregator().certified() && views(c@) == self.secret_commitments(),
                Err(e) => e == VssError::NotCertified && !self.aggregator().certified(),
            },
    {
        if !self.aggregator.enough_approvals() || !self.deal_certified() {
            return Err(VssError::NotCertified);
        }
        Ok(copy_list(&self.secret_commits))
    }

    /// The dealer's long-term key pair.
    pub fn key(&self) -> (r: (Scalar, Point))
        ensures
            r.0@ == self.secret_key(),
            r.1 == self.public_key(),
    {
        (self.long, self.pub_key)
    }

    /// The session identifier of the run.
    pub fn get_session_id(&self) -> (r: &[u8])
        ensures
            r@ == self.session(),
    {
        self.session_id.as_slice()
    }

    /// The deal of the verifier `i`, if there is such a verifier.
    pub fn deal(&self, i: u32) -> (r: Option<&Deal>)
        ensures
            r is Some <==> i < self.deals().len(),
            r matches Some(d) ==> d@ == self.deals()[i as int],
    {
        if (i as usize) < self.deals.len() {
            let d = &self.deals[i as usize];
            assert(self.deals()[i as int] == d@);
            Some(d)
        } else {
            None
        }
    }

    /// Declares the time for responses over: every verifier that has not
    /// responded is recorded with a complaint.
    pub fn set_timeout(&mut self)
        requires
            old(self).wf(),
        ensures
            final(self).wf(),
            final(self).same_run(old(self)),
            crate::aggregator::all_responded(
                final(self).aggregator().responses(),
                final(self).verifiers().len(),
            ),
            forall|i: u32| #[trigger]
                final(self).aggregator().responses().contains_key(i) ==> final(self).aggregator().responses()[i] == if old(self).aggregator().responses().contains_key(
                    i,
                ) {
                    old(self).aggregator().responses()[i]
                } else {
                    Aggregator::silent_response(old(self).session(), i)
                },
            old(self).aggregator().certified() ==> final(self).aggregator().certified(),
    {
        self.aggregator.clean_verifiers()
    }

    /// Records a response of the given index and verdict without a
    /// signature, unchecked. Meant for a key generation layer that runs the
    /// protocol on approvals only; not safe otherwise.
    pub fn unsafe_set_response_dkg(&mut self, index: u32, approved: bool) -> (res: Result<
        (),
        VssError,
    >)
        requires
            old(self).wf(),
        ensures
            final(self).wf(),
            final(self).same_run(old(self)),
            match res {
                Ok(()) => {
                    &&& index < old(self).verifiers().len()
                    &&& !old(self).aggregator().responses().contains_key(index)
                    &&& final(self).aggregator().responses() == old(self).aggregator().responses().insert(
                        index,
                        crate::response::ResponseView {
                            session_id: old(self).session(),
                            index,
                            approved,
                            signature: Seq::empty(),
                        },
                    )
                },
                Err(e) => {
                    &&& final(self).aggregator().responses() == old(self).aggregator().responses()
                    &&& e == if index >= old(self).verifiers().len() {
                        VssError::IndexOutOfBounds
                    } else {
                        VssError::DuplicateResponse
                    }
                    &&& index >= old(self).verifiers().len() || old(self).aggregator().responses().contains_key(index)
                },
            },
            old(self).aggregator().certified() ==> final(self).aggregator().certified(),
    {
        self.aggregator.unsafe_set_response_dkg(index, approved)
    }
}

/// The encodings of the points of a list.
fn encode_points(ps: &Vec<Point>) -> (r: Vec<Vec<u8>>)
    ensures
        views(r@) == encodings(ps@),
        forall|j: int| 0 <= j < r@.len() ==> is_point(#[trigger] views(r@)[j]),
{
    let mut out: Vec<Vec<u8>> = Vec::new();
    let mut k: usize = 0;
    while k < ps.len()
        invariant
            k <= ps.len(),
            out@.len() == k,
            forall|j: int| 0 <= j < k ==> (#[trigger] out@[j])@ == ps@[j]@ && is_point(out@[j]@),
        decreases ps.len() - k,
    {
        let raw = ps[k].to_bytes();
        out.push(copy_bytes(raw.as_slice()));
        k += 1;
    }
    assert(views(out@) =~= encodings(ps@));
    out
}

} // verus!
