use pedersen_vss::codec::encode;
use pedersen_vss::dh::{context, dh_exchange, seal};
use pedersen_vss::sign::sign_msg;
use pedersen_vss::{
    recover_secret, Deal, Dealer, EncryptedDeal, Justification, Point, Response, Scalar, Verifier,
    VssError,
};

struct Run {
    secret: Scalar,
    dealer_secret: Scalar,
    dealer_public: Point,
    verifier_secrets: Vec<Scalar>,
    verifier_publics: Vec<Point>,
    dealer: Dealer,
    verifiers: Vec<Verifier>,
}

fn run(n: usize, t: u32) -> Run {
    let secret = Scalar::random();
    let dealer_secret = Scalar::random();
    let dealer_public = Point::mul_base(&dealer_secret);
    let verifier_secrets: Vec<Scalar> = (0..n).map(|_| Scalar::random()).collect();
    let verifier_publics: Vec<Point> = verifier_secrets.iter().map(Point::mul_base).collect();
    let dealer = Dealer::new(dealer_secret, secret, verifier_publics.clone(), t).unwrap();
    let verifiers = verifier_secrets
        .iter()
        .map(|s| Verifier::new(*s, dealer_public, verifier_publics.clone()).unwrap())
        .collect();
    Run {
        secret,
        dealer_secret,
        dealer_public,
        verifier_secrets,
        verifier_publics,
        dealer,
        verifiers,
    }
}

fn same_deal(a: &Deal, b: &Deal) -> bool {
    a.session_id == b.session_id
        && a.sec_share.i == b.sec_share.i
        && a.sec_share.v.equals(&b.sec_share.v)
        && a.rnd_share.i == b.rnd_share.i
        && a.rnd_share.v.equals(&b.rnd_share.v)
        && a.t == b.t
        && a.commitments == b.commitments
}

/// Every verifier takes in its deal; the responses come back in order.
fn distribute(r: &mut Run) -> Vec<Response> {
    let deals = r.dealer.encrypt_deals().unwrap();
    deals
        .iter()
        .zip(r.verifiers.iter_mut())
        .map(|(ed, v)| v.process_encrypted_deal(ed).unwrap())
        .collect()
}

/// Every response reaches the dealer and every verifier but its issuer.
fn broadcast(r: &mut Run, responses: &[Response]) {
    for resp in responses {
        assert!(r.dealer.process_response(resp).unwrap().is_none());
        for v in r.verifiers.iter_mut() {
            if v.index() != resp.index {
                v.process_response(resp).unwrap();
            }
        }
    }
}

/// An encrypted deal made outside the dealer, with the dealer's key.
fn forge_encrypted_deal(r: &Run, i: usize, deal: &Deal) -> EncryptedDeal {
    let ephemeral = Scalar::random();
    let dh_key = Point::mul_base(&ephemeral);
    let signature = sign_msg(
        &r.dealer_secret,
        &r.dealer_public,
        &dh_key.to_bytes(),
        &(i as u32).to_le_bytes(),
    );
    let shared = dh_exchange(&ephemeral, &r.verifier_publics[i]);
    let info = context(&r.dealer_public, &r.verifier_publics);
    let cipher = seal(&shared, &info, &[0u8; 12], &encode(deal)).unwrap();
    EncryptedDeal { dh_key, signature, nonce: vec![0u8; 12], cipher }
}

fn signed_justification(r: &Run, index: u32, deal: Deal) -> Justification {
    let session_id = r.dealer.get_session_id().to_vec();
    let hash = Justification::hash(&session_id, index, &deal).unwrap();
    let signature = sign_msg(&r.dealer_secret, &r.dealer_public, &hash, &index.to_le_bytes());
    Justification { session_id, index, deal, signature }
}

fn signed_response(r: &Run, index: u32, approved: bool) -> Response {
    let session_id = r.dealer.get_session_id().to_vec();
    let hash = Response::hash(&session_id, index, approved as u32).unwrap();
    let signature = sign_msg(
        &r.verifier_secrets[index as usize],
        &r.verifier_publics[index as usize],
        &hash,
        &index.to_le_bytes(),
    );
    Response { session_id, index, approved, signature }
}

#[test]
fn dealer_refuses_an_invalid_threshold() {
    let secrets: Vec<Scalar> = (0..4).map(|_| Scalar::random()).collect();
    let publics: Vec<Point> = secrets.iter().map(Point::mul_base).collect();
    for t in [0u32, 1, 5, 100] {
        let d = Dealer::new(Scalar::random(), Scalar::random(), publics.clone(), t);
        assert_eq!(d.err(), Some(VssError::InvalidThreshold));
    }
    assert!(Dealer::new(Scalar::random(), Scalar::random(), publics.clone(), 2).is_ok());
    assert!(Dealer::new(Scalar::random(), Scalar::random(), publics, 4).is_ok());
    let none = Dealer::new(Scalar::random(), Scalar::random(), vec![], 2);
    assert_eq!(none.err(), Some(VssError::InvalidThreshold));
}

#[test]
fn verifier_must_be_in_the_list() {
    let r = run(3, 2);
    let stranger = Verifier::new(Scalar::random(), r.dealer_public, r.verifier_publics.clone());
    assert_eq!(stranger.err(), Some(VssError::KeyNotFound));
    for (i, v) in r.verifiers.iter().enumerate() {
        assert_eq!(v.index(), i as u32);
        assert!(v.key().0.equals(&r.verifier_secrets[i]));
        assert!(v.key().1.equals(&r.verifier_publics[i]));
        assert_eq!(v.verifiers().len(), 3);
        assert!(v.session_id().is_empty());
        assert!(!v.deal_certified());
        assert!(v.enough_approvals());
        assert_eq!(v.get_deal().err(), Some(VssError::NotCertified));
    }
}

#[test]
fn dealer_exposes_its_key_and_session() {
    let r = run(4, 3);
    assert!(r.dealer.key().0.equals(&r.dealer_secret));
    assert!(r.dealer.key().1.equals(&r.dealer_public));
    let sid = r.dealer.get_session_id().to_vec();
    assert_eq!(sid.len(), 32);
    let deal = r.dealer.deal(0).unwrap();
    let expected = pedersen_vss::session_id(
        &r.dealer_public,
        &r.verifier_publics,
        &deal.commitments,
        3,
    );
    assert_eq!(sid, expected.to_vec());
    assert!(r.dealer.deal(4).is_none());
    for i in 0..4u32 {
        let d = r.dealer.deal(i).unwrap();
        assert_eq!(d.session_id, sid);
        assert_eq!(d.sec_share.i, i);
        assert_eq!(d.rnd_share.i, i);
        assert_eq!(d.t, 3);
        assert_eq!(d.commitments.len(), 3);
        assert_eq!(d.commitments, deal.commitments);
    }
}

#[test]
fn honest_deals_verify_against_their_commitments() {
    let r = run(5, 3);
    let sid = r.dealer.get_session_id().to_vec();
    for i in 0..5u32 {
        let d = r.dealer.deal(i).unwrap();
        assert_eq!(d.verify(&r.verifier_publics, &sid), Ok(()));
    }
}

#[test]
fn deal_verification_names_what_fails() {
    let r = run(4, 3);
    let sid = r.dealer.get_session_id().to_vec();
    let good = r.dealer.deal(1).unwrap().clone();

    let mut d = good.clone();
    d.t = 1;
    assert_eq!(d.verify(&r.verifier_publics, &sid), Err(VssError::InvalidThreshold));
    d.t = 5;
    assert_eq!(d.verify(&r.verifier_publics, &sid), Err(VssError::InvalidThreshold));

    assert_eq!(good.verify(&r.verifier_publics, &[0u8; 32]), Err(VssError::SessionIdMismatch));

    let mut d = good.clone();
    d.rnd_share.i = 2;
    assert_eq!(d.verify(&r.verifier_publics, &sid), Err(VssError::ShareIndexMismatch));

    let mut d = good.clone();
    d.sec_share.i = 4;
    d.rnd_share.i = 4;
    assert_eq!(d.verify(&r.verifier_publics, &sid), Err(VssError::IndexOutOfBounds));

    let mut d = good.clone();
    d.commitments[1] = vec![0xff; 32];
    assert_eq!(d.verify(&r.verifier_publics, &sid), Err(VssError::InvalidCommitment));
    d.commitments[1] = vec![1, 2, 3];
    assert_eq!(d.verify(&r.verifier_publics, &sid), Err(VssError::InvalidCommitment));

    let mut d = good.clone();
    d.sec_share.i = 2;
    d.rnd_share.i = 2;
    assert_eq!(d.verify(&r.verifier_publics, &sid), Err(VssError::ShareDoesNotVerify));
}

#[test]
fn tampered_shares_and_commitments_are_detected() {
    let r = run(4, 3);
    let sid = r.dealer.get_session_id().to_vec();
    let good = r.dealer.deal(2).unwrap().clone();

    let mut d = good.clone();
    d.sec_share.v = d.sec_share.v.add(&Scalar::one());
    assert_eq!(d.verify(&r.verifier_publics, &sid), Err(VssError::ShareDoesNotVerify));

    let mut d = good.clone();
    d.rnd_share.v = d.rnd_share.v.add(&Scalar::one());
    assert_eq!(d.verify(&r.verifier_publics, &sid), Err(VssError::ShareDoesNotVerify));

    let mut d = good.clone();
    d.commitments.swap(0, 1);
    assert_eq!(d.verify(&r.verifier_publics, &sid), Err(VssError::ShareDoesNotVerify));

    let mut d = good.clone();
    d.commitments[0] = Point::generator().to_bytes().to_vec();
    assert_eq!(d.verify(&r.verifier_publics, &sid), Err(VssError::ShareDoesNotVerify));

    for byte in 0..32 {
        let mut d = good.clone();
        d.commitments[2][byte] ^= 1;
        assert!(d.verify(&r.verifier_publics, &sid).is_err());
    }
}

#[test]
fn encrypted_deal_opens_for_its_verifier_only() {
    let mut r = run(4, 3);
    for i in 0..4usize {
        let ed = r.dealer.encrypt_deal(i as u32).unwrap();
        assert_eq!(ed.nonce, vec![0u8; 12]);
        assert_eq!(ed.signature.len(), 64);
        let opened = r.verifiers[i].decrypt_deal(&ed).unwrap();
        assert!(same_deal(&opened, r.dealer.deal(i as u32).unwrap()));
        for j in 0..4usize {
            if j != i {
                assert!(r.verifiers[j].decrypt_deal(&ed).is_err());
            }
        }
    }
    assert_eq!(r.dealer.encrypt_deal(4).err(), Some(VssError::IndexOutOfBounds));
    assert_eq!(r.dealer.encrypt_deals().unwrap().len(), 4);
    // the envelope differs from call to call
    let a = r.dealer.encrypt_deal(0).unwrap();
    let b = r.dealer.encrypt_deal(0).unwrap();
    assert!(!a.dh_key.equals(&b.dh_key));
    assert_ne!(a.cipher, b.cipher);
    assert!(r.verifiers[0].process_encrypted_deal(&b).is_ok());
}

#[test]
fn sealing_is_determined_by_the_ephemeral_key() {
    let r = run(3, 2);
    let e = Scalar::random();
    let a = r.dealer.seal_deal(1, &e, vec![1, 2, 3]).unwrap();
    let b = r.dealer.seal_deal(1, &e, vec![1, 2, 3]).unwrap();
    assert!(a.dh_key.equals(&Point::mul_base(&e)));
    assert_eq!(a.cipher, b.cipher);
    assert_eq!(a.signature, vec![1, 2, 3]);
    assert_eq!(a.nonce, vec![0u8; 12]);
    let shared = dh_exchange(&e, &r.verifier_publics[1]);
    let info = context(&r.dealer_public, &r.verifier_publics);
    let expected = seal(&shared, &info, &[0u8; 12], &encode(r.dealer.deal(1).unwrap())).unwrap();
    assert_eq!(a.cipher, expected);
    assert_eq!(r.dealer.seal_deal(3, &e, vec![]).err(), Some(VssError::IndexOutOfBounds));
    // the signature is not the dealer's
    assert_eq!(r.verifiers[1].decrypt_deal(&a).err(), Some(VssError::BadSignature));
}

#[test]
fn decryption_names_what_fails() {
    let r = run(3, 2);
    let ed = r.dealer.encrypt_deal(0).unwrap();

    let mut bad = ed.clone();
    bad.signature[3] ^= 1;
    assert_eq!(r.verifiers[0].decrypt_deal(&bad).err(), Some(VssError::BadSignature));

    let mut bad = ed.clone();
    bad.dh_key = Point::mul_base(&Scalar::random());
    assert_eq!(r.verifiers[0].decrypt_deal(&bad).err(), Some(VssError::BadSignature));

    let mut bad = ed.clone();
    let last = bad.cipher.len() - 1;
    bad.cipher[last] ^= 1;
    assert_eq!(r.verifiers[0].decrypt_deal(&bad).err(), Some(VssError::DecryptionFailed));

    let mut bad = ed.clone();
    bad.nonce = vec![0u8; 8];
    assert_eq!(r.verifiers[0].decrypt_deal(&bad).err(), Some(VssError::DecryptionFailed));

    let mut bad = ed.clone();
    bad.nonce[0] = 1;
    assert_eq!(r.verifiers[0].decrypt_deal(&bad).err(), Some(VssError::DecryptionFailed));

    // what is sealed is no deal
    let ephemeral = Scalar::random();
    let dh_key = Point::mul_base(&ephemeral);
    let signature =
        sign_msg(&r.dealer_secret, &r.dealer_public, &dh_key.to_bytes(), &0u32.to_le_bytes());
    let shared = dh_exchange(&ephemeral, &r.verifier_publics[0]);
    let info = context(&r.dealer_public, &r.verifier_publics);
    let cipher = seal(&shared, &info, &[0u8; 12], b"not a deal").unwrap();
    let junk = EncryptedDeal { dh_key, signature, nonce: vec![0u8; 12], cipher };
    assert_eq!(r.verifiers[0].decrypt_deal(&junk).err(), Some(VssError::MalformedDeal));
}

#[test]
fn verifier_refuses_a_deal_that_is_not_its_own() {
    let mut r = run(4, 3);
    // the deal of verifier 1, sealed for verifier 0
    let other = r.dealer.deal(1).unwrap().clone();
    let ed = forge_encrypted_deal(&r, 0, &other);
    assert_eq!(r.verifiers[0].process_encrypted_deal(&ed).err(), Some(VssError::WrongIndex));

    // a deal whose session identifier is not that of its contents
    let mut d = r.dealer.deal(0).unwrap().clone();
    d.session_id[0] ^= 1;
    let ed = forge_encrypted_deal(&r, 0, &d);
    assert_eq!(
        r.verifiers[0].process_encrypted_deal(&ed).err(),
        Some(VssError::SessionIdMismatch)
    );
    let mut d = r.dealer.deal(0).unwrap().clone();
    d.t = 2;
    let ed = forge_encrypted_deal(&r, 0, &d);
    assert_eq!(
        r.verifiers[0].process_encrypted_deal(&ed).err(),
        Some(VssError::SessionIdMismatch)
    );

    // nothing of this has left a trace
    assert!(r.verifiers[0].session_id().is_empty());
    let ed = r.dealer.encrypt_deal(0).unwrap();
    let resp = r.verifiers[0].process_encrypted_deal(&ed).unwrap();
    assert!(resp.approved);
    assert_eq!(r.verifiers[0].session_id(), r.dealer.get_session_id());
}

#[test]
fn verifier_takes_one_deal_only() {
    let mut r = run(3, 2);
    let ed = r.dealer.encrypt_deal(1).unwrap();
    let resp = r.verifiers[1].process_encrypted_deal(&ed).unwrap();
    assert_eq!(resp.index, 1);
    assert!(resp.approved);
    assert_eq!(resp.session_id, r.dealer.get_session_id().to_vec());
    assert_eq!(
        r.verifiers[1].process_encrypted_deal(&ed).err(),
        Some(VssError::DealAlreadyReceived)
    );
    let again = r.dealer.encrypt_deal(1).unwrap();
    assert_eq!(
        r.verifiers[1].process_encrypted_deal(&again).err(),
        Some(VssError::DealAlreadyReceived)
    );
}

#[test]
fn response_is_signed_by_its_verifier() {
    let mut r = run(3, 2);
    let ed = r.dealer.encrypt_deal(2).unwrap();
    let resp = r.verifiers[2].process_encrypted_deal(&ed).unwrap();
    let hash = resp.hash_self().unwrap();
    assert!(pedersen_vss::sign::verify_signature(
        &r.verifier_publics[2].to_bytes(),
        &resp.signature,
        &hash,
        &2u32.to_le_bytes()
    ));
}

#[test]
fn all_honest_five_verifiers_threshold_three() {
    let mut r = run(5, 3);
    let responses = distribute(&mut r);
    assert_eq!(responses.len(), 5);
    for (i, resp) in responses.iter().enumerate() {
        assert_eq!(resp.index, i as u32);
        assert!(resp.approved);
    }
    assert!(!r.dealer.deal_certified());
    for (k, resp) in responses.iter().enumerate() {
        assert!(r.dealer.process_response(resp).unwrap().is_none());
        assert_eq!(r.dealer.deal_certified(), k == 4);
    }
    for v in r.verifiers.iter_mut() {
        assert!(!v.deal_certified());
        for resp in &responses {
            if resp.index != v.index() {
                v.process_response(resp).unwrap();
            }
        }
        assert!(v.enough_approvals());
        assert!(v.deal_certified());
    }
    let deals: Vec<Deal> = r.verifiers.iter().map(|v| v.get_deal().unwrap()).collect();
    for a in 0..5 {
        for b in 0..5 {
            for c in 0..5 {
                if a != b && b != c && a != c {
                    let picked = [deals[a].clone(), deals[b].clone(), deals[c].clone()];
                    assert!(recover_secret(&picked, 3).unwrap().equals(&r.secret));
                }
            }
        }
    }
    assert!(recover_secret(&deals, 3).unwrap().equals(&r.secret));
    assert!(recover_secret(&deals, 5).unwrap().equals(&r.secret));
    assert!(r.dealer.secret_commit().unwrap().equals(&Point::mul_base(&r.secret)));
    let commits = r.dealer.commits().unwrap();
    assert_eq!(commits.len(), 3);
    assert_eq!(commits[0], Point::mul_base(&r.secret).to_bytes().to_vec());
}

#[test]
fn tampered_envelope_then_justification_seven_verifiers_threshold_four() {
    let mut r = run(7, 4);
    let deals = r.dealer.encrypt_deals().unwrap();
    let target = 3usize;
    let mut responses = Vec::new();
    for (i, ed) in deals.iter().enumerate() {
        if i == target {
            let mut tampered = ed.clone();
            tampered.cipher[10] ^= 0x80;
            assert_eq!(
                r.verifiers[i].process_encrypted_deal(&tampered).err(),
                Some(VssError::DecryptionFailed)
            );
        } else {
            responses.push(r.verifiers[i].process_encrypted_deal(ed).unwrap());
        }
    }
    // the verifier that could not open its deal complains
    let complaint = signed_response(&r, target as u32, false);
    let justification = r.dealer.process_response(&complaint).unwrap().unwrap();
    assert_eq!(justification.index, target as u32);
    assert_eq!(justification.session_id, r.dealer.get_session_id().to_vec());
    assert!(same_deal(&justification.deal, r.dealer.deal(target as u32).unwrap()));
    let hash =
        Justification::hash(&justification.session_id, justification.index, &justification.deal)
            .unwrap();
    assert!(pedersen_vss::sign::verify_signature(
        &r.dealer_public.to_bytes(),
        &justification.signature,
        &hash,
        &(target as u32).to_le_bytes()
    ));
    for resp in &responses {
        assert!(r.dealer.process_response(resp).unwrap().is_none());
    }
    assert!(r.dealer.deal_certified());

    for i in 0..7usize {
        if i == target {
            continue;
        }
        for resp in &responses {
            if resp.index != i as u32 {
                r.verifiers[i].process_response(resp).unwrap();
            }
        }
        r.verifiers[i].process_response(&complaint).unwrap();
        assert!(r.verifiers[i].deal_certified());
        assert_eq!(r.verifiers[i].process_justification(&justification), Ok(()));
        assert!(r.verifiers[i].deal_certified());
        // the complaint has become an approval
        assert_eq!(
            r.verifiers[i].process_justification(&justification),
            Err(VssError::JustificationForApproval)
        );
    }
}

#[test]
fn malicious_dealer_four_verifiers_threshold_three() {
    let mut r = run(4, 3);
    let target = 1usize;
    let mut bad = r.dealer.deal(target as u32).unwrap().clone();
    bad.sec_share.v = bad.sec_share.v.add(&Scalar::one());
    let mut responses = Vec::new();
    for i in 0..4usize {
        let ed = if i == target {
            forge_encrypted_deal(&r, i, &bad)
        } else {
            r.dealer.encrypt_deal(i as u32).unwrap()
        };
        responses.push(r.verifiers[i].process_encrypted_deal(&ed).unwrap());
    }
    assert!(!responses[target].approved);
    for (i, resp) in responses.iter().enumerate() {
        assert_eq!(resp.approved, i != target);
    }
    let justification = signed_justification(&r, target as u32, bad.clone());
    for i in 0..4usize {
        for resp in &responses {
            if resp.index != i as u32 {
                r.verifiers[i].process_response(resp).unwrap();
            }
        }
        assert!(r.verifiers[i].enough_approvals());
        assert!(r.verifiers[i].deal_certified());
        assert_eq!(
            r.verifiers[i].process_justification(&justification),
            Err(VssError::ShareDoesNotVerify)
        );
        assert!(r.verifiers[i].enough_approvals());
        assert!(!r.verifiers[i].deal_certified());
        assert_eq!(r.verifiers[i].get_deal().err(), Some(VssError::NotCertified));
        // the mark stays
        r.verifiers[i].set_timeout();
        assert!(!r.verifiers[i].deal_certified());
    }
}

#[test]
fn honest_justification_turns_a_complaint_into_an_approval() {
    let mut r = run(4, 4);
    let responses = distribute(&mut r);
    // verifier 2 complains although its deal is good
    let complaint = signed_response(&r, 2, false);
    let justification = r.dealer.process_response(&complaint).unwrap().unwrap();
    let v = &mut r.verifiers[0];
    v.process_response(&responses[1]).unwrap();
    v.process_response(&complaint).unwrap();
    v.process_response(&responses[3]).unwrap();
    // three approvals of four: not enough for a threshold of four
    assert!(!v.enough_approvals());
    assert!(!v.deal_certified());
    assert_eq!(v.process_justification(&justification), Ok(()));
    assert!(v.enough_approvals());
    assert!(v.deal_certified());
}

#[test]
fn justification_must_answer_a_complaint_of_this_run() {
    let mut r = run(3, 2);
    let responses = distribute(&mut r);
    let deal = r.dealer.deal(1).unwrap().clone();
    let beyond = signed_justification(&r, 3, deal.clone());
    let mut foreign = deal.clone();
    foreign.session_id[0] ^= 1;
    let other_session = signed_justification(&r, 1, foreign);
    let j = signed_justification(&r, 1, deal.clone());
    let v = &mut r.verifiers[0];

    assert_eq!(v.process_justification(&beyond), Err(VssError::IndexOutOfBounds));
    assert_eq!(v.process_justification(&other_session), Err(VssError::SessionIdMismatch));
    assert_eq!(v.process_justification(&j), Err(VssError::NoComplaint));

    v.process_response(&responses[1]).unwrap();
    assert_eq!(v.process_justification(&j), Err(VssError::JustificationForApproval));
    // none of these has marked the dealer
    v.process_response(&responses[2]).unwrap();
    assert!(v.deal_certified());
}

#[test]
fn silent_verifiers_and_timeout_six_verifiers_threshold_four() {
    let mut r = run(6, 4);
    let deals = r.dealer.encrypt_deals().unwrap();
    let mut responses = Vec::new();
    for i in 0..4usize {
        responses.push(r.verifiers[i].process_encrypted_deal(&deals[i]).unwrap());
    }
    for resp in &responses {
        assert!(r.dealer.process_response(resp).unwrap().is_none());
    }
    assert!(!r.dealer.deal_certified());
    assert_eq!(r.dealer.secret_commit().err(), Some(VssError::NotCertified));
    r.dealer.set_timeout();
    assert!(r.dealer.deal_certified());
    assert!(r.dealer.secret_commit().is_ok());
    // the gaps are filled: late responses are duplicates
    let late = r.verifiers[4].process_encrypted_deal(&deals[4]).unwrap();
    assert!(late.approved);
    assert_eq!(r.dealer.process_response(&late).err(), Some(VssError::DuplicateResponse));
    // a second timeout changes nothing
    r.dealer.set_timeout();
    assert!(r.dealer.deal_certified());

    let v = &mut r.verifiers[0];
    for resp in &responses[1..] {
        v.process_response(resp).unwrap();
    }
    assert!(v.enough_approvals());
    assert!(!v.deal_certified());
    v.set_timeout();
    assert!(v.enough_approvals());
    assert!(v.deal_certified());
    assert_eq!(v.process_response(&late).err(), Some(VssError::DuplicateResponse));
    assert!(same_deal(&v.get_deal().unwrap(), r.dealer.deal(0).unwrap()));
}

#[test]
fn timeout_without_enough_approvals_does_not_certify() {
    let mut r = run(5, 3);
    let deals = r.dealer.encrypt_deals().unwrap();
    for i in 0..2usize {
        let resp = r.verifiers[i].process_encrypted_deal(&deals[i]).unwrap();
        r.dealer.process_response(&resp).unwrap();
    }
    r.dealer.set_timeout();
    assert!(!r.dealer.deal_certified());
    assert_eq!(r.dealer.commits().err(), Some(VssError::NotCertified));
}

#[test]
fn recovery_refuses_mixed_session_ids() {
    let mut a = run(5, 3);
    let mut b = run(5, 3);
    let ra = distribute(&mut a);
    let rb = distribute(&mut b);
    broadcast(&mut a, &ra);
    broadcast(&mut b, &rb);
    let mut deals: Vec<Deal> = a.verifiers.iter().map(|v| v.get_deal().unwrap()).collect();
    assert!(recover_secret(&deals, 3).is_ok());
    deals[4] = b.verifiers[4].get_deal().unwrap();
    assert_eq!(recover_secret(&deals, 3).err(), Some(VssError::SessionIdMismatch));
    deals.swap(0, 4);
    assert_eq!(recover_secret(&deals, 3).err(), Some(VssError::SessionIdMismatch));
}

#[test]
fn recovery_refuses_too_few_or_repeated_deals() {
    let mut r = run(4, 3);
    let responses = distribute(&mut r);
    broadcast(&mut r, &responses);
    let deals: Vec<Deal> = r.verifiers.iter().map(|v| v.get_deal().unwrap()).collect();
    assert_eq!(recover_secret(&deals[..2], 3).err(), Some(VssError::NotEnoughShares));
    assert_eq!(recover_secret(&[], 3).err(), Some(VssError::NotEnoughShares));
    let repeated = [deals[0].clone(), deals[0].clone(), deals[1].clone()];
    assert_eq!(recover_secret(&repeated, 3).err(), Some(VssError::DegenerateShares));
    assert!(recover_secret(&deals[1..], 3).unwrap().equals(&r.secret));
}

#[test]
fn two_approvals_of_three_do_not_certify() {
    let mut r = run(3, 3);
    let responses = distribute(&mut r);
    for resp in &responses[..2] {
        r.dealer.process_response(resp).unwrap();
    }
    assert!(!r.dealer.deal_certified());
    assert_eq!(r.dealer.secret_commit().err(), Some(VssError::NotCertified));
    assert_eq!(r.dealer.commits().err(), Some(VssError::NotCertified));
    r.dealer.set_timeout();
    assert_eq!(r.dealer.secret_commit().err(), Some(VssError::NotCertified));
}

#[test]
fn second_response_of_one_verifier_is_refused() {
    let mut r = run(3, 2);
    let responses = distribute(&mut r);
    assert!(r.dealer.process_response(&responses[0]).is_ok());
    assert_eq!(
        r.dealer.process_response(&responses[0]).err(),
        Some(VssError::DuplicateResponse)
    );
    let complaint = signed_response(&r, 0, false);
    assert_eq!(r.dealer.process_response(&complaint).err(), Some(VssError::DuplicateResponse));
    let v = &mut r.verifiers[1];
    assert!(v.process_response(&responses[0]).is_ok());
    assert_eq!(v.process_response(&responses[0]), Err(VssError::DuplicateResponse));
    // its own response is recorded since it took its deal in
    assert_eq!(v.process_response(&responses[1]), Err(VssError::DuplicateResponse));
}

#[test]
fn forged_and_foreign_responses_are_refused() {
    let mut r = run(3, 2);
    let responses = distribute(&mut r);
    let good = &responses[1];

    // signed with another verifier's key
    let hash = Response::hash(&good.session_id, 1, 1).unwrap();
    let forged = Response {
        session_id: good.session_id.clone(),
        index: 1,
        approved: true,
        signature: sign_msg(
            &r.verifier_secrets[2],
            &r.verifier_publics[2],
            &hash,
            &1u32.to_le_bytes(),
        ),
    };
    assert_eq!(r.dealer.process_response(&forged).err(), Some(VssError::BadSignature));
    assert_eq!(r.verifiers[0].process_response(&forged), Err(VssError::BadSignature));

    // a verdict changed after signing
    let mut flipped = good.clone();
    flipped.approved = false;
    assert_eq!(r.dealer.process_response(&flipped).err(), Some(VssError::BadSignature));

    // an index changed after signing
    let mut moved = good.clone();
    moved.index = 2;
    assert_eq!(r.dealer.process_response(&moved).err(), Some(VssError::BadSignature));
    moved.index = 3;
    assert_eq!(r.dealer.process_response(&moved).err(), Some(VssError::IndexOutOfBounds));

    // another session
    let mut foreign = good.clone();
    foreign.session_id[31] ^= 1;
    assert_eq!(r.dealer.process_response(&foreign).err(), Some(VssError::SessionIdMismatch));
    foreign.session_id = vec![];
    assert_eq!(r.dealer.process_response(&foreign).err(), Some(VssError::SessionIdMismatch));
    foreign.session_id = vec![0u8; 33];
    assert_eq!(r.dealer.process_response(&foreign).err(), Some(VssError::SessionIdMismatch));

    // without a signature
    let mut unsigned = good.clone();
    unsigned.signature = vec![];
    assert_eq!(r.dealer.process_response(&unsigned).err(), Some(VssError::BadSignature));

    assert!(r.dealer.process_response(good).is_ok());
}

#[test]
fn verifier_without_a_deal_refuses_responses() {
    let mut r = run(3, 2);
    let ed = r.dealer.encrypt_deal(1).unwrap();
    let resp = r.verifiers[1].process_encrypted_deal(&ed).unwrap();
    assert_eq!(r.verifiers[0].process_response(&resp), Err(VssError::SessionIdMismatch));
}

#[test]
fn certification_survives_further_responses() {
    let mut r = run(4, 2);
    let deals = r.dealer.encrypt_deals().unwrap();
    let mut responses = Vec::new();
    for i in 0..3usize {
        responses.push(r.verifiers[i].process_encrypted_deal(&deals[i]).unwrap());
    }
    let complaint = signed_response(&r, 3, false);
    for resp in &responses {
        r.dealer.process_response(resp).unwrap();
    }
    assert!(!r.dealer.deal_certified());
    assert!(r.dealer.process_response(&complaint).unwrap().is_some());
    assert!(r.dealer.deal_certified());
    assert!(r.dealer.process_response(&complaint).is_err());
    assert!(r.dealer.process_response(&responses[0]).is_err());
    assert!(r.dealer.unsafe_set_response_dkg(2, false).is_err());
    r.dealer.set_timeout();
    assert!(r.dealer.deal_certified());
}

#[test]
fn approvals_set_without_signature() {
    let mut r = run(3, 2);
    assert_eq!(r.dealer.unsafe_set_response_dkg(0, true), Ok(()));
    assert_eq!(r.dealer.unsafe_set_response_dkg(0, true), Err(VssError::DuplicateResponse));
    assert_eq!(r.dealer.unsafe_set_response_dkg(3, true), Err(VssError::IndexOutOfBounds));
    assert_eq!(r.dealer.unsafe_set_response_dkg(1, true), Ok(()));
    assert!(!r.dealer.deal_certified());
    assert_eq!(r.dealer.unsafe_set_response_dkg(2, false), Ok(()));
    assert!(r.dealer.deal_certified());

    let v = &mut r.verifiers[0];
    assert_eq!(v.unsafe_set_response_dkg(0, true), Ok(()));
    assert_eq!(v.unsafe_set_response_dkg(1, true), Ok(()));
    assert_eq!(v.unsafe_set_response_dkg(2, true), Ok(()));
    assert_eq!(v.unsafe_set_response_dkg(2, true), Err(VssError::DuplicateResponse));
    // the threshold is not set before the deal has come
    assert!(v.enough_approvals());
    assert!(!v.deal_certified());
}
