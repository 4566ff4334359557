use pedersen_vss::codec::{decode, encode};
use pedersen_vss::{Deal, Justification, PriShare, Response, Scalar};
use sha2::Digest;

fn sample_deal() -> Deal {
    Deal {
        session_id: vec![9u8; 32],
        sec_share: PriShare { i: 3, v: Scalar::from_u64(0x0102_0304) },
        rnd_share: PriShare { i: 3, v: Scalar::random() },
        t: 2,
        commitments: vec![vec![1u8; 32], vec![2u8; 32]],
    }
}

fn same_deal(a: &Deal, b: &Deal) -> bool {
    a.session_id == b.session_id
        && a.sec_share.i == b.sec_share.i
        && a.sec_share.v.equals(&b.sec_share.v)
        && a.rnd_share.i == b.rnd_share.i
        && a.rnd_share.v.equals(&b.rnd_share.v)
        && a.t == b.t
        && a.commitments == b.commitments
}

#[test]
fn deal_encoding_has_the_stated_layout() {
    let deal = Deal {
        session_id: vec![0xaa, 0xbb],
        sec_share: PriShare { i: 1, v: Scalar::from_u64(5) },
        rnd_share: PriShare { i: 2, v: Scalar::from_u64(6) },
        t: 7,
        commitments: vec![vec![0xcc], vec![]],
    };
    let mut expected = vec![2u8, 0, 0, 0, 0, 0, 0, 0, 0xaa, 0xbb];
    expected.extend_from_slice(&[1, 0, 0, 0]);
    expected.push(5);
    expected.extend_from_slice(&[0u8; 31]);
    expected.extend_from_slice(&[2, 0, 0, 0]);
    expected.push(6);
    expected.extend_from_slice(&[0u8; 31]);
    expected.extend_from_slice(&[7, 0, 0, 0]);
    expected.extend_from_slice(&[2, 0, 0, 0, 0, 0, 0, 0]);
    expected.extend_from_slice(&[1, 0, 0, 0, 0, 0, 0, 0, 0xcc]);
    expected.extend_from_slice(&[0, 0, 0, 0, 0, 0, 0, 0]);
    assert_eq!(encode(&deal), expected);
}

#[test]
fn deal_encoding_agrees_with_bincode() {
    let deal = sample_deal();
    let plain = (
        deal.session_id.clone(),
        (deal.sec_share.i, deal.sec_share.v.to_bytes()),
        (deal.rnd_share.i, deal.rnd_share.v.to_bytes()),
        deal.t,
        deal.commitments.clone(),
    );
    assert_eq!(encode(&deal), bincode::serialize(&plain).unwrap());
}

#[test]
fn deal_round_trips_through_its_encoding() {
    let deal = sample_deal();
    let decoded = decode(&encode(&deal)).unwrap();
    assert!(same_deal(&deal, &decoded));
    let empty = Deal::empty();
    assert!(same_deal(&empty, &decode(&encode(&empty)).unwrap()));
    assert_eq!(empty.t, 0);
    assert!(empty.session_id.is_empty());
}

#[test]
fn decoder_refuses_what_is_no_encoding() {
    let bytes = encode(&sample_deal());
    assert!(decode(&[]).is_none());
    for cut in 0..bytes.len() {
        assert!(decode(&bytes[..cut]).is_none());
    }
    let mut longer = bytes.clone();
    longer.push(0);
    assert!(decode(&longer).is_none());
    // a share value that is not canonical
    let mut high = bytes.clone();
    for b in &mut high[8 + 32 + 4..8 + 32 + 4 + 32] {
        *b = 0xff;
    }
    assert!(decode(&high).is_none());
    // a length that runs past the end
    let mut long_id = bytes.clone();
    long_id[0] = 0xff;
    assert!(decode(&long_id).is_none());
    let mut many = bytes.clone();
    let at = 8 + 32 + 36 + 36 + 4;
    many[at + 7] = 0xff;
    assert!(decode(&many).is_none());
}

#[test]
fn deal_clone_is_equal() {
    let deal = sample_deal();
    assert!(same_deal(&deal, &deal.clone()));
    assert_eq!(deal, deal.clone());
}

#[test]
fn deals_differ_in_any_field() {
    let deal = sample_deal();
    let mut d = deal.clone();
    d.session_id.push(0);
    assert_ne!(d, deal);
    let mut d = deal.clone();
    d.sec_share.i = 4;
    assert_ne!(d, deal);
    let mut d = deal.clone();
    d.sec_share.v = d.sec_share.v.add(&Scalar::one());
    assert_ne!(d, deal);
    let mut d = deal.clone();
    d.rnd_share.i = 4;
    assert_ne!(d, deal);
    let mut d = deal.clone();
    d.rnd_share.v = Scalar::zero();
    assert_ne!(d, deal);
    let mut d = deal.clone();
    d.t = 3;
    assert_ne!(d, deal);
    let mut d = deal.clone();
    d.commitments[1][0] ^= 1;
    assert_ne!(d, deal);
    let mut d = deal.clone();
    d.commitments.pop();
    assert_ne!(d, deal);
}

#[test]
fn default_deal_is_the_empty_deal() {
    let d = Deal::default();
    assert_eq!(d, Deal::empty());
    assert_eq!(d.t, 0);
    assert!(d.session_id.is_empty());
    assert!(d.commitments.is_empty());
    assert_eq!(d.sec_share, PriShare { i: 0, v: Scalar::zero() });
    assert_eq!(d.rnd_share, PriShare { i: 0, v: Scalar::zero() });
}

#[test]
fn default_response_is_an_unsigned_complaint() {
    let r = Response::default();
    let expected = Response { session_id: vec![], index: 0, approved: false, signature: vec![] };
    assert_eq!(r, expected);
    assert_eq!(r.clone(), r);
    let mut other = r.clone();
    other.approved = true;
    assert_ne!(other, r);
    other = r.clone();
    other.index = 1;
    assert_ne!(other, r);
    other = r.clone();
    other.signature.push(1);
    assert_ne!(other, r);
    other = r.clone();
    other.session_id.push(1);
    assert_ne!(other, r);
}

#[test]
fn justifications_compare_by_value() {
    let j = Justification { session_id: vec![1], index: 2, deal: sample_deal(), signature: vec![3] };
    assert_eq!(j, j.clone());
    let mut other = j.clone();
    other.deal.t = 9;
    assert_ne!(other, j);
    other = j.clone();
    other.index = 3;
    assert_ne!(other, j);
}

#[test]
fn response_hash_is_sha256_of_its_transcript() {
    let sid = vec![7u8; 32];
    let mut hasher = sha2::Sha256::new();
    hasher.update(b"response");
    hasher.update(&sid);
    hasher.update(5u32.to_le_bytes());
    hasher.update(1u32.to_le_bytes());
    let expected: [u8; 32] = hasher.finalize().into();
    assert_eq!(Response::hash(&sid, 5, 1).unwrap(), expected);
    let r = Response { session_id: sid.clone(), index: 5, approved: true, signature: vec![] };
    assert_eq!(r.hash_self().unwrap(), expected);
    let c = Response { session_id: sid.clone(), index: 5, approved: false, signature: vec![1] };
    assert_eq!(c.hash_self().unwrap(), Response::hash(&sid, 5, 0).unwrap());
    assert_ne!(c.hash_self().unwrap(), expected);
}

#[test]
fn justification_hash_is_sha256_of_its_transcript() {
    let deal = sample_deal();
    let sid = vec![7u8; 32];
    let mut hasher = sha2::Sha256::new();
    hasher.update(b"justification");
    hasher.update(&sid);
    hasher.update(3u32.to_le_bytes());
    hasher.update(encode(&deal));
    let expected: [u8; 32] = hasher.finalize().into();
    assert_eq!(Justification::hash(&sid, 3, &deal).unwrap(), expected);
    assert_ne!(Justification::hash(&sid, 4, &deal).unwrap(), expected);
}
