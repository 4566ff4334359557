use pedersen_vss::{Aggregator, Point, Response, Scalar, VssError};
use pedersen_vss::sign::sign_msg;
use std::rc::Rc;

fn keys(n: usize) -> (Vec<Scalar>, Vec<Point>) {
    let secrets: Vec<Scalar> = (0..n).map(|_| Scalar::random()).collect();
    let publics: Vec<Point> = secrets.iter().map(Point::mul_base).collect();
    (secrets, publics)
}

fn unsigned(session_id: &[u8], index: u32, approved: bool) -> Response {
    Response { session_id: session_id.to_vec(), index, approved, signature: vec![] }
}

fn signed(secret: &Scalar, public: &Point, session_id: &[u8], index: u32, approved: bool) -> Response {
    let hash = Response::hash(session_id, index, approved as u32).unwrap();
    let signature = sign_msg(secret, public, &hash, &index.to_le_bytes());
    Response { session_id: session_id.to_vec(), index, approved, signature }
}

#[test]
fn fresh_aggregator_has_nothing() {
    let (_, publics) = keys(3);
    let dealer = Point::generator();
    let a = Aggregator::new(dealer, Rc::new(publics.clone()), 2, vec![1u8; 32]);
    assert!(!a.enough_approvals());
    assert!(!a.deal_certified());
    let unset = Aggregator::new(dealer, Rc::new(publics), 0, vec![]);
    assert!(unset.enough_approvals());
    assert!(!unset.deal_certified());
}

#[test]
fn add_response_refuses_duplicates_and_strangers() {
    let (_, publics) = keys(3);
    let sid = vec![1u8; 32];
    let mut a = Aggregator::new(Point::generator(), Rc::new(publics), 2, sid.clone());
    assert_eq!(a.add_response(&unsigned(&sid, 0, true)), Ok(()));
    assert_eq!(a.add_response(&unsigned(&sid, 0, true)), Err(VssError::DuplicateResponse));
    assert_eq!(a.add_response(&unsigned(&sid, 0, false)), Err(VssError::DuplicateResponse));
    assert_eq!(a.add_response(&unsigned(&sid, 3, true)), Err(VssError::IndexOutOfBounds));
    assert_eq!(a.add_response(&unsigned(&sid, u32::MAX, true)), Err(VssError::IndexOutOfBounds));
    assert!(!a.enough_approvals());
    assert_eq!(a.add_response(&unsigned(&sid, 2, true)), Ok(()));
    assert!(a.enough_approvals());
    assert!(!a.deal_certified());
    assert_eq!(a.add_response(&unsigned(&sid, 1, false)), Ok(()));
    assert!(a.deal_certified());
}

#[test]
fn complaints_do_not_count_as_approvals() {
    let (_, publics) = keys(4);
    let sid = vec![1u8; 32];
    let mut a = Aggregator::new(Point::generator(), Rc::new(publics), 3, sid.clone());
    a.add_response(&unsigned(&sid, 0, true)).unwrap();
    a.add_response(&unsigned(&sid, 1, false)).unwrap();
    a.add_response(&unsigned(&sid, 2, true)).unwrap();
    a.add_response(&unsigned(&sid, 3, false)).unwrap();
    assert!(!a.enough_approvals());
    assert!(!a.deal_certified());
}

#[test]
fn verify_response_checks_in_order() {
    let (secrets, publics) = keys(3);
    let sid = vec![5u8; 32];
    let mut a = Aggregator::new(Point::generator(), Rc::new(publics.clone()), 2, sid.clone());
    let good = signed(&secrets[1], &publics[1], &sid, 1, true);
    let other_sid = vec![6u8; 32];
    let foreign = signed(&secrets[1], &publics[1], &other_sid, 1, true);
    assert_eq!(a.verify_response(&foreign), Err(VssError::SessionIdMismatch));
    let beyond = signed(&secrets[1], &publics[1], &sid, 7, true);
    assert_eq!(a.verify_response(&beyond), Err(VssError::IndexOutOfBounds));
    assert_eq!(a.verify_response(&unsigned(&sid, 1, true)), Err(VssError::BadSignature));
    let wrong_key = signed(&secrets[0], &publics[0], &sid, 1, true);
    assert_eq!(a.verify_response(&wrong_key), Err(VssError::BadSignature));
    assert_eq!(a.verify_response(&good), Ok(()));
    assert_eq!(a.verify_response(&good), Err(VssError::DuplicateResponse));
    // a foreign session is named before a duplicate
    assert_eq!(a.verify_response(&foreign), Err(VssError::SessionIdMismatch));
    assert!(!a.enough_approvals());
}

#[test]
fn short_session_ids_never_match() {
    let (secrets, publics) = keys(2);
    let sid = vec![5u8; 16];
    let mut a = Aggregator::new(Point::generator(), Rc::new(publics.clone()), 2, sid.clone());
    let r = signed(&secrets[0], &publics[0], &sid, 0, true);
    assert_eq!(a.verify_response(&r), Err(VssError::SessionIdMismatch));
}

#[test]
fn clean_verifiers_fills_the_gaps_with_complaints() {
    let (_, publics) = keys(5);
    let sid = vec![1u8; 32];
    let mut a = Aggregator::new(Point::generator(), Rc::new(publics), 2, sid.clone());
    a.add_response(&unsigned(&sid, 1, true)).unwrap();
    a.add_response(&unsigned(&sid, 3, true)).unwrap();
    assert!(a.enough_approvals());
    assert!(!a.deal_certified());
    a.clean_verifiers();
    assert!(a.enough_approvals());
    assert!(a.deal_certified());
    for i in 0..5 {
        assert_eq!(a.add_response(&unsigned(&sid, i, true)), Err(VssError::DuplicateResponse));
    }
    a.clean_verifiers();
    assert!(a.deal_certified());

    let (_, publics) = keys(3);
    let mut b = Aggregator::new(Point::generator(), Rc::new(publics), 1, sid.clone());
    b.clean_verifiers();
    // every response is a complaint
    assert!(!b.enough_approvals());
    assert!(!b.deal_certified());
}

#[test]
fn unsigned_responses_for_key_generation() {
    let (_, publics) = keys(2);
    let sid = vec![1u8; 32];
    let mut a = Aggregator::new(Point::generator(), Rc::new(publics), 2, sid);
    assert_eq!(a.unsafe_set_response_dkg(0, true), Ok(()));
    assert_eq!(a.unsafe_set_response_dkg(2, true), Err(VssError::IndexOutOfBounds));
    assert_eq!(a.unsafe_set_response_dkg(0, false), Err(VssError::DuplicateResponse));
    assert!(!a.deal_certified());
    assert_eq!(a.unsafe_set_response_dkg(1, true), Ok(()));
    assert!(a.deal_certified());
}

#[test]
fn empty_list_of_verifiers() {
    let mut a = Aggregator::new(Point::generator(), Rc::new(vec![]), 0, vec![]);
    assert_eq!(a.add_response(&unsigned(&[], 0, true)), Err(VssError::IndexOutOfBounds));
    a.clean_verifiers();
    assert!(a.enough_approvals());
    assert!(!a.deal_certified());
}
