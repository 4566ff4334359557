use pedersen_vss::bytes::{bytes_eq, copy_bytes, put_u32, put_u64, read_le};
use pedersen_vss::dh::{context, dh_exchange, open, seal};
use pedersen_vss::point::Point;
use pedersen_vss::poly::{recover_secret, PriPoly, PriShare, PubPoly};
use pedersen_vss::scalar::Scalar;
use pedersen_vss::session::{derive_h, minimum_t, session_id, valid_t};
use pedersen_vss::sign::{sign_msg, verify_signature};
use pedersen_vss::VssError;
use sha2::Digest;

const ORDER_MINUS_ONE: [u8; 32] = [
    0xec, 0xd3, 0xf5, 0x5c, 0x1a, 0x63, 0x12, 0x58, 0xd6, 0x9c, 0xf7, 0xa2, 0xde, 0xf9, 0xde, 0x14,
    0x00, 0x00, 0x00, 0x00, 0x00, 0x00, 0x00, 0x00, 0x00, 0x00, 0x00, 0x00, 0x00, 0x00, 0x00, 0x10,
];

const BASE_POINT: [u8; 32] = [
    0xe2, 0xf2, 0xae, 0x0a, 0x6a, 0xbc, 0x4e, 0x71, 0xa8, 0x84, 0xa9, 0x61, 0xc5, 0x00, 0x51, 0x5f,
    0x58, 0xe3, 0x0b, 0x6a, 0xa5, 0x82, 0xdd, 0x8d, 0xb6, 0xa6, 0x59, 0x45, 0xe0, 0x8d, 0x2d, 0x76,
];

fn keys(n: usize) -> (Vec<Scalar>, Vec<Point>) {
    let secrets: Vec<Scalar> = (0..n).map(|_| Scalar::random()).collect();
    let publics: Vec<Point> = secrets.iter().map(Point::mul_base).collect();
    (secrets, publics)
}

#[test]
fn little_endian_integers_are_written_and_read() {
    let mut out = Vec::new();
    put_u32(&mut out, 0x0403_0201);
    put_u64(&mut out, 0x0c0b_0a09_0807_0605);
    assert_eq!(out, vec![1, 2, 3, 4, 5, 6, 7, 8, 9, 10, 11, 12]);
    assert_eq!(read_le(&out, 0, 4), 0x0403_0201);
    assert_eq!(read_le(&out, 4, 8), 0x0c0b_0a09_0807_0605);
    assert_eq!(read_le(&out, 2, 0), 0);
    assert!(bytes_eq(&out, &copy_bytes(&out)));
    assert!(!bytes_eq(&out, &out[1..]));
}

#[test]
fn scalar_arithmetic_is_modular() {
    let two = Scalar::from_u64(2);
    let three = Scalar::from_u64(3);
    assert!(two.add(&three).equals(&Scalar::from_u64(5)));
    assert!(two.mul(&three).equals(&Scalar::from_u64(6)));
    assert!(three.sub(&two).equals(&Scalar::one()));
    let minus_one = Scalar::zero().sub(&Scalar::one());
    assert_eq!(minus_one.to_bytes(), ORDER_MINUS_ONE);
    assert!(minus_one.add(&Scalar::one()).is_zero());
    assert!(minus_one.mul(&minus_one).equals(&Scalar::one()));
    let mut five = [0u8; 32];
    five[0] = 5;
    assert_eq!(Scalar::from_u64(5).to_bytes(), five);
}

#[test]
fn scalar_inverse_multiplies_to_one() {
    let x = Scalar::from_u64(0xdead_beef);
    let inv = x.invert();
    assert!(!inv.equals(&x));
    assert!(inv.mul(&x).equals(&Scalar::one()));
    let r = Scalar::random();
    if !r.is_zero() {
        assert!(r.invert().mul(&r).equals(&Scalar::one()));
    }
}

#[test]
fn scalar_decoding_accepts_canonical_bytes_only() {
    assert!(Scalar::from_bytes(&ORDER_MINUS_ONE).is_some());
    let mut order = ORDER_MINUS_ONE;
    order[0] += 1;
    assert!(Scalar::from_bytes(&order).is_none());
    assert!(Scalar::from_bytes(&[0xff; 32]).is_none());
    assert!(Scalar::from_bytes(&[0u8; 31]).is_none());
    assert!(Scalar::from_bytes(&[0u8; 33]).is_none());
    let s = Scalar::from_bytes(&ORDER_MINUS_ONE).unwrap();
    assert_eq!(s.to_bytes(), ORDER_MINUS_ONE);
}

#[test]
fn random_scalars_differ() {
    assert!(!Scalar::random().equals(&Scalar::random()));
    assert_ne!(Scalar::random(), Scalar::random());
}

#[test]
fn scalars_and_points_compare_by_value() {
    assert_eq!(Scalar::from_u64(7), Scalar::from_u64(3).add(&Scalar::from_u64(4)));
    assert_ne!(Scalar::from_u64(7), Scalar::from_u64(8));
    assert_eq!(Point::generator(), Point::mul_base(&Scalar::one()));
    assert_ne!(Point::generator(), Point::mul_base(&Scalar::from_u64(2)));
    let poly = PriPoly::new(2, None);
    assert_eq!(poly.eval(3), poly.eval(3));
    assert_ne!(poly.eval(3), poly.eval(4));
    let commit = poly.commit(&Point::generator());
    assert_eq!(commit.eval(3), commit.eval(3));
    assert_ne!(commit.eval(3), commit.eval(4));
}

#[test]
fn base_point_has_its_standard_encoding() {
    assert_eq!(Point::generator().to_bytes(), BASE_POINT);
    assert_eq!(Point::mul_base(&Scalar::one()).to_bytes(), BASE_POINT);
    assert_eq!(Point::mul_base(&Scalar::zero()).to_bytes(), [0u8; 32]);
}

#[test]
fn point_operations_follow_the_indices() {
    let g = Point::generator();
    let two_g = Point::mul_base(&Scalar::from_u64(2));
    assert!(g.add_point(&g).equals(&two_g));
    assert!(!two_g.equals(&g));
    assert!(g.scalar_mul(&Scalar::from_u64(2)).equals(&two_g));
    let a = Scalar::random();
    let b = Scalar::random();
    let left = Point::mul_base(&a).add_point(&Point::mul_base(&b));
    assert!(left.equals(&Point::mul_base(&a.add(&b))));
    let nested = Point::mul_base(&a).scalar_mul(&b);
    assert!(nested.equals(&Point::mul_base(&a.mul(&b))));
}

#[test]
fn point_decoding_accepts_encodings_only() {
    assert!(Point::from_bytes(&BASE_POINT).is_some());
    assert_eq!(Point::from_bytes(&BASE_POINT).unwrap().to_bytes(), BASE_POINT);
    assert!(Point::from_bytes(&[0xff; 32]).is_none());
    assert!(Point::from_bytes(&BASE_POINT[..31]).is_none());
    let mut odd = [0u8; 32];
    odd[0] = 1;
    assert!(Point::from_bytes(&odd).is_none());
}

#[test]
fn diffie_hellman_is_symmetric() {
    let a = Scalar::random();
    let b = Scalar::random();
    let left = dh_exchange(&a, &Point::mul_base(&b));
    let right = dh_exchange(&b, &Point::mul_base(&a));
    assert!(left.equals(&right));
}

#[test]
fn context_lists_the_participants() {
    let (_, publics) = keys(3);
    let dealer = Point::mul_base(&Scalar::random());
    let mut expected = b"vss-dealer".to_vec();
    expected.extend_from_slice(&dealer.to_bytes());
    expected.extend_from_slice(b"vss-verifiers");
    for p in &publics {
        expected.extend_from_slice(&p.to_bytes());
    }
    assert_eq!(context(&dealer, &publics), expected);
}

#[test]
fn sealing_is_hkdf_then_aes_gcm() {
    let shared = Point::mul_base(&Scalar::random());
    let info = b"some context".to_vec();
    let nonce = [0u8; 12];
    let message = b"the deal".to_vec();
    let cipher = seal(&shared, &info, &nonce, &message).unwrap();
    assert_eq!(cipher.len(), message.len() + 16);
    assert_ne!(&cipher[..message.len()], &message[..]);

    let mut key = [0u8; 32];
    hkdf::Hkdf::<sha2::Sha256>::new(None, &shared.to_bytes()).expand(&info, &mut key).unwrap();
    let gcm = <aes_gcm::Aes256Gcm as aes_gcm::KeyInit>::new((&key).into());
    let direct = aes_gcm::aead::Aead::encrypt(
        &gcm,
        (&nonce).into(),
        aes_gcm::aead::Payload { msg: &message, aad: &info },
    )
    .unwrap();
    assert_eq!(cipher, direct);
}

#[test]
fn opening_returns_the_message_or_nothing() {
    let shared = Point::mul_base(&Scalar::random());
    let info = b"some context".to_vec();
    let nonce = [0u8; 12];
    let message = b"the deal".to_vec();
    let cipher = seal(&shared, &info, &nonce, &message).unwrap();
    assert_eq!(open(&shared, &info, &nonce, &cipher), Some(message.clone()));

    let mut tampered = cipher.clone();
    tampered[0] ^= 1;
    assert_eq!(open(&shared, &info, &nonce, &tampered), None);
    assert_eq!(open(&shared, b"other context", &nonce, &cipher), None);
    let other = Point::mul_base(&Scalar::random());
    assert_eq!(open(&other, &info, &nonce, &cipher), None);
    assert_eq!(open(&shared, &info, &[0u8; 11], &cipher), None);
    assert_eq!(open(&shared, &info, &[0u8; 13], &cipher), None);
    let mut other_nonce = [0u8; 12];
    other_nonce[11] = 1;
    assert_eq!(open(&shared, &info, &other_nonce, &cipher), None);
}

#[test]
fn signatures_verify_under_the_signer_only() {
    let secret = Scalar::random();
    let public = Point::mul_base(&secret);
    let message = b"a message".to_vec();
    let context = 7u32.to_le_bytes();
    let signature = sign_msg(&secret, &public, &message, &context);
    assert_eq!(signature.len(), 64);
    assert!(verify_signature(&public.to_bytes(), &signature, &message, &context));
    assert!(!verify_signature(&public.to_bytes(), &signature, b"another", &context));
    assert!(!verify_signature(&public.to_bytes(), &signature, &message, &8u32.to_le_bytes()));
    let other = Point::mul_base(&Scalar::random());
    assert!(!verify_signature(&other.to_bytes(), &signature, &message, &context));
    let mut forged = signature.clone();
    forged[5] ^= 0x40;
    assert!(!verify_signature(&public.to_bytes(), &forged, &message, &context));
    assert!(!verify_signature(&public.to_bytes(), &signature[..63], &message, &context));
    assert!(!verify_signature(&[0xff; 32], &signature, &message, &context));
    assert!(!verify_signature(&public.to_bytes(), &[], &message, &context));
}

#[test]
fn signatures_are_randomised() {
    let secret = Scalar::random();
    let public = Point::mul_base(&secret);
    let a = sign_msg(&secret, &public, b"m", b"c");
    let b = sign_msg(&secret, &public, b"m", b"c");
    assert_ne!(a, b);
}

#[test]
fn threshold_rule() {
    let (_, publics) = keys(4);
    assert!(!valid_t(0, &publics));
    assert!(!valid_t(1, &publics));
    assert!(valid_t(2, &publics));
    assert!(valid_t(4, &publics));
    assert!(!valid_t(5, &publics));
    assert!(!valid_t(2, &publics[..1]));
    assert!(!valid_t(2, &[]));
}

#[test]
fn minimum_threshold_is_half_rounded_up() {
    assert_eq!(minimum_t(0), 0);
    assert_eq!(minimum_t(1), 1);
    assert_eq!(minimum_t(2), 1);
    assert_eq!(minimum_t(5), 3);
    assert_eq!(minimum_t(6), 3);
    assert_eq!(minimum_t(7), 4);
    assert_eq!(minimum_t(u32::MAX), 0x8000_0000);
}

#[test]
fn session_id_is_sha256_of_the_binding_context() {
    let (_, publics) = keys(3);
    let dealer = Point::mul_base(&Scalar::random());
    let commitments = vec![vec![1u8; 32], vec![2u8; 32]];
    let mut hasher = sha2::Sha256::new();
    hasher.update(dealer.to_bytes());
    for p in &publics {
        hasher.update(p.to_bytes());
    }
    for c in &commitments {
        hasher.update(c);
    }
    hasher.update(2u32.to_le_bytes());
    let expected: [u8; 32] = hasher.finalize().into();
    assert_eq!(session_id(&dealer, &publics, &commitments, 2), expected);
}

#[test]
fn session_id_changes_with_every_input() {
    let (_, publics) = keys(3);
    let dealer = Point::mul_base(&Scalar::random());
    let commitments = vec![vec![1u8; 32], vec![2u8; 32]];
    let base = session_id(&dealer, &publics, &commitments, 2);
    assert_eq!(base, session_id(&dealer, &publics, &commitments, 2));

    let other_dealer = Point::mul_base(&Scalar::random());
    assert_ne!(base, session_id(&other_dealer, &publics, &commitments, 2));

    let mut other_publics = publics.clone();
    other_publics[1] = Point::mul_base(&Scalar::random());
    assert_ne!(base, session_id(&dealer, &other_publics, &commitments, 2));
    let mut swapped = publics.clone();
    swapped.swap(0, 2);
    assert_ne!(base, session_id(&dealer, &swapped, &commitments, 2));

    let mut other_commitments = commitments.clone();
    other_commitments[0][3] ^= 1;
    assert_ne!(base, session_id(&dealer, &publics, &other_commitments, 2));

    assert_ne!(base, session_id(&dealer, &publics, &commitments, 3));
}

#[test]
fn second_generator_depends_on_the_verifiers_alone() {
    let (_, publics) = keys(4);
    let h = derive_h(&publics).unwrap();
    let again = derive_h(&publics).unwrap();
    assert!(h.equals(&again));
    assert!(Point::from_bytes(&h.to_bytes()).is_some());
    assert!(!h.equals(&Point::generator()));
    for p in &publics {
        assert!(!h.equals(p));
    }
    let (_, others) = keys(4);
    assert!(!derive_h(&others).unwrap().equals(&h));
    let mut reordered = publics.clone();
    reordered.swap(0, 1);
    assert!(!derive_h(&reordered).unwrap().equals(&h));
    assert!(derive_h(&[]).is_ok());
}

#[test]
fn second_generator_is_the_first_point_of_the_stream() {
    let (_, publics) = keys(2);
    let mut seed = Vec::new();
    for p in &publics {
        seed.extend_from_slice(&p.to_bytes());
    }
    let root = blake2b_simd::Params::new()
        .hash_length(64)
        .node_offset(0xffff_ffff_0000_0000)
        .hash(&seed);
    let mut expected = None;
    let mut block: u64 = 0;
    while expected.is_none() {
        let out = blake2b_simd::Params::new()
            .hash_length(64)
            .fanout(0)
            .max_depth(0)
            .max_leaf_length(64)
            .node_offset(0xffff_ffff_0000_0000 + block)
            .inner_hash_length(64)
            .hash(root.as_bytes());
        for chunk in out.as_bytes().chunks(32) {
            if expected.is_none() {
                expected = Point::from_bytes(chunk);
            }
        }
        block += 1;
    }
    assert!(derive_h(&publics).unwrap().equals(&expected.unwrap()));
}

#[test]
fn private_polynomial_keeps_its_constant() {
    let secret = Scalar::from_u64(42);
    let poly = PriPoly::new(3, Some(secret));
    assert_eq!(poly.threshold(), 3);
    let free = PriPoly::new(4, None);
    assert_eq!(free.threshold(), 4);
    assert_eq!(PriPoly::new(0, Some(secret)).threshold(), 0);
    assert!(PriPoly::new(0, None).eval(3).v.is_zero());
    // a polynomial of one coefficient is constant
    let constant = PriPoly::new(1, Some(secret));
    assert!(constant.eval(0).v.equals(&secret));
    assert!(constant.eval(9).v.equals(&secret));
    assert_eq!(constant.eval(9).i, 9);
}

#[test]
fn shares_recover_the_constant_term() {
    let secret = Scalar::random();
    let poly = PriPoly::new(3, Some(secret));
    let shares: Vec<PriShare> = (0..5).map(|i| poly.eval(i)).collect();
    assert!(recover_secret(&shares, 3).unwrap().equals(&secret));
    let picked = [shares[4], shares[1], shares[2]];
    assert!(recover_secret(&picked, 3).unwrap().equals(&secret));
    // fewer shares than the degree needs give another value
    assert!(!recover_secret(&shares, 2).unwrap().equals(&secret));
    assert!(recover_secret(&shares, 0).unwrap().is_zero());
}

#[test]
fn interpolation_of_a_known_line() {
    // f(x) = 7 + 3x: the shares of index 0 and 1 are f(1) = 10 and f(2) = 13
    let shares =
        [PriShare { i: 0, v: Scalar::from_u64(10) }, PriShare { i: 1, v: Scalar::from_u64(13) }];
    assert!(recover_secret(&shares, 2).unwrap().equals(&Scalar::from_u64(7)));
}

#[test]
fn recovery_refuses_too_few_or_repeated_shares() {
    let poly = PriPoly::new(3, None);
    let shares: Vec<PriShare> = (0..3).map(|i| poly.eval(i)).collect();
    assert_eq!(recover_secret(&shares[..2], 3).err(), Some(VssError::NotEnoughShares));
    assert_eq!(recover_secret(&[], 1).err(), Some(VssError::NotEnoughShares));
    let repeated = [shares[0], shares[1], shares[0]];
    assert_eq!(recover_secret(&repeated, 3).err(), Some(VssError::DegenerateShares));
}

#[test]
fn public_polynomial_commits_to_the_shares() {
    let poly = PriPoly::new(4, None);
    let g = Point::generator();
    let commit = poly.commit(&g);
    for i in [0u32, 1, 5, 1000] {
        let share = poly.eval(i);
        let public = commit.eval(i);
        assert_eq!(public.i, i);
        assert!(public.v.equals(&Point::mul_base(&share.v)));
    }
    let (base, coefficients) = commit.info();
    assert!(base.equals(&g));
    assert_eq!(coefficients.len(), 4);
}

#[test]
fn public_polynomials_add_coefficient_by_coefficient() {
    let f = PriPoly::new(3, None);
    let g = PriPoly::new(3, None);
    let base = Point::generator();
    let sum = f.commit(&base).add(&g.commit(&base)).unwrap();
    let expected = Point::mul_base(&f.eval(2).v.add(&g.eval(2).v));
    assert!(sum.eval(2).v.equals(&expected));
    assert!(f.commit(&base).add(&PriPoly::new(2, None).commit(&base)).is_none());
    let rebuilt = PubPoly::new(base, sum.info().1.clone());
    assert!(rebuilt.eval(7).v.equals(&sum.eval(7).v));
}
