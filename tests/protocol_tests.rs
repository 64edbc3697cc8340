use zkp_chaum_pedersen::bignum::BigNum;
use zkp_chaum_pedersen::constants::{MODULUS_HEX, ORDER_HEX};
use zkp_chaum_pedersen::error::ProtocolError;
use zkp_chaum_pedersen::service::{AuthService, AUTH_ID_LEN, SESSION_ID_LEN};
use zkp_chaum_pedersen::zkp::ZKP;

fn n(v: u64) -> BigNum {
    BigNum::from_u64(v)
}

fn toy() -> ZKP {
    ZKP { p: n(23), q: n(11), alpha: n(4), beta: n(9) }
}

fn bytes(v: u64) -> Vec<u8> {
    n(v).to_bytes_be()
}

#[test]
fn toy_group_scenario() {
    let zkp = toy();
    let (y1, y2) = zkp.compute_pair(&n(6));
    let (r1, r2) = zkp.compute_pair(&n(3));
    let s = zkp.solve(&n(3), &n(2), &n(6));
    assert_eq!(y1, n(2));
    assert_eq!(y2, n(3));
    assert_eq!(r1, n(18));
    assert_eq!(r2, n(16));
    assert_eq!(s, n(2));
    assert!(zkp.verify(&r1, &r2, &y1, &y2, &n(2), &s));
    assert!(!zkp.verify(&r1, &r2, &y1, &y2, &n(2), &n(3)));
    assert!(!zkp.verify(&r2, &r1, &y1, &y2, &n(2), &s));
}

#[test]
fn response_in_both_branches() {
    let zkp = toy();
    // k >= c·x
    assert_eq!(zkp.solve(&n(10), &n(1), &n(3)), n(7));
    assert_eq!(zkp.solve(&n(40), &n(2), &n(3)), n(1));
    // k < c·x
    assert_eq!(zkp.solve(&n(2), &n(9), &n(8)), n(7));
    assert_eq!(zkp.solve(&n(0), &n(1), &n(1)), n(10));
    // c·x - k a multiple of q: the residue is zero, not q
    assert_eq!(zkp.solve(&n(1), &n(1), &n(12)), n(0));
    assert_eq!(zkp.solve(&n(0), &n(0), &n(0)), n(0));
}

#[test]
fn wrong_secret_accepted_only_for_zero_challenge() {
    // alpha and beta have order 11, so a response for x' = 6 against the
    // commitment of x = 5 passes exactly when c = 0 (mod 11).
    let zkp = toy();
    let q = n(11);
    let (y1, y2) = zkp.compute_pair(&n(5));
    let mut accepted = 0;
    for _ in 0..200 {
        let k = ZKP::generate_random_number_below(&q);
        let c = ZKP::generate_random_number_below(&q);
        let (r1, r2) = zkp.compute_pair(&k);
        let s = zkp.solve(&k, &c, &n(6));
        let ok = zkp.verify(&r1, &r2, &y1, &y2, &c, &s);
        assert_eq!(ok, c == n(0));
        if ok {
            accepted += 1;
        }
    }
    assert!(accepted < 60);
}

fn toy_service_with(user: &str, secret: u64) -> AuthService {
    let zkp = toy();
    let mut service = AuthService::new(zkp.clone()).unwrap();
    let (y1, y2) = zkp.compute_pair(&n(secret));
    service.register(user.to_string(), &y1.to_bytes_be(), &y2.to_bytes_be()).unwrap();
    service
}

#[test]
fn challenge_answered_once() {
    let zkp = toy();
    let mut service = toy_service_with("alice", 6);
    let k = n(3);
    let (r1, r2) = zkp.compute_pair(&k);
    let (auth_id, c) = service.begin_challenge(&"alice".to_string(), &r1.to_bytes_be(), &r2.to_bytes_be()).unwrap();
    assert_eq!(auth_id.len(), AUTH_ID_LEN);
    assert!(auth_id.chars().all(|ch| ch.is_ascii_alphanumeric()));
    let c = BigNum::from_bytes_be(&c);
    assert!(c.is_less_than(&n(11)));
    let s = zkp.solve(&k, &c, &n(6));
    let session = service.finish_challenge(&auth_id, &s.to_bytes_be()).unwrap();
    assert_eq!(session.len(), SESSION_ID_LEN);
    assert!(session.chars().all(|ch| ch.is_ascii_alphanumeric()));
    assert_eq!(
        service.finish_challenge(&auth_id, &s.to_bytes_be()),
        Err(ProtocolError::ChallengeNotFound)
    );
}

#[test]
fn refused_answer_consumes_challenge() {
    let mut service = toy_service_with("alice", 6);
    let id = "fixed-id".to_string();
    service.issue_challenge(&"alice".to_string(), &bytes(18), &bytes(16), id.clone(), n(2)).unwrap();
    assert_eq!(service.finish_challenge(&id, &bytes(3)), Err(ProtocolError::BadSolution));
    assert_eq!(service.finish_challenge(&id, &bytes(2)), Err(ProtocolError::ChallengeNotFound));
}

#[test]
fn fixed_challenge_accepted() {
    let mut service = toy_service_with("alice", 6);
    let id = "fixed-id".to_string();
    service.issue_challenge(&"alice".to_string(), &bytes(18), &bytes(16), id.clone(), n(2)).unwrap();
    let session = service.finish_challenge(&id, &bytes(2)).unwrap();
    assert_eq!(session.len(), SESSION_ID_LEN);
    assert!(session.chars().all(|ch| ch.is_ascii_alphanumeric()));
}

#[test]
fn unknown_user_and_unknown_challenge() {
    let mut service = toy_service_with("alice", 6);
    assert_eq!(
        service.begin_challenge(&"bob".to_string(), &bytes(1), &bytes(1)),
        Err(ProtocolError::UserNotFound)
    );
    assert_eq!(
        service.issue_challenge(&"bob".to_string(), &bytes(1), &bytes(1), "id".to_string(), n(1)),
        Err(ProtocolError::UserNotFound)
    );
    assert_eq!(service.finish_challenge(&"nothing".to_string(), &bytes(1)), Err(ProtocolError::ChallengeNotFound));
}

#[test]
fn auth_id_in_use_refused() {
    let mut service = toy_service_with("alice", 6);
    let id = "same".to_string();
    assert_eq!(service.issue_challenge(&"alice".to_string(), &bytes(1), &bytes(1), id.clone(), n(1)), Ok(()));
    assert_eq!(
        service.issue_challenge(&"alice".to_string(), &bytes(1), &bytes(1), id.clone(), n(2)),
        Err(ProtocolError::AuthIdUnavailable)
    );
}

#[test]
fn wrong_secret_rejected_end_to_end() {
    let zkp = ZKP::standard();
    let mut service = AuthService::new(zkp.clone()).unwrap();
    let (y1, y2) = zkp.compute_pair(&n(5));
    service.register("carol".to_string(), &y1.to_bytes_be(), &y2.to_bytes_be()).unwrap();
    let k = ZKP::generate_random_number_below(&zkp.q);
    let (r1, r2) = zkp.compute_pair(&k);
    let (auth_id, c) = service.begin_challenge(&"carol".to_string(), &r1.to_bytes_be(), &r2.to_bytes_be()).unwrap();
    let s = zkp.solve(&k, &BigNum::from_bytes_be(&c), &n(6));
    assert_eq!(service.finish_challenge(&auth_id, &s.to_bytes_be()), Err(ProtocolError::BadSolution));
}

#[test]
fn wrong_secret_rejected_on_toy_group() {
    let zkp = toy();
    let mut service = toy_service_with("dave", 5);
    let k = n(4);
    let (r1, r2) = zkp.compute_pair(&k);
    let id = "attempt".to_string();
    service.issue_challenge(&"dave".to_string(), &r1.to_bytes_be(), &r2.to_bytes_be(), id.clone(), n(3)).unwrap();
    let s = zkp.solve(&k, &n(3), &n(6));
    assert_eq!(service.finish_challenge(&id, &s.to_bytes_be()), Err(ProtocolError::BadSolution));
}

#[test]
fn reregistration_replaces_commitment() {
    let zkp = toy();
    let mut service = toy_service_with("erin", 5);
    let (y1, y2) = zkp.compute_pair(&n(7));
    service.register("erin".to_string(), &y1.to_bytes_be(), &y2.to_bytes_be()).unwrap();
    let k = n(2);
    let (r1, r2) = zkp.compute_pair(&k);
    let id = "after".to_string();
    service.issue_challenge(&"erin".to_string(), &r1.to_bytes_be(), &r2.to_bytes_be(), id.clone(), n(4)).unwrap();
    let s = zkp.solve(&k, &n(4), &n(7));
    assert!(service.finish_challenge(&id, &s.to_bytes_be()).is_ok());
}

#[test]
fn register_rejects_out_of_range() {
    let mut service = toy_service_with("alice", 6);
    assert_eq!(service.register("frank".to_string(), &bytes(23), &bytes(1)), Err(ProtocolError::InvalidInput));
    assert_eq!(service.register("frank".to_string(), &bytes(1), &[1, 0]), Err(ProtocolError::InvalidInput));
    assert_eq!(
        service.begin_challenge(&"frank".to_string(), &bytes(1), &bytes(1)),
        Err(ProtocolError::UserNotFound)
    );
    assert_eq!(service.register("frank".to_string(), &bytes(22), &[0, 0, 22]), Ok(()));
}

#[test]
fn encoding_round_trip() {
    let zkp = ZKP::standard();
    for _ in 0..100 {
        let v = ZKP::generate_random_number_below(&zkp.p);
        assert_eq!(BigNum::from_bytes_be(&v.to_bytes_be()), v);
    }
    assert_eq!(n(0).to_bytes_be(), vec![0]);
    assert_eq!(n(258).to_bytes_be(), vec![1, 2]);
    assert_eq!(BigNum::from_bytes_be(&[0, 0, 1, 2]).to_bytes_be(), vec![1, 2]);
    assert_eq!(BigNum::from_bytes_be(&[]), n(0));
    assert_eq!(n(u64::MAX).to_bytes_be(), vec![255; 8]);
}

#[test]
fn standard_group_constants() {
    let (alpha, beta, p, q) = ZKP::get_constants();
    let pb = p.to_bytes_be();
    assert_eq!(pb.len(), 128);
    assert_eq!(&pb[..4], &[0xB1, 0x0B, 0x8F, 0x96]);
    assert_eq!(pb[127], 0x71);
    assert_eq!(MODULUS_HEX.len(), 256);
    let qb = q.to_bytes_be();
    assert_eq!(qb.len(), 20);
    assert_eq!(&qb[..2], &[0xF5, 0x18]);
    assert_eq!(ORDER_HEX.len(), 40);
    assert_eq!(alpha.to_bytes_be()[0], 0xA4);
    assert_ne!(beta, alpha);
    let zkp = ZKP { alpha, beta, p, q: q.clone() };
    assert_eq!(zkp.validate(), Ok(()));
    // both generators have order q
    assert_eq!(zkp.compute_pair(&q), (n(1), n(1)));
    assert_eq!(zkp.compute_pair(&n(0)), (n(1), n(1)));
    // beta = alpha^w mod p
    let w = BigNum::from_bytes_be(&[0x26, 0x6F, 0xEA, 0x1E, 0x5C, 0x41, 0x56, 0x4B, 0x77, 0x7E, 0x69]);
    let standard = ZKP::standard();
    assert_eq!(standard.compute_pair(&w).0, standard.beta);
}

#[test]
fn invalid_parameters_refused() {
    let bad = [
        ZKP { p: n(23), q: n(11), alpha: n(1), beta: n(9) },
        ZKP { p: n(23), q: n(11), alpha: n(4), beta: n(23) },
        ZKP { p: n(23), q: n(7), alpha: n(4), beta: n(9) },
        ZKP { p: n(23), q: n(0), alpha: n(4), beta: n(9) },
        ZKP { p: n(0), q: n(11), alpha: n(4), beta: n(9) },
    ];
    for z in bad.iter() {
        assert_eq!(z.validate(), Err(ProtocolError::InvalidParameters));
        assert!(matches!(AuthService::new(z.clone()), Err(ProtocolError::InvalidParameters)));
    }
    assert_eq!(toy().validate(), Ok(()));
    assert_eq!(ProtocolError::InvalidParameters.message(), "invalid group parameters");
}

#[test]
fn random_values_in_range() {
    for _ in 0..50 {
        assert!(ZKP::generate_random_number_below(&n(3)).is_less_than(&n(3)));
    }
    assert_eq!(ZKP::generate_random_number_below(&n(1)), n(0));
    let s = ZKP::generate_random_string(40);
    assert_eq!(s.chars().count(), 40);
    assert!(s.chars().all(|ch| ch.is_ascii_alphanumeric()));
    assert_eq!(ZKP::generate_random_string(0), "");
}
