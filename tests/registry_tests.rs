use zkp_chaum_pedersen::bignum::BigNum;
use zkp_chaum_pedersen::registry::{PendingChallenge, SessionRegistry};

fn n(v: u64) -> BigNum {
    BigNum::from_u64(v)
}

fn challenge(id: &str, user: &str, c: u64) -> PendingChallenge {
    PendingChallenge {
        auth_id: id.to_string(),
        user: user.to_string(),
        r1: n(1),
        r2: n(2),
        y1: n(3),
        y2: n(4),
        c: n(c),
    }
}

#[test]
fn users_replace_and_lookup() {
    let mut reg = SessionRegistry::new();
    assert!(reg.lookup(&"ann".to_string()).is_none());
    reg.register("ann".to_string(), n(5), n(6));
    reg.register("ben".to_string(), n(7), n(8));
    assert_eq!(reg.lookup(&"ann".to_string()), Some((n(5), n(6))));
    reg.register("ann".to_string(), n(9), n(10));
    assert_eq!(reg.lookup(&"ann".to_string()), Some((n(9), n(10))));
    assert_eq!(reg.lookup(&"ben".to_string()), Some((n(7), n(8))));
}

#[test]
fn challenges_taken_once() {
    let mut reg = SessionRegistry::new();
    reg.insert_challenge(challenge("a", "ann", 1));
    reg.insert_challenge(challenge("b", "ann", 2));
    assert!(reg.has_challenge(&"a".to_string()));
    let taken = reg.take_challenge(&"a".to_string()).unwrap();
    assert_eq!(taken.c, n(1));
    assert_eq!(taken.user, "ann");
    assert!(!reg.has_challenge(&"a".to_string()));
    assert!(reg.take_challenge(&"a".to_string()).is_none());
    assert_eq!(reg.take_challenge(&"b".to_string()).unwrap().c, n(2));
}
