// Small, hand-checkable parameters.
use zkp_chaum_pedersen::bignum::BigNum;
use zkp_chaum_pedersen::zkp::ZKP;

fn n(v: u64) -> BigNum {
    BigNum::from_u64(v)
}

#[test]
fn test_different_toy_parameters() {
    // 2 and 4 = 2^2 modulo the prime 11; 5 divides p - 1 = 10.
    let alpha = n(2);
    let beta = n(4);
    let p = n(11);
    let q = n(5);

    let zkp = ZKP { p, q: q.clone(), alpha, beta };

    let x = n(2);
    let k = n(3);
    let c = n(1);

    let (y1, y2) = zkp.compute_pair(&x);
    let (r1, r2) = zkp.compute_pair(&k);
    let s = zkp.solve(&k, &c, &x);
    let result = zkp.verify(&r1, &r2, &y1, &y2, &c, &s);

    println!("y1 = {:?}, y2 = {:?}", y1, y2);
    println!("r1 = {:?}, r2 = {:?}", r1, r2);
    println!("s = {:?}, verification: {}", s, result);

    assert!(result);
}
