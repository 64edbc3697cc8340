//! Arbitrary-precision natural numbers, held as big-endian bytes and computed
//! on by `num_bigint`.

use num_bigint::BigUint;
use num_bigint::RandBigInt;
use vstd::arithmetic::div_mod::lemma_fundamental_div_mod;
use vstd::arithmetic::power::pow;
use vstd::prelude::*;

verus! {

/// The number that big-endian bytes `b` denote (the empty string denotes zero).
pub open spec fn be_value(b: Seq<u8>) -> nat
    decreases b.len(),
{
    if b.len() == 0 {
        0
    } else {
        be_value(b.drop_last()) * 256 + b.last() as nat
    }
}

/// The minimal big-endian encoding of `n`: no leading zero byte, and zero as
/// the single byte 0.
pub open spec fn be_encoding(n: nat) -> Seq<u8>
    decreases n,
{
    if n < 256 {
        seq![n as u8]
    } else {
        be_encoding(n / 256).push((n % 256) as u8)
    }
}

/// Decoding the minimal encoding of a number gives the number back.
pub proof fn lemma_encoding_round_trip(n: nat)
    ensures
        be_value(be_encoding(n)) == n,
    decreases n,
{
    let e = be_encoding(n);
    if n >= 256 {
        lemma_encoding_round_trip(n / 256);
        assert(e.drop_last() =~= be_encoding(n / 256));
        assert(e.last() as nat == n % 256);
        lemma_fundamental_div_mod(n as int, 256);
        assert(be_value(e) == (n / 256) * 256 + n % 256) by (nonlinear_arith)
            requires
                be_value(e) == be_value(e.drop_last()) * 256 + e.last() as nat,
                be_value(e.drop_last()) == n / 256,
                e.last() as nat == n % 256,
        ;
        assert((n / 256) * 256 + n % 256 == n) by (nonlinear_arith);
    } else {
        assert(e.drop_last() =~= Seq::<u8>::empty());
        assert(e.last() as nat == n);
        assert(be_value(e.drop_last()) == 0);
    }
}

/// A natural number of any size.
#[derive(Clone, Debug, PartialEq, Eq)]
pub struct BigNum {
    digits: Vec<u8>,
}

impl View for BigNum {
    type V = nat;

    closed spec fn view(&self) -> nat {
        be_value(self.digits@)
    }
}

/// Relies on `BigUint::from_bytes_be` and `BigUint::to_bytes_be`: bytes read
/// as a big-endian number come back in minimal big-endian form.
#[verifier::external_body]
fn minimal_bytes(bytes: &[u8]) -> (r: Vec<u8>)
    ensures
        r@ == be_encoding(be_value(bytes@)),
{
    BigUint::from_bytes_be(bytes).to_bytes_be()
}

/// Relies on `BigUint::from(u64)` and `BigUint::to_bytes_be`: the minimal
/// big-endian form of `v`.
#[verifier::external_body]
fn u64_bytes(v: u64) -> (r: Vec<u8>)
    ensures
        r@ == be_encoding(v as nat),
{
    BigUint::from(v).to_bytes_be()
}

/// Relies on `BigUint::modpow`: `(base ^ exponent) % modulus`. It panics on a
/// zero modulus, and for a zero exponent it returns an unreduced one, so the
/// modulus is kept above one.
#[verifier::external_body]
pub(crate) fn mod_pow(base: &BigNum, exponent: &BigNum, modulus: &BigNum) -> (r: BigNum)
    requires
        modulus@ > 1,
    ensures
        r@ == pow(base@ as int, exponent@) % (modulus@ as int),
{
    let b = BigUint::from_bytes_be(&base.digits);
    let e = BigUint::from_bytes_be(&exponent.digits);
    let m = BigUint::from_bytes_be(&modulus.digits);
    BigNum { digits: b.modpow(&e, &m).to_bytes_be() }
}

/// Relies on `Mul for &BigUint`: the exact product.
#[verifier::external_body]
pub(crate) fn product(a: &BigNum, b: &BigNum) -> (r: BigNum)
    ensures
        r@ == a@ * b@,
{
    let x = BigUint::from_bytes_be(&a.digits);
    let y = BigUint::from_bytes_be(&b.digits);
    BigNum { digits: (&x * &y).to_bytes_be() }
}

/// Relies on `Sub for &BigUint`: the exact difference; it panics when the
/// result would be negative.
#[verifier::external_body]
pub(crate) fn difference(a: &BigNum, b: &BigNum) -> (r: BigNum)
    requires
        b@ <= a@,
    ensures
        r@ == a@ - b@,
{
    let x = BigUint::from_bytes_be(&a.digits);
    let y = BigUint::from_bytes_be(&b.digits);
    BigNum { digits: (&x - &y).to_bytes_be() }
}

/// Relies on `Rem for &BigUint`: the remainder of `a` by `m`; it panics on a
/// zero divisor.
#[verifier::external_body]
pub(crate) fn remainder(a: &BigNum, m: &BigNum) -> (r: BigNum)
    requires
        m@ > 0,
    ensures
        r@ == a@ % m@,
{
    let x = BigUint::from_bytes_be(&a.digits);
    let y = BigUint::from_bytes_be(&m.digits);
    BigNum { digits: (&x % &y).to_bytes_be() }
}

/// Relies on `PartialOrd for BigUint`: numeric `<=`.
#[verifier::external_body]
pub(crate) fn at_most(a: &BigNum, b: &BigNum) -> (r: bool)
    ensures
        r == (a@ <= b@),
{
    BigUint::from_bytes_be(&a.digits) <= BigUint::from_bytes_be(&b.digits)
}

/// Relies on `PartialEq for BigUint`: numeric equality.
#[verifier::external_body]
pub(crate) fn same_value(a: &BigNum, b: &BigNum) -> (r: bool)
    ensures
        r == (a@ == b@),
{
    BigUint::from_bytes_be(&a.digits) == BigUint::from_bytes_be(&b.digits)
}

/// Relies on `RandBigInt::gen_biguint_below` over `rand::thread_rng`: some
/// value below the bound; it panics on a zero bound.
#[verifier::external_body]
pub(crate) fn random_below(bound: &BigNum) -> (r: BigNum)
    requires
        bound@ > 0,
    ensures
        r@ < bound@,
{
    let b = BigUint::from_bytes_be(&bound.digits);
    BigNum { digits: rand::thread_rng().gen_biguint_below(&b).to_bytes_be() }
}

impl BigNum {
    /// The number `v`.
    pub fn from_u64(v: u64) -> (r: BigNum)
        ensures
            r@ == v as nat,
    {
        let digits = u64_bytes(v);
        proof {
            lemma_encoding_round_trip(v as nat);
        }
        BigNum { digits }
    }

    /// Decodes big-endian bytes; any byte string is a number, leading zeros
    /// included.
    pub fn from_bytes_be(bytes: &[u8]) -> (r: BigNum)
        ensures
            r@ == be_value(bytes@),
    {
        let digits = minimal_bytes(bytes);
        proof {
            lemma_encoding_round_trip(be_value(bytes@));
        }
        BigNum { digits }
    }

    /// The minimal big-endian encoding of this number.
    pub fn to_bytes_be(&self) -> (r: Vec<u8>)
        ensures
            r@ == be_encoding(self@),
    {
        minimal_bytes(self.digits.as_slice())
    }

    /// A second value equal to this one.
    pub fn copied(&self) -> (r: BigNum)
        ensures
            r@ == self@,
    {
        BigNum { digits: self.digits.clone() }
    }

    /// Whether this number is below `other`.
    pub fn is_less_than(&self, other: &BigNum) -> (r: bool)
        ensures
            r == (self@ < other@),
    {
        !at_most(other, self)
    }
}

} // verus!
