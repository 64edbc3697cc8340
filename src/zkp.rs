//! The group setting and the proof engine: commitments, responses and the
//! verifier's two equations.

use crate::bignum::{
    at_most, difference, mod_pow, product, random_below, remainder, same_value, BigNum,
};
use rand::Rng;
use vstd::arithmetic::div_mod::{
    lemma_add_mod_noop_right, lemma_fundamental_div_mod, lemma_mod_add_multiples_vanish,
    lemma_mod_multiples_basic, lemma_mod_multiples_vanish, lemma_mul_mod_noop,
    lemma_mul_mod_noop_left, lemma_mul_mod_noop_right, lemma_small_mod, lemma_sub_mod_noop,
};
use vstd::arithmetic::power::{
    lemma1_pow, lemma_pow_adds, lemma_pow_mod_noop, lemma_pow_multiplies, pow,
};
use vstd::prelude::*;

verus! {

/// `g^e mod p`: one half of a commitment.
pub open spec fn power_mod(g: nat, e: nat, p: nat) -> int {
    pow(g as int, e) % (p as int)
}

/// The response `(k - c·x) mod q`, as a residue in `[0, q)`.
pub open spec fn response_value(k: nat, c: nat, x: nat, q: nat) -> int {
    (k - c * x) % (q as int)
}

/// One verification equation: `r = g^s · y^c mod p`.
pub open spec fn equation_holds(r: nat, g: nat, y: nat, c: nat, s: nat, p: nat) -> bool {
    r == (pow(g as int, s) * pow(y as int, c)) % (p as int)
}

/// Whether `ch` is one of `A-Z`, `a-z`, `0-9`.
pub open spec fn is_alphanumeric(ch: char) -> bool {
    ('A' <= ch && ch <= 'Z') || ('a' <= ch && ch <= 'z') || ('0' <= ch && ch <= '9')
}

/// The public group setting: modulus `p`, subgroup order `q`, and the two
/// generators `alpha` and `beta`.
#[derive(Clone, Debug)]
pub struct ZKP {
    pub p: BigNum,
    pub q: BigNum,
    pub alpha: BigNum,
    pub beta: BigNum,
}

/// Relies on `rand::distributions::Alphanumeric` sampled from
/// `rand::thread_rng`: `size` characters, each from `A-Z`, `a-z`, `0-9`.
#[verifier::external_body]
fn random_alphanumeric(size: usize) -> (r: String)
    ensures
        r@.len() == size,
        forall|i: int| 0 <= i < r@.len() ==> is_alphanumeric(#[trigger] r@[i]),
{
    rand::thread_rng().sample_iter(rand::distributions::Alphanumeric).take(size).map(char::from).collect()
}

impl ZKP {
    /// The checks of a well-formed setting: `1 < alpha, beta < p` and `q`
    /// divides `p - 1`.
    pub open spec fn valid_parameters(&self) -> bool {
        &&& 1 < self.alpha@ < self.p@
        &&& 1 < self.beta@ < self.p@
        &&& self.q@ > 0
        &&& (self.p@ - 1) % (self.q@ as int) == 0
    }

    /// Both generators lie in the subgroup of order `q`: `alpha^q = beta^q = 1 (mod p)`.
    pub open spec fn generators_in_subgroup(&self) -> bool {
        &&& power_mod(self.alpha@, self.q@, self.p@) == 1
        &&& power_mod(self.beta@, self.q@, self.p@) == 1
    }

    /// Whether the verifier accepts response `s` to challenge `c`, for the
    /// round commitment `(r1, r2)` and the registered commitment `(y1, y2)`.
    pub open spec fn accepts(&self, r1: nat, r2: nat, y1: nat, y2: nat, c: nat, s: nat) -> bool {
        &&& equation_holds(r1, self.alpha@, y1, c, s, self.p@)
        &&& equation_holds(r2, self.beta@, y2, c, s, self.p@)
    }

    /// The commitment `(alpha^exp mod p, beta^exp mod p)`, used both for
    /// registration and for each proof round.
    pub fn compute_pair(&self, exp: &BigNum) -> (r: (BigNum, BigNum))
        requires
            self.p@ > 1,
        ensures
            r.0@ == power_mod(self.alpha@, exp@, self.p@),
            r.1@ == power_mod(self.beta@, exp@, self.p@),
    {
        let p1 = mod_pow(&self.alpha, exp, &self.p);
        let p2 = mod_pow(&self.beta, exp, &self.p);
        (p1, p2)
    }

    /// The response `s = (k - c·x) mod q` to challenge `c`, for nonce `k` and
    /// secret `x`, as a residue in `[0, q)` whichever of `k` and `c·x` is larger.
    pub fn solve(&self, k: &BigNum, c: &BigNum, x: &BigNum) -> (s: BigNum)
        requires
            self.q@ > 0,
        ensures
            s@ == response_value(k@, c@, x@, self.q@),
            s@ < self.q@,
    {
        let cx = product(c, x);
        if at_most(&cx, k) {
            let d = difference(k, &cx);
            remainder(&d, &self.q)
        } else {
            let d = difference(&cx, k);
            let m = remainder(&d, &self.q);
            let t = difference(&self.q, &m);
            let s = remainder(&t, &self.q);
            proof {
                let q = self.q@ as int;
                let dd = d@ as int;
                lemma_fundamental_div_mod(dd, q);
                let a = -(dd / q) - 1;
                assert(k@ - c@ * x@ == q * a + (q - m@)) by (nonlinear_arith)
                    requires
                        dd == c@ * x@ - k@,
                        dd == q * (dd / q) + m@,
                        a == -(dd / q) - 1,
                ;
                lemma_mod_multiples_vanish(a, q - m@, q);
            }
            s
        }
    }

    /// Whether both verification equations hold:
    /// `r1 = alpha^s · y1^c mod p` and `r2 = beta^s · y2^c mod p`.
    pub fn verify(
        &self,
        r1: &BigNum,
        r2: &BigNum,
        y1: &BigNum,
        y2: &BigNum,
        c: &BigNum,
        s: &BigNum,
    ) -> (r: bool)
        requires
            self.p@ > 1,
        ensures
            r == self.accepts(r1@, r2@, y1@, y2@, c@, s@),
    {
        let cond1 = self.equation(&self.alpha, r1, y1, c, s);
        let cond2 = self.equation(&self.beta, r2, y2, c, s);
        cond1 && cond2
    }

    /// Whether `r = g^s · y^c mod p`.
    fn equation(&self, g: &BigNum, r: &BigNum, y: &BigNum, c: &BigNum, s: &BigNum) -> (b: bool)
        requires
            self.p@ > 1,
        ensures
            b == equation_holds(r@, g@, y@, c@, s@, self.p@),
    {
        let gs = mod_pow(g, s, &self.p);
        let yc = mod_pow(y, c, &self.p);
        let t = product(&gs, &yc);
        let u = remainder(&t, &self.p);
        proof {
            lemma_mul_mod_noop(pow(g@ as int, s@), pow(y@ as int, c@), self.p@ as int);
        }
        same_value(r, &u)
    }

    /// A number drawn uniformly from `[0, bound)`: secrets, nonces and
    /// challenges.
    pub fn generate_random_number_below(bound: &BigNum) -> (r: BigNum)
        requires
            bound@ > 0,
        ensures
            r@ < bound@,
    {
        random_below(bound)
    }

    /// A random identifier of `size` characters from `A-Z`, `a-z`, `0-9`.
    pub fn generate_random_string(size: usize) -> (r: String)
        ensures
            r@.len() == size,
            forall|i: int| 0 <= i < r@.len() ==> is_alphanumeric(#[trigger] r@[i]),
    {
        random_alphanumeric(size)
    }
}

/// `g` has order exactly `q` modulo `p`: `g^q = 1` and no smaller positive
/// power of `g` is 1.
pub open spec fn has_order(g: nat, q: nat, p: nat) -> bool {
    &&& power_mod(g, q, p) == 1
    &&& forall|m: nat| 0 < m < q ==> #[trigger] power_mod(g, m, p) != 1
}

/// Where `g^q = 1 (mod p)`, exponents of `g` count modulo `q`.
proof fn lemma_pow_reduce(g: nat, p: nat, q: nat, n: nat)
    requires
        p > 1,
        q > 0,
        power_mod(g, q, p) == 1,
    ensures
        pow(g as int, n) % (p as int) == pow(g as int, n % q) % (p as int),
{
    let gi = g as int;
    let pi = p as int;
    let m = n / q;
    let r = n % q;
    lemma_fundamental_div_mod(n as int, q as int);
    assert(n == q * m + r);
    lemma_pow_adds(gi, q * m, r);
    lemma_pow_multiplies(gi, q, m);
    lemma_pow_mod_noop(pow(gi, q), m, pi);
    lemma1_pow(m);
    lemma_small_mod(1, p);
    assert(pow(gi, q * m) % pi == 1);
    lemma_mul_mod_noop_left(pow(gi, q * m), pow(gi, r), pi);
}

/// The right side of a verification equation for the commitment `y = g^x`
/// is `g^(s + x·c) mod p`.
proof fn lemma_equation_power(g: nat, p: nat, x: nat, c: nat, s: nat)
    requires
        p > 1,
    ensures
        (pow(g as int, s) * pow(power_mod(g, x, p), c)) % (p as int) == pow(g as int, s + x * c)
            % (p as int),
{
    let gi = g as int;
    let pi = p as int;
    let y = power_mod(g, x, p);
    let xc = x * c;
    lemma_pow_mod_noop(pow(gi, x), c, pi);
    lemma_pow_multiplies(gi, x, c);
    assert(pow(y, c) % pi == pow(gi, xc) % pi);
    lemma_mul_mod_noop_right(pow(gi, s), pow(y, c), pi);
    lemma_mul_mod_noop_right(pow(gi, s), pow(gi, xc), pi);
    lemma_pow_adds(gi, s, xc);
}

/// For one generator `g` with `g^q = 1 (mod p)`: the equation built from the
/// commitments of `x` and of a nonce `k < q` holds for the response computed
/// with a secret `x2` whenever `c·(x - x2) = 0 (mod q)`; in particular for
/// `x2 = x` and any challenge.
proof fn lemma_equation_complete(g: nat, p: nat, q: nat, x: nat, x2: nat, k: nat, c: nat)
    requires
        p > 1,
        q > 0,
        k < q,
        power_mod(g, q, p) == 1,
        (c * (x - x2)) % (q as int) == 0,
    ensures
        equation_holds(
            power_mod(g, k, p) as nat,
            g,
            power_mod(g, x, p) as nat,
            c,
            response_value(k, c, x2, q) as nat,
            p,
        ),
{
    let qi = q as int;
    let s = response_value(k, c, x2, q);
    let n = (s + x * c) as nat;
    let dd = c * (x - x2);
    lemma_equation_power(g, p, x, c, s as nat);
    lemma_pow_reduce(g, p, q, n);
    lemma_add_mod_noop_right((x * c) as int, k - c * x2, qi);
    assert(x * c + (k - c * x2) == k + dd) by (nonlinear_arith)
        requires
            dd == c * (x - x2),
    ;
    lemma_fundamental_div_mod(dd, qi);
    let j = dd / qi;
    lemma_mod_multiples_vanish(j, k as int, qi);
    lemma_small_mod(k, q);
    assert(n % q == k);
}

/// `q` is prime.
pub open spec fn is_prime(q: nat) -> bool {
    &&& q > 1
    &&& forall|d: nat| 1 < d < q ==> #[trigger] (q % d) != 0
}

/// Modulo a prime, a product of two nonzero residues is nonzero.
pub proof fn lemma_prime_product_nonzero(q: nat, a: nat, b: nat)
    requires
        is_prime(q),
        0 < a < q,
        0 < b < q,
    ensures
        ((a * b) as int) % (q as int) != 0,
    decreases a,
{
    let qi = q as int;
    if ((a * b) as int) % qi == 0 {
        if a == 1 {
            lemma_small_mod(b, q);
        } else {
            let m = q / a;
            let r = q % a;
            lemma_fundamental_div_mod(qi, a as int);
            assert(r != 0) by {
                assert(1 < a < q);
            }
            lemma_fundamental_div_mod((a * b) as int, qi);
            let t = (a * b) as int / qi;
            assert(r * b == qi * (b - m * t)) by (nonlinear_arith)
                requires
                    qi == a * m + r,
                    a * b == qi * t,
            ;
            lemma_mod_multiples_basic(b - m * t, qi);
            assert(((r * b) as int) % qi == 0) by {
                assert(qi * (b - m * t) == (b - m * t) * qi) by (nonlinear_arith);
            }
            lemma_prime_product_nonzero(q, r, b);
        }
    }
}

/// Powers of a generator of order `q` below `q` are distinct modulo `p`.
proof fn lemma_powers_distinct(g: nat, p: nat, q: nat, a: nat, b: nat)
    requires
        p > 1,
        q > 0,
        has_order(g, q, p),
        b < a < q,
    ensures
        power_mod(g, a, p) != power_mod(g, b, p),
{
    let gi = g as int;
    let pi = p as int;
    if power_mod(g, a, p) == power_mod(g, b, p) {
        let d = (a - b) as nat;
        let e = (q - b) as nat;
        lemma_pow_adds(gi, a, e);
        lemma_pow_adds(gi, b, e);
        lemma_mul_mod_noop_left(pow(gi, a), pow(gi, e), pi);
        lemma_mul_mod_noop_left(pow(gi, b), pow(gi, e), pi);
        assert(pow(gi, a + e) % pi == pow(gi, q) % pi);
        lemma_pow_reduce(g, p, q, a + e);
        assert(a + e == q + d);
        lemma_mod_add_multiples_vanish(d as int, q as int);
        lemma_small_mod(d, q);
        assert(power_mod(g, d, p) == 1);
        assert(0 < d < q);
    }
}

/// Completeness: in a valid setting whose generators lie in the subgroup of
/// order `q`, a prover that knows the secret `x` behind the registered
/// commitment and answers challenge `c` for its nonce `k < q` with
/// `solve`'s response is always accepted by `verify`.
pub proof fn lemma_completeness(zkp: ZKP, x: nat, k: nat, c: nat)
    requires
        zkp.valid_parameters(),
        zkp.generators_in_subgroup(),
        k < zkp.q@,
    ensures
        zkp.accepts(
            power_mod(zkp.alpha@, k, zkp.p@) as nat,
            power_mod(zkp.beta@, k, zkp.p@) as nat,
            power_mod(zkp.alpha@, x, zkp.p@) as nat,
            power_mod(zkp.beta@, x, zkp.p@) as nat,
            c,
            response_value(k, c, x, zkp.q@) as nat,
        ),
{
    assert(c * (x - x) == 0) by (nonlinear_arith);
    lemma_equation_complete(zkp.alpha@, zkp.p@, zkp.q@, x, x, k, c);
    lemma_equation_complete(zkp.beta@, zkp.p@, zkp.q@, x, x, k, c);
}

/// Soundness against a wrong secret: where `alpha` has order exactly `q`, the
/// response computed with a secret `x2` to the round of nonce `k < q` is
/// rejected against the commitment of `x` for every challenge `c` with
/// `c·(x - x2) ≠ 0 (mod q)`. For a prime `q` and `x ≠ x2 (mod q)` that is
/// every challenge but `c = 0 (mod q)`, so a guess passes with chance `1/q`.
pub proof fn lemma_wrong_secret_rejected(zkp: ZKP, x: nat, x2: nat, k: nat, c: nat)
    requires
        zkp.p@ > 1,
        zkp.q@ > 0,
        k < zkp.q@,
        has_order(zkp.alpha@, zkp.q@, zkp.p@),
        (c * (x - x2)) % (zkp.q@ as int) != 0,
    ensures
        !zkp.accepts(
            power_mod(zkp.alpha@, k, zkp.p@) as nat,
            power_mod(zkp.beta@, k, zkp.p@) as nat,
            power_mod(zkp.alpha@, x, zkp.p@) as nat,
            power_mod(zkp.beta@, x, zkp.p@) as nat,
            c,
            response_value(k, c, x2, zkp.q@) as nat,
        ),
{
    let g = zkp.alpha@;
    let p = zkp.p@;
    let q = zkp.q@;
    let qi = q as int;
    let s = response_value(k, c, x2, q);
    let n = (s + x * c) as nat;
    lemma_equation_power(g, p, x, c, s as nat);
    lemma_pow_reduce(g, p, q, n);
    let t = n % q;
    let dd = c * (x - x2);
    lemma_add_mod_noop_right((x * c) as int, k - c * x2, qi);
    assert(x * c + (k - c * x2) == k + dd) by (nonlinear_arith)
        requires
            dd == c * (x - x2),
    ;
    assert(t == (k + dd) % qi);
    if t == k {
        lemma_fundamental_div_mod(k + dd, qi);
        let j = (k + dd) / qi;
        assert(dd == j * qi) by (nonlinear_arith)
            requires
                k + dd == qi * j + k,
        ;
        lemma_mod_multiples_basic(j, qi);
        assert(false);
    } else if t > k {
        lemma_powers_distinct(g, p, q, t, k);
    } else {
        lemma_powers_distinct(g, p, q, k, t);
    }
}

/// Soundness for a prime subgroup order: where `q` is prime and both
/// generators have order exactly `q`, the response computed with a secret
/// `x2 ≠ x (mod q)` to the round of nonce `k < q` is accepted against the
/// commitment of `x` exactly when the challenge is `0 (mod q)`, so a wrong
/// secret passes one challenge in `q`.
pub proof fn lemma_wrong_secret_accepted_iff_zero_challenge(
    zkp: ZKP,
    x: nat,
    x2: nat,
    k: nat,
    c: nat,
)
    requires
        zkp.p@ > 1,
        is_prime(zkp.q@),
        has_order(zkp.alpha@, zkp.q@, zkp.p@),
        has_order(zkp.beta@, zkp.q@, zkp.p@),
        k < zkp.q@,
        x % zkp.q@ != x2 % zkp.q@,
    ensures
        zkp.accepts(
            power_mod(zkp.alpha@, k, zkp.p@) as nat,
            power_mod(zkp.beta@, k, zkp.p@) as nat,
            power_mod(zkp.alpha@, x, zkp.p@) as nat,
            power_mod(zkp.beta@, x, zkp.p@) as nat,
            c,
            response_value(k, c, x2, zkp.q@) as nat,
        ) <==> c % zkp.q@ == 0,
{
    let q = zkp.q@;
    let qi = q as int;
    let dx = x - x2;
    lemma_mul_mod_noop(c as int, dx, qi);
    if c % q == 0 {
        assert((c * dx) % qi == 0) by {
            assert((c as int % qi) * (dx % qi) == 0) by (nonlinear_arith)
                requires
                    c as int % qi == 0,
            ;
            lemma_small_mod(0, q);
            assert(((c as int % qi) * (dx % qi)) % qi == 0);
        }
        lemma_equation_complete(zkp.alpha@, zkp.p@, q, x, x2, k, c);
        lemma_equation_complete(zkp.beta@, zkp.p@, q, x, x2, k, c);
    } else {
        lemma_sub_mod_noop(x as int, x2 as int, qi);
        let dm = (x % q) as int - (x2 % q) as int;
        assert(dx % qi != 0) by {
            if dx % qi == 0 {
                assert(dm % qi == 0);
                assert(-qi < dm && dm < qi);
                if dm > 0 {
                    lemma_small_mod(dm as nat, q);
                } else if dm < 0 {
                    lemma_mod_add_multiples_vanish(dm, qi);
                    lemma_small_mod((qi + dm) as nat, q);
                }
            }
        }
        lemma_prime_product_nonzero(q, c % q, (dx % qi) as nat);
        lemma_wrong_secret_rejected(zkp, x, x2, k, c);
    }
}

} // verus!
