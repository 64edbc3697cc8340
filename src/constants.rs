//! The default group setting (the 1024-bit group with a 160-bit prime-order
//! subgroup of RFC 5114), read from hexadecimal text, and its validation.

use crate::bignum::{at_most, difference, mod_pow, remainder, same_value, be_value, BigNum};
use crate::error::ProtocolError;
use crate::zkp::{power_mod, ZKP};
use vstd::prelude::*;

verus! {

/// The modulus `p`.
pub const MODULUS_HEX: &'static str = "B10B8F96A080E01DDE92DE5EAE5D54EC52C99FBCFB06A3C69A6A9DCA52D23B616073E28675A23D189838EF1E2EE652C013ECB4AEA906112324975C3CD49B83BFACCBDD7D90C4BD7098488E9C219A73724EFFD6FAE5644738FAA31A4FF55BCCC0A151AF5F0DC8B4BD45BF37DF365C1A65E68CFDA76D4DA708DF1FB2BC2E4A4371";

/// The subgroup order `q`, a 160-bit prime dividing `p - 1`.
pub const ORDER_HEX: &'static str = "F518AA8781A8DF278ABA4E7D64B7CB9D49462353";

/// The generator `alpha` of the subgroup of order `q`.
pub const GENERATOR_HEX: &'static str = "A4D1CBD5C3FD34126765A442EFB99905F8104DD258AC507FD6406CFF14266D31266FEA1E5C41564B777E690F5504F213160217B4B01B886A5E91547F9E2749F4D7FBD7D3B9A92EE1909D0D2263F80A76A6A24C087A091F531DBF0A0169B6A28AD662A4D18E73AFA32D779D5918D08BC8858F4DCEF97C2A24855E6EEB22B3B2E5";

/// The exponent `w` with `beta = alpha^w mod p`.
pub const BETA_EXPONENT_HEX: &'static str = "266FEA1E5C41564B777E69";

/// Whether `ch` is a hexadecimal digit, in either case.
pub open spec fn is_hex_digit(ch: char) -> bool {
    ('0' <= ch && ch <= '9') || ('a' <= ch && ch <= 'f') || ('A' <= ch && ch <= 'F')
}

/// The value of a hexadecimal digit.
pub open spec fn hex_digit_value(ch: char) -> nat {
    if '0' <= ch && ch <= '9' {
        (ch as nat - '0' as nat) as nat
    } else if 'a' <= ch && ch <= 'f' {
        (ch as nat - 'a' as nat + 10) as nat
    } else {
        (ch as nat - 'A' as nat + 10) as nat
    }
}

/// Whether `s` is an even number of hexadecimal digits.
pub open spec fn is_hex_text(s: Seq<char>) -> bool {
    &&& s.len() % 2 == 0
    &&& forall|i: int| 0 <= i < s.len() ==> is_hex_digit(#[trigger] s[i])
}

/// The bytes that hexadecimal text denotes, two digits to a byte, high digit
/// first.
pub open spec fn hex_bytes(s: Seq<char>) -> Seq<u8> {
    Seq::new(
        s.len() / 2,
        |i: int| (16 * hex_digit_value(s[2 * i]) + hex_digit_value(s[2 * i + 1])) as u8,
    )
}

/// The number that hexadecimal text denotes, big-endian; zero for text that
/// is not hexadecimal.
pub open spec fn hex_number(s: Seq<char>) -> nat {
    if is_hex_text(s) {
        be_value(hex_bytes(s))
    } else {
        0
    }
}

/// `hex::FromHexError`, the reason `hex::decode` refuses its text; carried
/// opaque.
#[verifier::external_type_specification]
#[verifier::external_body]
pub struct ExFromHexError(hex::FromHexError);

/// Relies on `hex::decode`: text of an even number of hexadecimal digits (either
/// case) decodes two digits to a byte, high digit first; any other text is
/// refused.
#[verifier::external_body]
fn decode_hex(text: &str) -> (r: Result<Vec<u8>, hex::FromHexError>)
    ensures
        r is Ok <==> is_hex_text(text@),
        r matches Ok(b) ==> b@ == hex_bytes(text@),
{
    hex::decode(text)
}

/// The number written in `text`; zero where it is not hexadecimal.
fn number_from_hex(text: &str) -> (r: BigNum)
    ensures
        r@ == hex_number(text@),
{
    match decode_hex(text) {
        Ok(bytes) => BigNum::from_bytes_be(bytes.as_slice()),
        Err(_) => BigNum::from_u64(0),
    }
}

impl ZKP {
    /// The default setting as `(alpha, beta, p, q)`, where
    /// `beta = alpha^w mod p` for the fixed exponent `w`.
    pub fn get_constants() -> (r: (BigNum, BigNum, BigNum, BigNum))
        ensures
            r.0@ == hex_number(GENERATOR_HEX@),
            r.2@ == hex_number(MODULUS_HEX@),
            r.3@ == hex_number(ORDER_HEX@),
            r.1@ == if r.2@ > 1 {
                power_mod(r.0@, hex_number(BETA_EXPONENT_HEX@), r.2@)
            } else {
                0
            },
    {
        let p = number_from_hex(MODULUS_HEX);
        let q = number_from_hex(ORDER_HEX);
        let alpha = number_from_hex(GENERATOR_HEX);
        let exp = number_from_hex(BETA_EXPONENT_HEX);
        let one = BigNum::from_u64(1);
        let beta = if at_most(&p, &one) {
            BigNum::from_u64(0)
        } else {
            mod_pow(&alpha, &exp, &p)
        };
        (alpha, beta, p, q)
    }

    /// The default setting as a value.
    pub fn standard() -> (r: ZKP)
        ensures
            r.alpha@ == hex_number(GENERATOR_HEX@),
            r.p@ == hex_number(MODULUS_HEX@),
            r.q@ == hex_number(ORDER_HEX@),
            r.beta@ == if r.p@ > 1 {
                power_mod(r.alpha@, hex_number(BETA_EXPONENT_HEX@), r.p@)
            } else {
                0
            },
    {
        let (alpha, beta, p, q) = ZKP::get_constants();
        ZKP { p, q, alpha, beta }
    }

    /// Checks the setting: `1 < alpha < p`, `1 < beta < p`, and `q` a nonzero
    /// divisor of `p - 1`. Membership of the generators in the subgroup is not
    /// checked.
    pub fn validate(&self) -> (r: Result<(), ProtocolError>)
        ensures
            r is Ok <==> self.valid_parameters(),
            r is Err ==> r == Err::<(), ProtocolError>(ProtocolError::InvalidParameters),
    {
        let one = BigNum::from_u64(1);
        if !(one.is_less_than(&self.alpha) && self.alpha.is_less_than(&self.p)) {
            return Err(ProtocolError::InvalidParameters);
        }
        if !(one.is_less_than(&self.beta) && self.beta.is_less_than(&self.p)) {
            return Err(ProtocolError::InvalidParameters);
        }
        let zero = BigNum::from_u64(0);
        if same_value(&self.q, &zero) {
            return Err(ProtocolError::InvalidParameters);
        }
        let p_minus_one = difference(&self.p, &one);
        let rest = remainder(&p_minus_one, &self.q);
        if !same_value(&rest, &zero) {
            return Err(ProtocolError::InvalidParameters);
        }
        Ok(())
    }
}

} // verus!
