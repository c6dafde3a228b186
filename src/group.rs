//! The fixed group setting: the 1024-bit MODP group with a 160-bit prime-order
//! subgroup of RFC 5114 section 2.1, written in hexadecimal.

use crate::bignat::{be_value, BigNat};
use crate::zkp::{exp_mod, ZKP};
use vstd::arithmetic::power::{lemma_pow_positive, pow};
use vstd::prelude::*;

verus! {

/// The modulus `p`.
pub const MODULUS_HEX: &'static str = "B10B8F96A080E01DDE92DE5EAE5D54EC52C99FBCFB06A3C69A6A9DCA52D23B616073E28675A23D189838EF1E2EE652C013ECB4AEA906112324975C3CD49B83BFACCBDD7D90C4BD7098488E9C219A73724EFFD6FAE5644738FAA31A4FF55BCCC0A151AF5F0DC8B4BD45BF37DF365C1A65E68CFDA76D4DA708DF1FB2BC2E4A4371";

/// The order `q` of the subgroup.
pub const ORDER_HEX: &'static str = "F518AA8781A8DF278ABA4E7D64B7CB9D49462353";

/// The generator `alpha` of the subgroup.
pub const GENERATOR_HEX: &'static str = "A4D1CBD5C3FD34126765A442EFB99905F8104DD258AC507FD6406CFF14266D31266FEA1E5C41564B777E690F5504F213160217B4B01B886A5E91547F9E2749F4D7FBD7D3B9A92EE1909D0D2263F80A76A6A24C087A091F531DBF0A0169B6A28AD662A4D18E73AFA32D779D5918D08BC8858F4DCEF97C2A24855E6EEB22B3B2E5";

/// The exponent `e` with `beta = alpha^e mod p`. It is part of the configuration,
/// so anyone who reads it knows the discrete logarithm of `beta` to base `alpha`:
/// a deployment that needs that relation unknown must choose `beta` otherwise.
pub const SECOND_GENERATOR_EXPONENT_HEX: &'static str = "5C3FD564B7747F9E2742A4";

pub open spec fn is_hex_digit(ch: char) -> bool {
    ('0' <= ch && ch <= '9') || ('a' <= ch && ch <= 'f') || ('A' <= ch && ch <= 'F')
}

pub open spec fn hex_digit_value(ch: char) -> nat {
    if '0' <= ch && ch <= '9' {
        (ch as nat - '0' as nat) as nat
    } else if 'a' <= ch && ch <= 'f' {
        (ch as nat - 'a' as nat + 10) as nat
    } else {
        (ch as nat - 'A' as nat + 10) as nat
    }
}

/// An even number of hexadecimal digits, in either case.
pub open spec fn is_hex_text(s: Seq<char>) -> bool {
    s.len() % 2 == 0 && forall|i: int| 0 <= i < s.len() ==> #[trigger] is_hex_digit(s[i])
}

/// The bytes written by hexadecimal text, two digits per byte, high digit first.
pub open spec fn hex_bytes(s: Seq<char>) -> Seq<u8>
    decreases s.len(),
{
    if s.len() < 2 {
        seq![]
    } else {
        seq![(hex_digit_value(s[0]) * 16 + hex_digit_value(s[1])) as u8] + hex_bytes(
            s.subrange(2, s.len() as int),
        )
    }
}

/// The number written by hexadecimal text.
pub open spec fn hex_value(s: Seq<char>) -> nat {
    be_value(hex_bytes(s))
}

/// Relies on `hex::decode`: an even number of hexadecimal digits decodes to
/// their bytes, two digits per byte; anything else is an error.
#[verifier::external_body]
fn decode_hex(s: &str) -> (r: Option<Vec<u8>>)
    ensures
        r is Some <==> is_hex_text(s@),
        r is Some ==> r->0@ == hex_bytes(s@),
{
    hex::decode(s).ok()
}

proof fn lemma_be_value_positive(s: Seq<u8>)
    requires
        s.len() > 0,
        s[0] != 0,
    ensures
        be_value(s) > 0,
{
    lemma_pow_positive(256, (s.len() - 1) as nat);
    assert((s[0] as nat) * (pow(256, (s.len() - 1) as nat) as nat) > 0) by (nonlinear_arith)
        requires
            s[0] as nat > 0,
            pow(256, (s.len() - 1) as nat) > 0,
    ;
}

impl ZKP {
    /// The fixed group setting, as `(alpha, beta, p, q)`, where
    /// `beta = alpha^e mod p` for the configured exponent `e`.
    pub fn get_constants() -> (r: (BigNat, BigNat, BigNat, BigNat))
        ensures
            r.0@ == hex_value(GENERATOR_HEX@),
            r.1@ == exp_mod(r.0@, hex_value(SECOND_GENERATOR_EXPONENT_HEX@), r.2@),
            r.2@ == hex_value(MODULUS_HEX@),
            r.3@ == hex_value(ORDER_HEX@),
            r.2@ > 0,
            r.3@ > 0,
    {
        proof {
            reveal_strlit("B10B8F96A080E01DDE92DE5EAE5D54EC52C99FBCFB06A3C69A6A9DCA52D23B616073E28675A23D189838EF1E2EE652C013ECB4AEA906112324975C3CD49B83BFACCBDD7D90C4BD7098488E9C219A73724EFFD6FAE5644738FAA31A4FF55BCCC0A151AF5F0DC8B4BD45BF37DF365C1A65E68CFDA76D4DA708DF1FB2BC2E4A4371");
            reveal_strlit("F518AA8781A8DF278ABA4E7D64B7CB9D49462353");
            reveal_strlit("A4D1CBD5C3FD34126765A442EFB99905F8104DD258AC507FD6406CFF14266D31266FEA1E5C41564B777E690F5504F213160217B4B01B886A5E91547F9E2749F4D7FBD7D3B9A92EE1909D0D2263F80A76A6A24C087A091F531DBF0A0169B6A28AD662A4D18E73AFA32D779D5918D08BC8858F4DCEF97C2A24855E6EEB22B3B2E5");
            reveal_strlit("5C3FD564B7747F9E2742A4");
        }
        assert(is_hex_text(MODULUS_HEX@));
        assert(is_hex_text(ORDER_HEX@));
        assert(is_hex_text(GENERATOR_HEX@));
        assert(is_hex_text(SECOND_GENERATOR_EXPONENT_HEX@));
        let p = BigNat::from_bytes_be(decode_hex(MODULUS_HEX).unwrap().as_slice());
        let q = BigNat::from_bytes_be(decode_hex(ORDER_HEX).unwrap().as_slice());
        let alpha = BigNat::from_bytes_be(decode_hex(GENERATOR_HEX).unwrap().as_slice());
        let e = BigNat::from_bytes_be(
            decode_hex(SECOND_GENERATOR_EXPONENT_HEX).unwrap().as_slice(),
        );
        proof {
            lemma_be_value_positive(hex_bytes(MODULUS_HEX@));
            lemma_be_value_positive(hex_bytes(ORDER_HEX@));
        }
        let beta = ZKP::exponentiate(&alpha, &e, &p);
        (alpha, beta, p, q)
    }
}

} // verus!
