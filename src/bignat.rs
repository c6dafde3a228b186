//! Arbitrary-precision natural numbers, held as big-endian bytes.
//!
//! The arithmetic itself is done by `num_bigint`; each call into it goes
//! through one small trusted wrapper whose contract speaks of the value that
//! the bytes denote.

use num_bigint::{BigUint, RandBigInt};
use std::cmp::Ordering;
use vstd::arithmetic::power::pow;
use vstd::prelude::*;

verus! {

/// The natural number denoted by big-endian bytes (most significant first).
pub open spec fn be_value(s: Seq<u8>) -> nat
    decreases s.len(),
{
    if s.len() == 0 {
        0
    } else {
        (s[0] as nat) * (pow(256, (s.len() - 1) as nat) as nat) + be_value(s.drop_first())
    }
}

/// Big-endian bytes in the shortest form: no leading zero byte, and zero as one byte.
pub open spec fn is_minimal_be(s: Seq<u8>) -> bool {
    s.len() >= 1 && (s.len() > 1 ==> s[0] != 0)
}

/// A natural number of any size.
#[derive(Debug)]
pub struct BigNat {
    bytes: Vec<u8>,
}

impl View for BigNat {
    type V = nat;

    closed spec fn view(&self) -> nat {
        be_value(self.bytes@)
    }
}

/// Relies on num_bigint's `BigUint::modpow`, which returns `(base ^ exponent) % modulus`
/// and panics on a zero modulus, and on `BigUint::from_bytes_be` / `to_bytes_be`
/// converting between a `BigUint` and its big-endian bytes.
#[verifier::external_body]
pub(crate) fn modpow_wrapped(base: &BigNat, exponent: &BigNat, modulus: &BigNat) -> (r: BigNat)
    requires
        modulus@ > 0,
    ensures
        r@ == pow(base@ as int, exponent@) % (modulus@ as int),
{
    let b = BigUint::from_bytes_be(&base.bytes);
    let e = BigUint::from_bytes_be(&exponent.bytes);
    let m = BigUint::from_bytes_be(&modulus.bytes);
    BigNat { bytes: b.modpow(&e, &m).to_bytes_be() }
}

/// Relies on num_bigint's `Mul` for `&BigUint`: the exact product.
#[verifier::external_body]
pub(crate) fn mul_wrapped(a: &BigNat, b: &BigNat) -> (r: BigNat)
    ensures
        r@ == a@ * b@,
{
    let x = BigUint::from_bytes_be(&a.bytes);
    let y = BigUint::from_bytes_be(&b.bytes);
    BigNat { bytes: (&x * &y).to_bytes_be() }
}

/// Relies on num_bigint's `Sub` for `&BigUint`: the exact difference, which
/// panics when the subtrahend is the larger.
#[verifier::external_body]
pub(crate) fn sub_wrapped(a: &BigNat, b: &BigNat) -> (r: BigNat)
    requires
        a@ >= b@,
    ensures
        r@ == a@ - b@,
{
    let x = BigUint::from_bytes_be(&a.bytes);
    let y = BigUint::from_bytes_be(&b.bytes);
    BigNat { bytes: (&x - &y).to_bytes_be() }
}

/// Relies on num_bigint's `Ord` for `BigUint`: the order of the values.
#[verifier::external_body]
pub(crate) fn cmp_wrapped(a: &BigNat, b: &BigNat) -> (r: Ordering)
    ensures
        (r == Ordering::Less) == (a@ < b@),
        (r == Ordering::Equal) == (a@ == b@),
        (r == Ordering::Greater) == (a@ > b@),
{
    BigUint::from_bytes_be(&a.bytes).cmp(&BigUint::from_bytes_be(&b.bytes))
}

/// Relies on num_bigint's `BigUint::to_bytes_be`: the big-endian bytes of the
/// value, without leading zeros, and `[0]` for zero.
#[verifier::external_body]
fn minimal_bytes_wrapped(a: &BigNat) -> (r: Vec<u8>)
    ensures
        be_value(r@) == a@,
        is_minimal_be(r@),
{
    BigUint::from_bytes_be(&a.bytes).to_bytes_be()
}

/// Relies on num_bigint's `RandBigInt::gen_biguint_below` on rand's `thread_rng`:
/// a value below `bound`, which must not be zero. Nothing is promised of which one.
#[verifier::external_body]
pub(crate) fn random_below_wrapped(bound: &BigNat) -> (r: BigNat)
    requires
        bound@ > 0,
    ensures
        r@ < bound@,
{
    let b = BigUint::from_bytes_be(&bound.bytes);
    BigNat { bytes: rand::thread_rng().gen_biguint_below(&b).to_bytes_be() }
}

proof fn lemma_be_value_push_front(b: u8, s: Seq<u8>)
    ensures
        be_value(seq![b] + s) == (b as int) * pow(256, s.len()) + be_value(s),
{
    vstd::arithmetic::power::lemma_pow_positive(256, s.len());
    let t = seq![b] + s;
    assert(t.drop_first() =~= s);
    assert(t[0] == b);
}

impl BigNat {
    /// The number whose big-endian bytes are `bytes`; leading zero bytes are
    /// allowed and the empty slice is zero.
    pub fn from_bytes_be(bytes: &[u8]) -> (r: BigNat)
        ensures
            r@ == be_value(bytes@),
    {
        let mut v: Vec<u8> = Vec::new();
        let mut i: usize = 0;
        while i < bytes.len()
            invariant
                i <= bytes@.len(),
                v@ =~= bytes@.subrange(0, i as int),
            decreases bytes@.len() - i,
        {
            v.push(bytes[i]);
            i = i + 1;
        }
        assert(v@ =~= bytes@);
        BigNat { bytes: v }
    }

    /// The shortest big-endian bytes of the number: no leading zero byte, and
    /// `[0]` for zero.
    pub fn to_bytes_be(&self) -> (r: Vec<u8>)
        ensures
            be_value(r@) == self@,
            is_minimal_be(r@),
    {
        minimal_bytes_wrapped(self)
    }

    /// The number `v`.
    pub fn from_u64(v: u64) -> (r: BigNat)
        ensures
            r@ == v as nat,
    {
        let mut bytes: Vec<u8> = Vec::new();
        let mut x: u64 = v;
        proof {
            vstd::arithmetic::power::lemma_pow0(256);
        }
        while x > 0
            invariant
                v as int == (x as int) * pow(256, bytes@.len()) + be_value(bytes@),
            decreases x,
        {
            let d: u8 = (x % 256) as u8;
            proof {
                lemma_be_value_push_front(d, bytes@);
                vstd::arithmetic::power::lemma_pow_adds(256, 1, bytes@.len());
                vstd::arithmetic::power::lemma_pow1(256);
                let p = pow(256, bytes@.len());
                let q = (x / 256) as int;
                assert(x as int == 256 * q + d as int);
                assert((x as int) * p == q * (256 * p) + (d as int) * p)
                    by (nonlinear_arith)
                    requires
                        x as int == 256 * q + d as int,
                ;
                assert(pow(256, bytes@.len() + 1) == 256 * p);
            }
            let ghost prev = bytes@;
            bytes.insert(0, d);
            assert(bytes@ =~= seq![d] + prev);
            x = x / 256;
        }
        BigNat { bytes }
    }
}

impl Clone for BigNat {
    fn clone(&self) -> (r: Self)
        ensures
            r@ == self@,
    {
        let bytes = self.bytes.clone();
        assert(bytes@ =~= self.bytes@);
        BigNat { bytes }
    }
}

impl PartialEq for BigNat {
    fn eq(&self, other: &BigNat) -> (r: bool) {
        match cmp_wrapped(self, other) {
            Ordering::Equal => true,
            _ => false,
        }
    }
}

impl vstd::std_specs::cmp::PartialEqSpecImpl for BigNat {
    open spec fn obeys_eq_spec() -> bool {
        true
    }

    open spec fn eq_spec(&self, other: &BigNat) -> bool {
        self@ == other@
    }
}

} // verus!
