//! The protocol arithmetic of the Chaum-Pedersen proof of equal discrete
//! logarithms: commitments, the prover's response, and the verifier's check.

use crate::bignat::{
    cmp_wrapped, modpow_wrapped, mul_wrapped, random_below_wrapped, sub_wrapped, BigNat,
};
use rand::Rng;
use std::cmp::Ordering;
use vstd::arithmetic::div_mod::{lemma_fundamental_div_mod, lemma_fundamental_div_mod_converse, lemma_mul_mod_noop};
use vstd::arithmetic::power::{lemma_pow1, pow};
use vstd::prelude::*;

verus! {

/// `base ^ exponent mod modulus`.
pub open spec fn exp_mod(base: nat, exponent: nat, modulus: nat) -> nat {
    (pow(base as int, exponent) % (modulus as int)) as nat
}

/// The prover's response `(k - c * x) mod q`, taken in `[0, q)`.
pub open spec fn response(k: nat, c: nat, x: nat, q: nat) -> nat {
    ((k as int - (c as int) * (x as int)) % (q as int)) as nat
}

/// Both verification equations: `r1 == alpha^s * y1^c mod p` and
/// `r2 == beta^s * y2^c mod p`.
pub open spec fn accepts(
    r1: nat,
    r2: nat,
    y1: nat,
    y2: nat,
    alpha: nat,
    beta: nat,
    c: nat,
    s: nat,
    p: nat,
) -> bool {
    &&& r1 as int == (pow(alpha as int, s) * pow(y1 as int, c)) % (p as int)
    &&& r2 as int == (pow(beta as int, s) * pow(y2 as int, c)) % (p as int)
}

pub open spec fn is_alphanumeric(ch: char) -> bool {
    ('0' <= ch && ch <= '9') || ('a' <= ch && ch <= 'z') || ('A' <= ch && ch <= 'Z')
}

/// Relies on rand's `thread_rng` sampled with `distributions::Alphanumeric`:
/// `size` characters, each an ASCII letter or digit. Nothing is promised of which.
#[verifier::external_body]
fn random_alphanumeric(size: usize) -> (r: String)
    ensures
        r@.len() == size,
        forall|i: int| 0 <= i < r@.len() ==> is_alphanumeric(#[trigger] r@[i]),
{
    rand::thread_rng().sample_iter(rand::distributions::Alphanumeric).take(size).map(
        char::from,
    ).collect()
}

/// The group setting: a modulus `p`, a subgroup order `q`, and two generators
/// `alpha` and `beta` of the subgroup of order `q`.
pub struct ZKP {
    pub p: BigNat,
    pub q: BigNat,
    pub alpha: BigNat,
    pub beta: BigNat,
}

impl ZKP {
    /// `n ^ exponent mod modulus`.
    pub fn exponentiate(n: &BigNat, exponent: &BigNat, modulus: &BigNat) -> (r: BigNat)
        requires
            modulus@ > 0,
        ensures
            r@ == exp_mod(n@, exponent@, modulus@),
            r@ < modulus@,
    {
        modpow_wrapped(n, exponent, modulus)
    }

    /// The prover's response `s = (k - c * x) mod q`, always in `[0, q)`.
    pub fn solve(&self, k: &BigNat, c: &BigNat, x: &BigNat) -> (s: BigNat)
        requires
            self.q@ > 0,
        ensures
            s@ == response(k@, c@, x@, self.q@),
            s@ < self.q@,
    {
        let one = BigNat::from_u64(1);
        let cx = mul_wrapped(c, x);
        proof {
            lemma_pow1(k@ as int);
        }
        match cmp_wrapped(k, &cx) {
            Ordering::Less => {
                let diff = sub_wrapped(&cx, k);
                proof {
                    lemma_pow1(diff@ as int);
                }
                let m = modpow_wrapped(&diff, &one, &self.q);
                let zero = BigNat::from_u64(0);
                if m == zero {
                    proof {
                        let q = self.q@ as int;
                        let d = diff@ as int;
                        let t = d / q;
                        lemma_fundamental_div_mod(d, q);
                        assert(-d == (-t) * q + 0) by (nonlinear_arith)
                            requires
                                d == q * t + 0,
                        ;
                        lemma_fundamental_div_mod_converse(-d, q, -t, 0);
                    }
                    m
                } else {
                    proof {
                        let q = self.q@ as int;
                        let d = diff@ as int;
                        let t = d / q;
                        let m = d % q;
                        lemma_fundamental_div_mod(d, q);
                        assert(-d == (-t - 1) * q + (q - m)) by (nonlinear_arith)
                            requires
                                d == q * t + m,
                        ;
                        lemma_fundamental_div_mod_converse(-d, q, -t - 1, q - m);
                    }
                    sub_wrapped(&self.q, &m)
                }
            },
            _ => {
                let diff = sub_wrapped(k, &cx);
                proof {
                    lemma_pow1(diff@ as int);
                }
                modpow_wrapped(&diff, &one, &self.q)
            },
        }
    }

    /// Whether `(r1, r2)` and the response `s` to challenge `c` satisfy both
    /// verification equations for the commitments `(y1, y2)`.
    pub fn verify(
        &self,
        r1: &BigNat,
        r2: &BigNat,
        y1: &BigNat,
        y2: &BigNat,
        c: &BigNat,
        s: &BigNat,
    ) -> (r: bool)
        requires
            self.p@ > 0,
        ensures
            r == accepts(r1@, r2@, y1@, y2@, self.alpha@, self.beta@, c@, s@, self.p@),
    {
        let one = BigNat::from_u64(1);
        let a1 = modpow_wrapped(&self.alpha, s, &self.p);
        let b1 = modpow_wrapped(y1, c, &self.p);
        let v1 = modpow_wrapped(&mul_wrapped(&a1, &b1), &one, &self.p);
        let a2 = modpow_wrapped(&self.beta, s, &self.p);
        let b2 = modpow_wrapped(y2, c, &self.p);
        let v2 = modpow_wrapped(&mul_wrapped(&a2, &b2), &one, &self.p);
        proof {
            let p = self.p@ as int;
            lemma_pow1((a1@ * b1@) as int);
            lemma_pow1((a2@ * b2@) as int);
            lemma_mul_mod_noop(pow(self.alpha@ as int, s@), pow(y1@ as int, c@), p);
            lemma_mul_mod_noop(pow(self.beta@ as int, s@), pow(y2@ as int, c@), p);
        }
        let cond1 = *r1 == v1;
        let cond2 = *r2 == v2;
        cond1 && cond2
    }

    /// A value drawn from `[0, bound)`.
    pub fn generate_random_number_below(bound: &BigNat) -> (r: BigNat)
        requires
            bound@ > 0,
        ensures
            r@ < bound@,
    {
        random_below_wrapped(bound)
    }

    /// A random string of `size` ASCII letters and digits.
    pub fn generate_random_string(size: usize) -> (r: String)
        ensures
            r@.len() == size,
            forall|i: int| 0 <= i < r@.len() ==> is_alphanumeric(#[trigger] r@[i]),
    {
        random_alphanumeric(size)
    }
}

} // verus!
