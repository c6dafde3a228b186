//! What the protocol guarantees: an honest prover is always accepted, and a
//! prover who answers with another secret is accepted on one challenge in `q`.

use crate::zkp::{accepts, exp_mod, response};
use vstd::arithmetic::div_mod::{
    lemma_fundamental_div_mod, lemma_mod_multiples_basic, lemma_mul_mod_noop,
    lemma_mul_mod_noop_left, lemma_small_mod,
};
use vstd::arithmetic::power::{
    lemma1_pow, lemma_pow_adds, lemma_pow_mod_noop, lemma_pow_multiplies, pow,
};
use vstd::prelude::*;

verus! {

/// The invariant of a group setting: both moduli are positive and both
/// generators lie in the subgroup of order `q`.
pub open spec fn group_invariant(p: nat, q: nat, alpha: nat, beta: nat) -> bool {
    &&& p > 0
    &&& q > 0
    &&& exp_mod(alpha, q, p) == 1
    &&& exp_mod(beta, q, p) == 1
}

pub open spec fn is_prime(n: nat) -> bool {
    n > 1 && forall|d: nat| 1 < d < n ==> #[trigger] (n % d) != 0
}

/// `g` has order exactly `q` modulo `p`.
pub open spec fn has_order(g: nat, q: nat, p: nat) -> bool {
    &&& exp_mod(g, q, p) == 1
    &&& forall|i: nat| 0 < i < q ==> #[trigger] exp_mod(g, i, p) != 1
}

/// Exponents that agree modulo `q` give the same power of an element whose
/// `q`-th power is one.
proof fn lemma_exponents_mod_order(g: nat, p: nat, q: nat, a: nat, b: nat)
    requires
        p > 0,
        q > 0,
        exp_mod(g, q, p) == 1,
        a % q == b % q,
    ensures
        pow(g as int, a) % (p as int) == pow(g as int, b) % (p as int),
    decreases (if a < b { 1int } else { 0int }),
{
    if a < b {
        lemma_exponents_mod_order(g, p, q, b, a);
    } else {
        let t = ((a - b) / (q as int)) as nat;
        lemma_fundamental_div_mod(a as int, q as int);
        lemma_fundamental_div_mod(b as int, q as int);
        lemma_fundamental_div_mod((a - b) as int, q as int);
        assert((a - b) % (q as int) == 0) by {
            vstd::arithmetic::div_mod::lemma_sub_mod_noop(a as int, b as int, q as int);
        }
        assert(a == b + q * t) by (nonlinear_arith)
            requires
                (a - b) as int == (q as int) * t + 0,
                a >= b,
        ;
        lemma_pow_adds(g as int, b, q * t);
        lemma_pow_multiplies(g as int, q, t);
        let gq = pow(g as int, q);
        let m = p as int;
        lemma_pow_mod_noop(gq, t, m);
        lemma1_pow(t);
        // gq % m == 1, so gq^t % m == 1 % m
        assert(pow(gq, t) % m == 1int % m);
        lemma_mul_mod_noop(pow(g as int, b), pow(gq, t), m);
        lemma_mul_mod_noop(pow(g as int, b), 1, m);
    }
}

/// The right-hand side of a verification equation is one power of `g`:
/// `g^s * (g^x mod p)^c == g^(s + x*c)` modulo `p`.
proof fn lemma_check_is_one_power(g: nat, p: nat, x: nat, c: nat, s: nat)
    requires
        p > 0,
    ensures
        (pow(g as int, s) * pow(exp_mod(g, x, p) as int, c)) % (p as int) == pow(g as int, s + x * c)
            % (p as int),
{
    let m = p as int;
    let y = exp_mod(g, x, p);
    lemma_pow_mod_noop(pow(g as int, x), c, m);
    lemma_pow_multiplies(g as int, x, c);
    assert(pow(y as int, c) % m == pow(g as int, x * c) % m);
    lemma_mul_mod_noop(pow(g as int, s), pow(y as int, c), m);
    lemma_mul_mod_noop(pow(g as int, s), pow(g as int, x * c), m);
    lemma_pow_adds(g as int, s, x * c);
}

/// The check on one generator: for `g` with `g^q mod p == 1`, the commitment
/// `g^k` equals `g^s * (g^x)^c` modulo `p` when `s` is the response to `c`.
proof fn lemma_commitment_matches(g: nat, p: nat, q: nat, x: nat, k: nat, c: nat)
    requires
        p > 0,
        q > 0,
        exp_mod(g, q, p) == 1,
    ensures
        exp_mod(g, k, p) as int == (pow(g as int, response(k, c, x, q)) * pow(
            exp_mod(g, x, p) as int,
            c,
        )) % (p as int),
{
    let s = response(k, c, x, q);
    lemma_check_is_one_power(g, p, x, c, s);
    // s + x*c == k modulo q
    let d = k as int - (c as int) * (x as int);
    lemma_fundamental_div_mod(d, q as int);
    assert((s + x * c) as int == k as int + (q as int) * (-(d / (q as int)))) by (nonlinear_arith)
        requires
            d == (q as int) * (d / (q as int)) + s,
            d == k as int - (c as int) * (x as int),
    ;
    vstd::arithmetic::div_mod::lemma_mod_multiples_vanish(-(d / (q as int)), k as int, q as int);
    lemma_exponents_mod_order(g, p, q, s + x * c, k);
}

/// An honest prover is always accepted: with secret `x`, ephemeral `k` and
/// challenge `c`, the commitments `y = g^x`, `r = g^k` for both generators and
/// the response `solve(k, c, x)` pass verification.
pub proof fn completeness(p: nat, q: nat, alpha: nat, beta: nat, x: nat, k: nat, c: nat)
    requires
        group_invariant(p, q, alpha, beta),
        x < q,
        k < q,
        c < q,
    ensures
        accepts(
            exp_mod(alpha, k, p),
            exp_mod(beta, k, p),
            exp_mod(alpha, x, p),
            exp_mod(beta, x, p),
            alpha,
            beta,
            c,
            response(k, c, x, q),
            p,
        ),
{
    lemma_commitment_matches(alpha, p, q, x, k, c);
    lemma_commitment_matches(beta, p, q, x, k, c);
}

/// Euclid's lemma: a prime that divides `a * b` with `0 < a < q` divides `b`.
proof fn lemma_prime_divides_factor(q: nat, a: nat, b: int)
    requires
        is_prime(q),
        0 < a < q,
        (a * b) % (q as int) == 0,
    ensures
        b % (q as int) == 0,
    decreases a,
{
    if a > 1 {
        let qi = q as int;
        let t = qi / (a as int);
        let r = qi % (a as int);
        lemma_fundamental_div_mod(qi, a as int);
        assert(q % a != 0);
        let m = (a * b) / qi;
        lemma_fundamental_div_mod(a * b, qi);
        assert(r * b == (b - t * m) * qi) by (nonlinear_arith)
            requires
                qi == (a as int) * t + r,
                a * b == qi * m + 0,
        ;
        lemma_mod_multiples_basic(b - t * m, qi);
        lemma_prime_divides_factor(q, r as nat, b);
    }
}

/// `x - y` is a multiple of `q` only when `y` is `x` modulo `q`, for `x < q`.
proof fn lemma_difference_not_multiple(q: nat, x: nat, y: nat)
    requires
        q > 0,
        x < q,
        y % q != x,
    ensures
        (x as int - y as int) % (q as int) != 0,
{
    let qi = q as int;
    let yr = (y % q) as int;
    lemma_fundamental_div_mod(y as int, qi);
    let v = x as int - yr;
    // x - y == v + q * (-(y / q)), so both leave the same remainder
    vstd::arithmetic::div_mod::lemma_mod_multiples_vanish(-(y as int / qi), v, qi);
    assert(x as int - y as int == qi * (-(y as int / qi)) + v) by (nonlinear_arith)
        requires
            y as int == qi * (y as int / qi) + yr,
            v == x as int - yr,
    ;
    if v >= 0 {
        lemma_small_mod(v as nat, q);
    } else {
        vstd::arithmetic::div_mod::lemma_fundamental_div_mod_converse(v, qi, -1, v + qi);
    }
}

/// A prover who answers with a secret other than the registered one is
/// accepted only on the challenge `0`: on one challenge out of the `q` that the
/// verifier draws from, when `q` is prime and `alpha` has order `q`.
pub proof fn soundness(
    p: nat,
    q: nat,
    alpha: nat,
    beta: nat,
    x: nat,
    x_fake: nat,
    k: nat,
    c: nat,
)
    requires
        group_invariant(p, q, alpha, beta),
        is_prime(q),
        has_order(alpha, q, p),
        x < q,
        k < q,
        c < q,
        x_fake % q != x,
        accepts(
            exp_mod(alpha, k, p),
            exp_mod(beta, k, p),
            exp_mod(alpha, x, p),
            exp_mod(beta, x, p),
            alpha,
            beta,
            c,
            response(k, c, x_fake, q),
            p,
        ),
    ensures
        c == 0,
{
    let m = p as int;
    let qi = q as int;
    let a = alpha as int;
    let s = response(k, c, x_fake, q);
    // alpha^k == alpha^(s + x*c) modulo p
    lemma_check_is_one_power(alpha, p, x, c, s);
    assert(pow(a, k) % m == pow(a, s + x * c) % m);
    // s + x*c == k + e modulo q, where e = c*(x - x_fake) mod q
    let big_d = (c as int) * (x as int) - (c as int) * (x_fake as int);
    let e = big_d % qi;
    let d = k as int - (c as int) * (x_fake as int);
    lemma_fundamental_div_mod(d, qi);
    lemma_fundamental_div_mod(big_d, qi);
    let f = big_d / qi - d / qi;
    assert((s + x * c) as int == (k as int + e) + qi * f) by (nonlinear_arith)
        requires
            d == qi * (d / qi) + s,
            big_d == qi * (big_d / qi) + e,
            d == k as int - (c as int) * (x_fake as int),
            big_d == (c as int) * (x as int) - (c as int) * (x_fake as int),
            f == big_d / qi - d / qi,
    ;
    vstd::arithmetic::div_mod::lemma_mod_multiples_vanish(f, k as int + e, qi);
    lemma_exponents_mod_order(alpha, p, q, s + x * c, (k + e) as nat);
    assert(pow(a, k) % m == pow(a, (k + e) as nat) % m);
    // multiplying by alpha^(q - k): alpha^q == alpha^(q + e) modulo p
    let rest = (q - k) as nat;
    lemma_pow_adds(a, k, rest);
    lemma_pow_adds(a, (k + e) as nat, rest);
    lemma_mul_mod_noop_left(pow(a, k), pow(a, rest), m);
    lemma_mul_mod_noop_left(pow(a, (k + e) as nat), pow(a, rest), m);
    assert((k + rest) as nat == q);
    assert(((k + e) + rest) as nat == (q + e) as nat);
    assert(pow(a, q) % m == pow(a, (q + e) as nat) % m);
    // alpha^(q + e) == alpha^e, so alpha^e == 1 and e == 0
    vstd::arithmetic::div_mod::lemma_mod_add_multiples_vanish(e, qi);
    lemma_small_mod(e as nat, q);
    lemma_exponents_mod_order(alpha, p, q, (q + e) as nat, e as nat);
    assert(exp_mod(alpha, e as nat, p) == 1);
    assert(e == 0);
    // q divides c * (x - x_fake) but not x - x_fake, so q divides c
    let diff = x as int - x_fake as int;
    lemma_difference_not_multiple(q, x, x_fake);
    assert(big_d == diff * (c as int)) by (nonlinear_arith)
        requires
            big_d == (c as int) * (x as int) - (c as int) * (x_fake as int),
            diff == x as int - x_fake as int,
    ;
    lemma_mul_mod_noop_left(diff, c as int, qi);
    lemma_prime_divides_factor(q, (diff % qi) as nat, c as int);
    lemma_small_mod(c, q);
}

} // verus!
