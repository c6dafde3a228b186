use zkp_chaum_pedersen::group::{MODULUS_HEX, ORDER_HEX};
use zkp_chaum_pedersen::{BigNat, ZKP};

fn n(v: u64) -> BigNat {
    BigNat::from_u64(v)
}

fn toy_group() -> ZKP {
    ZKP { p: n(23), q: n(11), alpha: n(4), beta: n(9) }
}

#[test]
fn test_toy_example() {
    let alpha = n(4);
    let beta = n(9);
    let p = n(23);
    let q = n(11);
    let zkp = ZKP { p: p.clone(), q: q.clone(), alpha: alpha.clone(), beta: beta.clone() };

    let x = n(6);
    let k = n(7);

    let c = n(4);

    let y1 = ZKP::exponentiate(&alpha, &x, &p);
    let y2 = ZKP::exponentiate(&beta, &x, &p);
    assert_eq!(y1, n(2));
    assert_eq!(y2, n(3));

    let r1 = ZKP::exponentiate(&alpha, &k, &p);
    let r2 = ZKP::exponentiate(&beta, &k, &p);
    assert_eq!(r1, n(8));
    assert_eq!(r2, n(4));

    let x_fake = n(7);
    let s_fake = zkp.solve(&k, &c, &x_fake);

    let result = zkp.verify(&r1, &r2, &y1, &y2, &c, &s_fake);
    assert!(!result);
}

#[test]
fn test_example_with_random_numbers() {
    let alpha = n(4);
    let beta = n(9);
    let p = n(23);
    let q = n(11);
    let zkp = ZKP { p: p.clone(), q: q.clone(), alpha: alpha.clone(), beta: beta.clone() };

    let x = n(6);
    let k = ZKP::generate_random_number_below(&zkp.q);

    let c = ZKP::generate_random_number_below(&zkp.q);

    let y1 = ZKP::exponentiate(&alpha, &x, &p);
    let y2 = ZKP::exponentiate(&beta, &x, &p);
    assert_eq!(y1, n(2));
    assert_eq!(y2, n(3));

    let r1 = ZKP::exponentiate(&alpha, &k, &p);
    let r2 = ZKP::exponentiate(&beta, &k, &p);

    let s = zkp.solve(&k, &c, &x);

    let result = zkp.verify(&r1, &r2, &y1, &y2, &c, &s);
    assert!(result);
}

#[test]
fn test_1024_bits_constants() {
    let p = BigNat::from_bytes_be(&hex::decode("B10B8F96A080E01DDE92DE5EAE5D54EC52C99FBCFB06A3C69A6A9DCA52D23B616073E28675A23D189838EF1E2EE652C013ECB4AEA906112324975C3CD49B83BFACCBDD7D90C4BD7098488E9C219A73724EFFD6FAE5644738FAA31A4FF55BCCC0A151AF5F0DC8B4BD45BF37DF365C1A65E68CFDA76D4DA708DF1FB2BC2E4A4371").unwrap());
    let q = BigNat::from_bytes_be(&hex::decode("F518AA8781A8DF278ABA4E7D64B7CB9D49462353").unwrap());
    let alpha = BigNat::from_bytes_be(&hex::decode("A4D1CBD5C3FD34126765A442EFB99905F8104DD258AC507FD6406CFF14266D31266FEA1E5C41564B777E690F5504F213160217B4B01B886A5E91547F9E2749F4D7FBD7D3B9A92EE1909D0D2263F80A76A6A24C087A091F531DBF0A0169B6A28AD662A4D18E73AFA32D779D5918D08BC8858F4DCEF97C2A24855E6EEB22B3B2E5").unwrap());

    // beta = alpha^e for a random e is another generator of the subgroup
    let beta = ZKP::exponentiate(&alpha, &ZKP::generate_random_number_below(&q), &p);

    let zkp = ZKP { p: p.clone(), q: q.clone(), alpha: alpha.clone(), beta: beta.clone() };

    let x = ZKP::generate_random_number_below(&zkp.q);
    let k = ZKP::generate_random_number_below(&zkp.q);
    let c = ZKP::generate_random_number_below(&zkp.q);

    let y1 = ZKP::exponentiate(&alpha, &x, &p);
    let y2 = ZKP::exponentiate(&beta, &x, &p);

    let r1 = ZKP::exponentiate(&alpha, &k, &p);
    let r2 = ZKP::exponentiate(&beta, &k, &p);

    let s = zkp.solve(&k, &c, &x);

    let result = zkp.verify(&r1, &r2, &y1, &y2, &c, &s);
    assert!(result);
}

#[test]
fn toy_commitments_and_honest_answers_for_every_challenge() {
    let zkp = toy_group();
    let x = n(6);
    let k = n(7);
    let y1 = ZKP::exponentiate(&zkp.alpha, &x, &zkp.p);
    let y2 = ZKP::exponentiate(&zkp.beta, &x, &zkp.p);
    let r1 = ZKP::exponentiate(&zkp.alpha, &k, &zkp.p);
    let r2 = ZKP::exponentiate(&zkp.beta, &k, &zkp.p);
    for c in 0..11u64 {
        let c = n(c);
        let s = zkp.solve(&k, &c, &x);
        assert!(zkp.verify(&r1, &r2, &y1, &y2, &c, &s));
    }
}

#[test]
fn toy_wrong_secret_passes_only_challenge_zero() {
    let zkp = toy_group();
    let x = n(6);
    let k = n(7);
    let y1 = ZKP::exponentiate(&zkp.alpha, &x, &zkp.p);
    let y2 = ZKP::exponentiate(&zkp.beta, &x, &zkp.p);
    let r1 = ZKP::exponentiate(&zkp.alpha, &k, &zkp.p);
    let r2 = ZKP::exponentiate(&zkp.beta, &k, &zkp.p);
    for x_fake in 0..11u64 {
        if x_fake == 6 {
            continue;
        }
        for c in 0..11u64 {
            let s = zkp.solve(&k, &n(c), &n(x_fake));
            assert_eq!(zkp.verify(&r1, &r2, &y1, &y2, &n(c), &s), c == 0);
        }
    }
}

#[test]
fn solve_exact_values_on_both_branches() {
    let zkp = toy_group();
    // k >= c*x: (10 - 2*3) mod 11 = 4
    assert_eq!(zkp.solve(&n(10), &n(2), &n(3)), n(4));
    // k < c*x: (7 - 4*7) mod 11 = -21 mod 11 = 1
    assert_eq!(zkp.solve(&n(7), &n(4), &n(7)), n(1));
    // k >= c*x with a reduction: (30 - 1*3) mod 11 = 5
    assert_eq!(zkp.solve(&n(30), &n(1), &n(3)), n(5));
}

#[test]
fn solve_multiple_of_q_gives_zero_not_q() {
    let zkp = toy_group();
    // c*x - k = 22 - 0 is a multiple of 11: the response is 0
    assert_eq!(zkp.solve(&n(0), &n(2), &n(11)), n(0));
    // c*x - k = 33 - 11
    assert_eq!(zkp.solve(&n(11), &n(3), &n(11)), n(0));
}

#[test]
fn solve_stays_below_q() {
    let zkp = toy_group();
    for k in 0..25u64 {
        for c in 0..12u64 {
            for x in 0..12u64 {
                let s = zkp.solve(&n(k), &n(c), &n(x));
                let expected = ((k as i64 - (c * x) as i64).rem_euclid(11)) as u64;
                assert_eq!(s, n(expected));
            }
        }
    }
}

#[test]
fn verify_rejects_changed_commitment() {
    let zkp = toy_group();
    let x = n(6);
    let k = n(7);
    let c = n(4);
    let y1 = n(2);
    let y2 = n(3);
    let s = zkp.solve(&k, &c, &x);
    assert!(zkp.verify(&n(8), &n(4), &y1, &y2, &c, &s));
    // only the second equation broken
    assert!(!zkp.verify(&n(8), &n(5), &y1, &y2, &c, &s));
    // only the first equation broken
    assert!(!zkp.verify(&n(9), &n(4), &y1, &y2, &c, &s));
}

#[test]
fn exponentiate_exact_values() {
    assert_eq!(ZKP::exponentiate(&n(4), &n(0), &n(23)), n(1));
    assert_eq!(ZKP::exponentiate(&n(4), &n(11), &n(23)), n(1));
    assert_eq!(ZKP::exponentiate(&n(2), &n(10), &n(1000)), n(24));
    assert_eq!(ZKP::exponentiate(&n(5), &n(3), &n(1)), n(0));
    assert_eq!(ZKP::exponentiate(&n(3), &n(5), &n(16)), n(3));
}

#[test]
fn random_number_is_below_bound() {
    for _ in 0..50 {
        let r = ZKP::generate_random_number_below(&n(11));
        let bytes = r.to_bytes_be();
        assert_eq!(bytes.len(), 1);
        assert!(bytes[0] < 11);
    }
    assert_eq!(ZKP::generate_random_number_below(&n(1)), n(0));
}

#[test]
fn random_string_has_size_and_alphabet() {
    let s = ZKP::generate_random_string(12);
    assert_eq!(s.chars().count(), 12);
    assert!(s.chars().all(|ch| ch.is_ascii_alphanumeric()));
    assert_eq!(ZKP::generate_random_string(0), "");
}

#[test]
fn constants_decode_to_the_group() {
    let (alpha, beta, p, q) = ZKP::get_constants();
    assert_eq!(p.to_bytes_be(), hex::decode(MODULUS_HEX).unwrap());
    assert_eq!(q.to_bytes_be(), hex::decode(ORDER_HEX).unwrap());
    assert_eq!(p.to_bytes_be().len(), 128);
    assert_eq!(q.to_bytes_be().len(), 20);
    // both generators lie in the subgroup of order q
    assert_eq!(ZKP::exponentiate(&alpha, &q, &p), n(1));
    assert_eq!(ZKP::exponentiate(&beta, &q, &p), n(1));
    assert_ne!(alpha, beta);
}

#[test]
fn constants_support_a_full_proof() {
    let (alpha, beta, p, q) = ZKP::get_constants();
    let zkp = ZKP { p, q, alpha, beta };
    let x = BigNat::from_bytes_be(b"correct horse");
    let k = ZKP::generate_random_number_below(&zkp.q);
    let c = ZKP::generate_random_number_below(&zkp.q);
    let y1 = ZKP::exponentiate(&zkp.alpha, &x, &zkp.p);
    let y2 = ZKP::exponentiate(&zkp.beta, &x, &zkp.p);
    let r1 = ZKP::exponentiate(&zkp.alpha, &k, &zkp.p);
    let r2 = ZKP::exponentiate(&zkp.beta, &k, &zkp.p);
    let s = zkp.solve(&k, &c, &x);
    assert!(zkp.verify(&r1, &r2, &y1, &y2, &c, &s));
    let s_fake = zkp.solve(&k, &c, &BigNat::from_bytes_be(b"wrong horse"));
    if c != n(0) {
        assert!(!zkp.verify(&r1, &r2, &y1, &y2, &c, &s_fake));
    }
}

#[test]
fn bytes_round_trip_is_minimal() {
    assert_eq!(BigNat::from_bytes_be(&[0, 0, 1, 2]).to_bytes_be(), vec![1, 2]);
    assert_eq!(BigNat::from_bytes_be(&[]).to_bytes_be(), vec![0]);
    assert_eq!(BigNat::from_bytes_be(&[0, 0]).to_bytes_be(), vec![0]);
    assert_eq!(n(0x0102_0304).to_bytes_be(), vec![1, 2, 3, 4]);
    assert_eq!(n(u64::MAX).to_bytes_be(), vec![0xff; 8]);
    assert_eq!(BigNat::from_bytes_be(&[0, 7]), n(7));
    assert_ne!(n(7), n(8));
}
