use zk_range_proofs::curve::curve_order;
use zk_range_proofs::hashing::{HSha512Trunc256, MAX_NONCE_ATTEMPTS};
use zk_range_proofs::integer::Integer;

fn num(n: u64) -> Integer {
    Integer::from_bytes(false, n.to_be_bytes().to_vec())
}

fn hex(s: &str) -> Integer {
    let digits: Vec<u8> = s.bytes().map(|c| (c as char).to_digit(16).unwrap() as u8).collect();
    let mut bytes = Vec::new();
    let mut i = digits.len() % 2;
    if i == 1 {
        bytes.push(digits[0]);
    }
    while i < digits.len() {
        bytes.push(digits[i] * 16 + digits[i + 1]);
        i += 2;
    }
    Integer::from_bytes(false, bytes)
}

#[test]
fn hash_algorithm_compliant() {
    assert!(HSha512Trunc256::can_handle_curve_modulo(&curve_order()))
}

#[test]
fn moduli_of_other_sizes_are_not_covered() {
    assert!(!HSha512Trunc256::can_handle_curve_modulo(&num(u64::MAX)));
    assert!(!HSha512Trunc256::can_handle_curve_modulo(&num(2).pow(256)));
    assert!(HSha512Trunc256::can_handle_curve_modulo(&num(2).pow(255)));
    assert!(!HSha512Trunc256::can_handle_curve_modulo(&num(2).pow(255).sub(&num(1))));
    assert!(HSha512Trunc256::can_handle_curve_modulo(&num(2).pow(256).sub(&num(1))));
}

#[test]
fn hash_of_the_standard_message() {
    // SHA-512/256 of the three bytes "abc"
    let h = HSha512Trunc256::create_hash(&vec![num(0x616263)]);
    assert!(h.equals(&hex("53048e2681941ef99b2e29b76b4c7dabe4c2d0c634fc6d46e0e2f13107e7af23")));
}

#[test]
fn hash_of_several_integers() {
    let zero = HSha512Trunc256::create_hash(&vec![num(0)]);
    assert!(zero.equals(&hex("10baad1713566ac2333467bddb0597dec9066120dd72ac2dcb8394221dcbe43d")));
    let xs = vec![num(1), Integer::from_bytes(true, vec![2]), num(0), num(300)];
    let h = HSha512Trunc256::create_hash(&xs);
    assert!(h.equals(&hex("c1136aa1c94288f391f6f828eded260f23dd7d10dff1c51e983a33f48d29c2fc")));
}

#[test]
fn hash_depends_on_values_not_on_bytes() {
    let a = HSha512Trunc256::create_hash(&vec![Integer::from_bytes(false, vec![0, 0, 7]), num(9)]);
    let b = HSha512Trunc256::create_hash(&vec![num(7), num(9)]);
    assert!(a.equals(&b));
}

#[test]
fn hash_with_nonce_appends_the_nonce() {
    let xs = vec![num(1), Integer::from_bytes(true, vec![2]), num(0)];
    let (h, n) = HSha512Trunc256::create_hash_with_nonce(&xs, &num(300));
    assert!(n.equals(&num(300)));
    assert!(h.equals(&hex("c1136aa1c94288f391f6f828eded260f23dd7d10dff1c51e983a33f48d29c2fc")));
}

#[test]
fn verifier_derives_the_challenge_of_the_prover() {
    let xs = vec![num(11), num(22), num(33)];
    let (e, nonce) = HSha512Trunc256::create_hash_with_random_nonce(&xs);
    let again = HSha512Trunc256::create_hash_with_nonce(&xs, &nonce);
    assert!(again.0.equals(&e));
    assert!(again.1.equals(&nonce));
    assert!(nonce.lt(&num(2).pow(256)));
}

#[test]
fn bounded_challenge_is_below_the_bound() {
    let xs = vec![num(11), num(22), num(33)];
    let q = curve_order();
    let (e, nonce) = HSha512Trunc256::create_hash_bounded_by_q(&xs, &q).unwrap();
    assert!(e.lt(&q));
    let again = HSha512Trunc256::create_hash_with_nonce(&xs, &nonce);
    assert!(again.0.equals(&e));
}

#[test]
fn bound_of_more_than_256_bits_is_met_by_the_first_nonce() {
    let xs = vec![num(11), num(22), num(33)];
    for _ in 0..20 {
        let (e, nonce) = HSha512Trunc256::create_hash_bounded_by_q(&xs, &num(2).pow(256)).unwrap();
        assert!(e.lt(&num(2).pow(256)));
        assert!(HSha512Trunc256::create_hash_with_nonce(&xs, &nonce).0.equals(&e));
    }
}

#[test]
fn challenges_have_at_most_256_bits() {
    let bound = num(2).pow(256);
    for i in 0..50 {
        let h = HSha512Trunc256::create_hash(&vec![num(i)]);
        assert!(!h.is_negative() && h.lt(&bound));
    }
}

#[test]
fn bounded_challenge_is_given_up_where_none_fits() {
    let xs = vec![num(11)];
    assert!(HSha512Trunc256::create_hash_bounded_by_q(&xs, &num(0)).is_none());
    assert_eq!(MAX_NONCE_ATTEMPTS, 256);
}

#[test]
fn nonce_is_accepted_where_the_challenge_fits() {
    let xs = vec![num(1), Integer::from_bytes(true, vec![2]), num(0)];
    let c = hex("c1136aa1c94288f391f6f828eded260f23dd7d10dff1c51e983a33f48d29c2fc");
    assert!(HSha512Trunc256::accept_nonce(&xs, &num(300), &c).is_none());
    let (e, n) = HSha512Trunc256::accept_nonce(&xs, &num(300), &c.add(&num(1))).unwrap();
    assert!(e.equals(&c) && n.equals(&num(300)));
}
