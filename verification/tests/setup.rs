use zk_range_proofs::integer::Integer;
use zk_range_proofs::primes::{
    accept_safe_prime, are_coprime, has_size, pair_of_safe_primes, random_safe_prime, sample_generator_of_rsa_group,
    PairOfSafePrimes, MAX_SAFE_PRIME_BITS, MIN_SAFE_PRIME_BITS,
};
use zk_range_proofs::sampling::SampleFromMultiplicativeGroup;
use zk_range_proofs::setup::{
    PeerSetup, SetupFailure, ZkpPublicSetup, ZkpSetup, ZkpSetupProof, ZkpSetupVerificationError,
    DEFAULT_GROUP_ORDER_BIT_LENGTH, DEFAULT_SAFE_PRIME_BIT_LENGTH,
};

const SAFE_PRIME_P: &str = "87eced3b4923b9928746d48a3f960e1f789b793c7dd3609a803f9d207e42f3f2372cb0435c6874a39bee40ab9d61cc7770f04342c32c51ecf690cd22cec7f9a0ea5a9cd024a7e1bc86bfb0b5d3f46a0c8787c5971e084339cd56c1e5355265443db78cd4a6cfa94a11fc8a10e44039fd0442c3eedbe8a5eb0dbc225cc843f56b";
const SAFE_PRIME_Q: &str = "9d125e1af4890644a3a1a5fb1cc2650fe2c434f38f94a8bbe6918bc2cca0ea0905f177d80b9b8c934e603a2be7f5f5dc5fccd616826ddc4bdcaf333b477b4f982d0805e5cf2bd2dc7187a69cc54a145f792ed8c1a945c62269d1babbe8be5323736c900148321f1be09c9f3242c9d11486433c8dbb06db17e689302a4a9d27db";

fn num(n: u64) -> Integer {
    Integer::from_bytes(false, n.to_be_bytes().to_vec())
}

fn neg(n: u64) -> Integer {
    Integer::from_bytes(true, n.to_be_bytes().to_vec())
}

fn hex(s: &str) -> Integer {
    let digits: Vec<u8> = s.bytes().map(|c| (c as char).to_digit(16).unwrap() as u8).collect();
    let mut bytes = Vec::new();
    let mut i = digits.len() % 2;
    if i == 1 {
        bytes.push(digits[0]);
    }
    while i < digits.len() {
        bytes.push(digits[i] * 16 + digits[i + 1]);
        i += 2;
    }
    Integer::from_bytes(false, bytes)
}

fn pair(p: Integer, q: Integer) -> PairOfSafePrimes {
    let one = num(1);
    let two = num(2);
    PairOfSafePrimes {
        p_prim: p.sub(&one).div_floor(&two).unwrap(),
        q_prim: q.sub(&one).div_floor(&two).unwrap(),
        p,
        q,
    }
}

/// A setup over two safe primes of the default size.
fn default_size_setup() -> ZkpSetup {
    let primes = pair(hex(SAFE_PRIME_P), hex(SAFE_PRIME_Q));
    assert!(primes.is_valid());
    ZkpSetup::from_primes(&primes).unwrap()
}

/// The setup over the safe primes 23 and 47 with the generator 4 and the
/// secret exponent 5.
fn small_setup() -> ZkpSetup {
    ZkpSetup::assemble(&pair(num(23), num(47)), num(4), num(5)).unwrap()
}

#[test]
fn zkp_setup() {
    let zq = DEFAULT_GROUP_ORDER_BIT_LENGTH;
    assert_eq!(zq % 2, 0);
    assert_eq!(zq / 2, DEFAULT_SAFE_PRIME_BIT_LENGTH);
    let setup = default_size_setup();
    assert!(setup.p.mul(&setup.q).equals(&setup.N_tilda));
    assert!(setup.N_tilda.gcd(&setup.p).equals(&setup.p));
    assert!(setup.N_tilda.gcd(&setup.q).equals(&setup.q));
}

#[test]
fn zkp_setup_proof() {
    let setup = default_size_setup();
    assert!(setup.verify_setup());
    let pub_setup = ZkpPublicSetup::from_private_zkp_setup(&setup).unwrap();
    if let Err(e) = pub_setup.verify() {
        println!("{}", e.message());
        assert!(false);
    }
}

#[test]
fn setup_from_freshly_drawn_primes() {
    let setup = ZkpSetup::random(64).unwrap();
    assert!(setup.is_valid());
    assert!(setup.verify_setup());
    assert!(setup.p.mul(&setup.q).equals(&setup.N_tilda));
    let one = num(1);
    let two = num(2);
    let order = setup.p.sub(&one).div_floor(&two).unwrap().mul(&setup.q.sub(&one).div_floor(&two).unwrap());
    assert!(order.equals(&setup.order));
    assert!(one.le(&setup.alpha) && setup.alpha.lt(&setup.order));
    assert!(Integer::mod_pow(&setup.h1, &setup.order, &setup.N_tilda).equals(&one));
    let pub_setup = ZkpPublicSetup::from_private_zkp_setup(&setup);
    if let Ok(published) = pub_setup {
        assert!(published.verify().is_ok());
    }
}

#[test]
fn sizes_too_small_for_the_sampler_give_no_primes() {
    assert_eq!(MIN_SAFE_PRIME_BITS, 17);
    assert!(pair_of_safe_primes(16).is_none());
    assert!(pair_of_safe_primes(0).is_none());
    assert!(random_safe_prime(3).is_none());
    assert!(ZkpSetup::random(33).is_none());
}

#[test]
fn sizes_beyond_the_largest_give_no_primes() {
    assert_eq!(MAX_SAFE_PRIME_BITS, 0xFFFF_FFFF);
    assert!(random_safe_prime(usize::MAX).is_none());
    assert!(pair_of_safe_primes(usize::MAX).is_none());
    assert!(ZkpSetup::random(usize::MAX).is_none());
}

#[test]
fn drawn_primes_come_with_their_companions() {
    let primes = pair_of_safe_primes(40).unwrap();
    assert!(primes.is_valid());
    assert!(primes.p.equals(&num(2).mul(&primes.p_prim).add(&num(1))));
    assert!(primes.q.equals(&num(2).mul(&primes.q_prim).add(&num(1))));
    assert!(num(2).pow(39).le(&primes.p) && primes.p.lt(&num(2).pow(40)));
    assert!(has_size(&primes.q, 40));
}

#[test]
fn size_of_numbers() {
    assert!(has_size(&num(1), 1));
    assert!(!has_size(&num(0), 1));
    assert!(!has_size(&num(0), 0));
    assert!(has_size(&num(255), 8));
    assert!(!has_size(&num(256), 8));
    assert!(has_size(&num(128), 8));
    assert!(!has_size(&num(127), 8));
    assert!(!has_size(&neg(200), 8));
    assert!(has_size(&hex(SAFE_PRIME_P), 1024));
    assert!(has_size(&hex(SAFE_PRIME_Q), 1024));
}

#[test]
fn drawn_numbers_are_kept_if_odd_and_of_the_size() {
    let (p, half) = accept_safe_prime(num(23), 5).unwrap();
    assert!(p.equals(&num(23)) && half.equals(&num(11)));
    assert!(accept_safe_prime(num(23), 6).is_none());
    assert!(accept_safe_prime(num(23), 4).is_none());
    assert!(accept_safe_prime(num(22), 5).is_none());
    assert!(accept_safe_prime(num(3), 2).is_none());
    assert!(accept_safe_prime(num(23), usize::MAX).is_none());
}

#[test]
fn fresh_setup_has_primes_of_half_the_size() {
    let setup = ZkpSetup::random(80).unwrap();
    assert!(has_size(&setup.p, 40) && has_size(&setup.q, 40));
}

#[test]
fn pair_validity() {
    assert!(pair(num(23), num(47)).is_valid());
    let bad = PairOfSafePrimes { p: num(23), p_prim: num(10), q: num(47), q_prim: num(23) };
    assert!(!bad.is_valid());
    let tiny = PairOfSafePrimes { p: num(3), p_prim: num(1), q: num(47), q_prim: num(23) };
    assert!(!tiny.is_valid());
    let mut wiped = pair(num(23), num(47));
    wiped.zeroize();
    assert!(wiped.p.equals(&num(0)) && wiped.p_prim.equals(&num(0)));
    assert!(wiped.q.equals(&num(0)) && wiped.q_prim.equals(&num(0)));
}

#[test]
fn generator_of_the_quadratic_residues() {
    let p = num(23);
    let q = num(47);
    let n = num(1081);
    for _ in 0..10 {
        let h = sample_generator_of_rsa_group(&p, &q).unwrap();
        assert!(!h.is_negative() && h.lt(&n));
        assert!(are_coprime(&h.sub(&num(1)), &n));
        // the order of the quadratic residues is 11 * 23
        assert!(Integer::mod_pow(&h, &num(253), &n).equals(&num(1)));
    }
}

#[test]
fn assembled_setup_has_the_given_parts() {
    let setup = small_setup();
    assert!(setup.p.equals(&num(23)));
    assert!(setup.q.equals(&num(47)));
    assert!(setup.N_tilda.equals(&num(1081)));
    assert!(setup.order.equals(&num(253)));
    assert!(setup.alpha.equals(&num(5)));
    assert!(setup.h1.equals(&num(4)));
    assert!(setup.h2.equals(&num(1024)));
    assert!(setup.verify_setup());
    assert!(setup.is_valid());
}

#[test]
fn setup_is_refused_for_values_out_of_range() {
    let primes = pair(num(23), num(47));
    // alpha must lie in [1, 253)
    assert!(ZkpSetup::assemble(&primes, num(4), num(0)).is_none());
    assert!(ZkpSetup::assemble(&primes, num(4), num(253)).is_none());
    assert!(ZkpSetup::assemble(&primes, num(4), num(252)).is_some());
    // h1 must lie in [0, 1081)
    assert!(ZkpSetup::assemble(&primes, num(1085), num(5)).is_none());
    assert!(ZkpSetup::assemble(&primes, neg(4), num(5)).is_none());
    // 5 is no quadratic residue modulo 23: its power is not one
    assert!(ZkpSetup::assemble(&primes, num(5), num(5)).is_none());
}

#[test]
fn setup_with_a_small_modulus_or_order_is_not_valid() {
    let mut setup = small_setup();
    setup.N_tilda = num(2);
    assert!(!setup.is_valid());
    let mut setup = small_setup();
    setup.order = num(1);
    assert!(!setup.is_valid());
    let mut setup = small_setup();
    setup.order = num(2);
    setup.N_tilda = num(3);
    assert!(setup.is_valid());
}

#[test]
fn verify_setup_notices_a_wrong_h2() {
    let mut setup = small_setup();
    setup.h2 = num(1023);
    assert!(!setup.verify_setup());
}

#[test]
fn schnorr_proof_for_a_given_exponent() {
    let proof = ZkpSetup::dlog_proof_with(&num(1081), &num(4), &num(1024), &num(5), &num(253), &num(7));
    assert!(proof.V.equals(&num(169)));
    assert!(proof.challenge.equals(&hex("a6948719ead3f4d92516e1edb57b7d84c2f7d0f78639bf22d1dd383400532b52")));
    assert!(proof.r.equals(&neg(163)));
    assert!(ZkpPublicSetup::verify_proof(&num(1081), &num(4), &num(1024), &proof).is_ok());
}

#[test]
fn public_setup_for_given_exponents() {
    let setup = small_setup();
    let published = ZkpPublicSetup::from_private_with(&setup, &num(152), &num(7), &num(11));
    assert!(published.N_tilda.equals(&num(1081)));
    assert!(published.h1.equals(&num(4)));
    assert!(published.h2.equals(&num(1024)));
    assert!(published.dlog_proof.V.equals(&num(169)));
    assert!(published.dlog_proof.r.equals(&neg(163)));
    assert!(published.inv_dlog_proof.V.equals(&num(1059)));
    assert!(published.inv_dlog_proof.challenge.equals(&hex("68903dfc6dabe8182c1d8eb7ae205bd5804ad085fb13b8aa6f098f8f4676ec7d")));
    assert!(published.inv_dlog_proof.r.equals(&neg(57)));
    assert!(published.verify().is_ok());
    assert!(published.is_valid());
}

#[test]
fn fresh_schnorr_proof_verifies() {
    let proof = ZkpSetup::dlog_proof(&num(1081), &num(4), &num(1024), &num(5), &num(253));
    assert!(ZkpPublicSetup::verify_proof(&num(1081), &num(4), &num(1024), &proof).is_ok());
    assert!(!proof.V.is_negative() && proof.V.lt(&num(1081)));
}

#[test]
fn corrupted_setup_is_rejected_on_the_challenge() {
    let setup = small_setup();
    let mut published = ZkpPublicSetup::from_private_zkp_setup(&setup).unwrap();
    assert!(published.verify().is_ok());
    published.h2 = Integer::from_zkp_setup(&setup).unwrap().add(&num(2000));
    assert_eq!(published.verify(), Err(ZkpSetupVerificationError { kind: SetupFailure::ChallengeMismatch }));
}

#[test]
fn tampered_response_is_rejected_on_the_proof() {
    let setup = small_setup();
    let mut published = ZkpPublicSetup::from_private_with(&setup, &num(152), &num(7), &num(11));
    published.dlog_proof.r = neg(162);
    assert_eq!(published.verify(), Err(ZkpSetupVerificationError { kind: SetupFailure::ProofMismatch }));
    let mut second = ZkpPublicSetup::from_private_with(&setup, &num(152), &num(7), &num(11));
    second.inv_dlog_proof.r = neg(56);
    assert_eq!(second.verify(), Err(ZkpSetupVerificationError { kind: SetupFailure::ProofMismatch }));
    let mut third = ZkpPublicSetup::from_private_with(&setup, &num(152), &num(7), &num(11));
    third.inv_dlog_proof.challenge = num(1);
    assert_eq!(third.verify(), Err(ZkpSetupVerificationError { kind: SetupFailure::ChallengeMismatch }));
}

#[test]
fn degenerate_setup_is_rejected_on_the_inverse_proof() {
    // h2 = 1 is h1 to the power 0, but h1 is no power of it
    let n = num(1081);
    let h1 = num(4);
    let h2 = num(1);
    let order = num(253);
    let dlog_proof = ZkpSetup::dlog_proof_with(&n, &h1, &h2, &num(0), &order, &num(7));
    assert!(ZkpPublicSetup::verify_proof(&n, &h1, &h2, &dlog_proof).is_ok());
    let inv_dlog_proof = ZkpSetup::dlog_proof_with(&n, &h2, &h1, &num(3), &order, &num(11));
    let published = ZkpPublicSetup { N_tilda: n, h1, h2, dlog_proof, inv_dlog_proof };
    assert_eq!(published.verify(), Err(ZkpSetupVerificationError { kind: SetupFailure::ProofMismatch }));
}

#[test]
fn response_raised_by_one_is_rejected() {
    let fresh = ZkpSetup::dlog_proof(&num(1081), &num(4), &num(1024), &num(5), &num(253));
    assert!(ZkpPublicSetup::verify_proof(&num(1081), &num(4), &num(1024), &fresh).is_ok());
    let raised = ZkpSetupProof { V: fresh.V.clone(), challenge: fresh.challenge.clone(), r: fresh.r.add(&num(1)) };
    assert_eq!(
        ZkpPublicSetup::verify_proof(&num(1081), &num(4), &num(1024), &raised),
        Err(ZkpSetupVerificationError { kind: SetupFailure::ProofMismatch })
    );
    // responses that are not negative: the logarithm is zero
    for v in [4u64, 7, 900] {
        let given = ZkpSetup::dlog_proof_with(&num(1081), &num(4), &num(1), &num(0), &num(253), &num(v));
        assert!(given.r.equals(&num(v % 253)));
        assert!(ZkpPublicSetup::verify_proof(&num(1081), &num(4), &num(1), &given).is_ok());
        let raised = ZkpSetupProof { V: given.V.clone(), challenge: given.challenge.clone(), r: given.r.add(&num(1)) };
        assert!(ZkpPublicSetup::verify_proof(&num(1081), &num(4), &num(1), &raised).is_err());
    }
}

#[test]
fn proof_over_a_degenerate_modulus_is_rejected() {
    let n = num(1);
    let v = num(0);
    let proof = ZkpSetup::dlog_proof_with(&n, &num(4), &num(1024), &num(5), &num(253), &num(7));
    assert!(proof.V.equals(&v));
    assert_eq!(
        ZkpPublicSetup::verify_proof(&n, &num(4), &num(1024), &proof),
        Err(ZkpSetupVerificationError { kind: SetupFailure::ProofMismatch })
    );
}

#[test]
fn response_without_inverse_is_rejected() {
    // 23 divides 1081, so no power of 23 has an inverse
    let n = num(1081);
    let h1 = num(23);
    let h2 = num(4);
    let v = num(500);
    let c = zk_range_proofs::hashing::HSha512Trunc256::create_hash(&vec![n.clone(), v.clone(), h1.clone(), h2.clone()]);
    let proof = ZkpSetupProof { V: v, challenge: c, r: neg(3) };
    assert_eq!(
        ZkpPublicSetup::verify_proof(&n, &h1, &h2, &proof),
        Err(ZkpSetupVerificationError { kind: SetupFailure::ProofMismatch })
    );
}

#[test]
fn exponent_without_inverse_gives_no_public_setup() {
    // 11 divides the order 253
    let setup = ZkpSetup::assemble(&pair(num(23), num(47)), num(4), num(11)).unwrap();
    match ZkpPublicSetup::from_private_zkp_setup(&setup) {
        Err(e) => assert_eq!(e.kind, SetupFailure::InvAlphaNonInvertible),
        Ok(_) => panic!("alpha has no inverse"),
    }
}

#[test]
fn errors_in_words() {
    let e = ZkpSetupVerificationError { kind: SetupFailure::ChallengeMismatch };
    assert_eq!(e.message(), "zkp setup verification: dlog proof: challenge does not match");
    let e = ZkpSetupVerificationError { kind: SetupFailure::ProofMismatch };
    assert_eq!(e.message(), "zkp setup verification: Dlog proof failed");
    let e = ZkpSetupVerificationError { kind: SetupFailure::InvAlphaNonInvertible };
    assert_eq!(e.message(), "zkp setup verification: alpha non invertible");
}

#[test]
fn wiped_setups_hold_zeros() {
    let mut setup = small_setup();
    let mut published = ZkpPublicSetup::from_private_with(&setup, &num(152), &num(7), &num(11));
    setup.zeroize();
    assert!(setup.p.equals(&num(0)) && setup.q.equals(&num(0)));
    assert!(setup.order.equals(&num(0)) && setup.alpha.equals(&num(0)));
    assert!(setup.N_tilda.equals(&num(0)) && setup.h1.equals(&num(0)) && setup.h2.equals(&num(0)));
    assert!(setup.alpha.magnitude.is_empty());
    assert!(!setup.is_valid());
    published.zeroize();
    assert!(published.N_tilda.equals(&num(0)) && published.h1.equals(&num(0)) && published.h2.equals(&num(0)));
    assert!(!published.is_valid());
}

#[test]
fn units_of_a_setup() {
    let setup = small_setup();
    let published = ZkpPublicSetup::from_private_with(&setup, &num(152), &num(7), &num(11));
    let a = Integer::from_zkp_setup(&setup).unwrap();
    let b = Integer::from_zkp_public_setup(&published).unwrap();
    assert!(are_coprime(&a, &num(1081)) && a.lt(&num(1081)));
    assert!(are_coprime(&b, &num(1081)) && b.lt(&num(1081)));
}

#[test]
fn peer_setup_is_used_only_once_verified() {
    let setup = small_setup();
    let published = ZkpPublicSetup::from_private_with(&setup, &num(152), &num(7), &num(11));
    let peer = PeerSetup::receive(published);
    assert!(peer.for_proofs().is_none());
    assert!(peer.rejection().is_none());
    let peer = peer.verify();
    assert!(peer.for_proofs().unwrap().h2.equals(&num(1024)));
    assert!(peer.rejection().is_none());
    // verifying again changes nothing
    let peer = peer.verify();
    assert!(peer.for_proofs().is_some());
}

#[test]
fn rejected_peer_setup_stays_rejected() {
    let setup = small_setup();
    let mut published = ZkpPublicSetup::from_private_with(&setup, &num(152), &num(7), &num(11));
    published.h2 = num(1023);
    let peer = PeerSetup::receive(published).verify();
    assert!(peer.for_proofs().is_none());
    assert_eq!(peer.rejection(), Some(ZkpSetupVerificationError { kind: SetupFailure::ChallengeMismatch }));
    let peer = peer.verify();
    assert!(peer.for_proofs().is_none());
    assert_eq!(peer.rejection().unwrap().kind, SetupFailure::ChallengeMismatch);
}
