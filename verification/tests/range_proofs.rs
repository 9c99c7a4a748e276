use zk_range_proofs::alice::{AliceProof, AliceZkpInit, AliceZkpRound1, AliceZkpRound2, MessageA};
use zk_range_proofs::bob::{
    BobProof, BobProofExt, BobProofType, BobZkpInit, BobZkpRound1, BobZkpRound2, MTAMode, MessageB,
};
use zk_range_proofs::curve::{curve_order, Point};
use zk_range_proofs::encryption::EncryptionKey;
use zk_range_proofs::hashing::HSha512Trunc256;
use zk_range_proofs::integer::Integer;
use zk_range_proofs::primes::PairOfSafePrimes;
use zk_range_proofs::setup::{PeerSetup, ZkpPublicSetup, ZkpSetup};
use zk_range_proofs::verification::{Equation, ProofVerificationError};

const SAFE_PRIMES: [&str; 4] = [
    "87eced3b4923b9928746d48a3f960e1f789b793c7dd3609a803f9d207e42f3f2372cb0435c6874a39bee40ab9d61cc7770f04342c32c51ecf690cd22cec7f9a0ea5a9cd024a7e1bc86bfb0b5d3f46a0c8787c5971e084339cd56c1e5355265443db78cd4a6cfa94a11fc8a10e44039fd0442c3eedbe8a5eb0dbc225cc843f56b",
    "9d125e1af4890644a3a1a5fb1cc2650fe2c434f38f94a8bbe6918bc2cca0ea0905f177d80b9b8c934e603a2be7f5f5dc5fccd616826ddc4bdcaf333b477b4f982d0805e5cf2bd2dc7187a69cc54a145f792ed8c1a945c62269d1babbe8be5323736c900148321f1be09c9f3242c9d11486433c8dbb06db17e689302a4a9d27db",
    "9e5c0a629ad0fe732d717282c0aec9593f098d14fb3ab511933773985460aab0acb30b495dfb776ec5077df5399365400dd1071d86eff261ecb41ba82eb7a25208ea605456eca296477d7698df637e268ca372ac8f1f8e7e9e99cf4aaa4fda2b5d8c84fba070e2ddcb03343d9c0997c18a042a3a04b61e83d60b5ae47dd3d287",
    "9fb6ad82423ccacf056f649aea91e32903dc1b30b0926bdb87b76ac7eb1a60a922d7fce9afd136a4a8174a7168065aec06d530b69f55f57a48ea3d2460c80ca3819fcdda76095b27d048c05a6f441ff2b9bf738b10429c6e60d578badabbe2f411fc2f5428a2d89713223e3a54369f344fdb583f63016189bec283f10082b39b",
];
const PAILLIER_P: &str = "a5624b21c11f92f0922be2d86f486aeeb6c4bc9abd884136932975295b683f599f2fe1f64de3ab69acd8d5d8a50d43eeeb3c4432e303797e82df69ad98d470497d60891b0242d91ad40214f5898c1ada74fd742fc610bb9fbf027b146523e0e79bb9b224b67bc9cc3b18326bd84aa4bef7d51fc20d6e0b3322357056362aaf2f";
const PAILLIER_Q: &str = "a88cdb77d951a8ab837332dcd71db50e44957c9bdf16588fb142702bda27f139c12c5f817478908d08c532b223f0c126bc0b81d5d5c3e9571be860de46aad9097ecb63e0962c6b007e1c584b29d10d2fb8ad64f860d7a000752c821574cf6a3b302753051d83b88c20092fa5c753547ff60fc1297e68af6c906be5ac5b51c173";

fn num(n: u64) -> Integer {
    Integer::from_bytes(false, n.to_be_bytes().to_vec())
}

fn hex(s: &str) -> Integer {
    let digits: Vec<u8> = s.bytes().map(|c| (c as char).to_digit(16).unwrap() as u8).collect();
    let mut bytes = Vec::new();
    let mut i = digits.len() % 2;
    if i == 1 {
        bytes.push(digits[0]);
    }
    while i < digits.len() {
        bytes.push(digits[i] * 16 + digits[i + 1]);
        i += 2;
    }
    Integer::from_bytes(false, bytes)
}

fn pair(p: Integer, q: Integer) -> PairOfSafePrimes {
    let one = num(1);
    let two = num(2);
    PairOfSafePrimes {
        p_prim: p.sub(&one).div_floor(&two).unwrap(),
        q_prim: q.sub(&one).div_floor(&two).unwrap(),
        p,
        q,
    }
}

struct AliceOrBob {
    paillier_p: Integer,
    paillier_q: Integer,
    ek: EncryptionKey,
    zkp_setup: ZkpSetup,
}

impl AliceOrBob {
    fn new(first: usize) -> Self {
        let p = hex(PAILLIER_P);
        let q = hex(PAILLIER_Q);
        Self {
            ek: EncryptionKey::new(p.mul(&q)).unwrap(),
            paillier_p: p,
            paillier_q: q,
            zkp_setup: ZkpSetup::from_primes(&pair(hex(SAFE_PRIMES[first]), hex(SAFE_PRIMES[first + 1]))).unwrap(),
        }
    }

    /// Paillier decryption with the factors of the modulus: with lambda =
    /// (p - 1)(q - 1), the plaintext is L(c^lambda mod n^2) / lambda mod n,
    /// where L(x) = (x - 1) / n.
    fn decrypt(&self, c: &Integer) -> Integer {
        let one = num(1);
        let n = &self.ek.n;
        let lambda = self.paillier_p.sub(&one).mul(&self.paillier_q.sub(&one));
        let l = Integer::mod_pow(c, &lambda, &self.ek.nn).sub(&one).div_floor(n).unwrap();
        l.mul(&lambda.mod_inv(n).unwrap()).reduce(n)
    }
}

fn random_share() -> Integer {
    Integer::sample_below(&curve_order())
}

/// The setup over the safe primes 23 and 47 with the generator 4 and the
/// secret exponent 5, and its public part.
fn small_setup() -> (ZkpSetup, ZkpPublicSetup) {
    let setup = ZkpSetup::assemble(&pair(num(23), num(47)), num(4), num(5)).unwrap();
    let published = ZkpPublicSetup::from_private_with(&setup, &num(152), &num(7), &num(11));
    (setup, published)
}

fn small_key() -> EncryptionKey {
    EncryptionKey::new(num(77)).unwrap()
}

fn small_alice_proof() -> AliceProof {
    let (_, published) = small_setup();
    let init = AliceZkpInit {
        alice_pk: small_key(),
        bob_setup: published,
        alpha: num(10),
        beta: num(2),
        gamma: num(20),
        ro: num(30),
    };
    AliceProof::generate_with(&init, &num(9), &num(3), &num(2390), &num(5))
}

fn small_bob_init() -> BobZkpInit {
    let (_, published) = small_setup();
    BobZkpInit {
        alice_ek: small_key(),
        alice_setup: published,
        alpha: num(10),
        beta: num(2),
        gamma: num(4),
        ro: num(30),
        ro_prim: num(31),
        sigma: num(32),
        tau: num(33),
    }
}

fn small_bob_proof() -> BobProof {
    BobProof::generate_with(&small_bob_init(), &num(17), &num(2390), &num(4317), &num(6), &num(12), &num(3))
}

#[test]
fn alice_zkp() {
    let bob = AliceOrBob::new(0);
    let bob_setup = &bob.zkp_setup;
    let bob_public_setup = ZkpPublicSetup::from_private_zkp_setup(bob_setup).unwrap();

    // Alice private
    let (message, public_paillier_key) = {
        let alice = AliceOrBob::new(2);
        let a = random_share();
        (MessageA::new(&a, &alice.ek, Some(&bob_public_setup)).unwrap(), alice.ek.clone())
    };

    assert!(message.range_proof.is_some());
    let proof = message.range_proof.unwrap();
    // Bob
    assert!(proof.verify(&message.c, &public_paillier_key, bob_setup));
}

#[test]
fn bob_zkp() {
    let alice = (AliceOrBob::new(0), random_share());
    let alice_public_zkp_setup = &ZkpPublicSetup::from_private_zkp_setup(&alice.0.zkp_setup).unwrap();
    let alice_public_key = &alice.0.ek;
    let bob = (AliceOrBob::new(2), random_share());
    let bob_public_zkp_setup = &ZkpPublicSetup::from_private_zkp_setup(&bob.0.zkp_setup).unwrap();

    // Simulate Alice
    let msga = MessageA::new(&alice.1, &alice.0.ek, Some(bob_public_zkp_setup)).unwrap();

    // Bob proves
    let (msgb, _beta) =
        MessageB::new(&bob.1, alice_public_key, Some(alice_public_zkp_setup), &msga, MTAMode::MtAwc).unwrap();

    match msgb.proof {
        BobProofType::RangeProofExt(proof) => {
            // Alice verifies
            assert!(proof.verify(&msga.c, &msgb.c, alice_public_key, &alice.0.zkp_setup));
        }
        _ => assert!(false, ""),
    }
}

#[test]
fn bob_plain_round_trip() {
    let alice = AliceOrBob::new(0);
    let published = ZkpPublicSetup::from_private_zkp_setup(&alice.zkp_setup).unwrap();
    let msga = MessageA::new(&random_share(), &alice.ek, None).unwrap();
    assert!(msga.range_proof.is_none());
    let b = random_share();
    let (msgb, _) = MessageB::new(&b, &alice.ek, Some(&published), &msga, MTAMode::MtA).unwrap();
    match msgb.proof {
        BobProofType::RangeProof(proof) => {
            assert!(proof.e.0.lt(&curve_order()));
            assert_eq!(proof.check(&msga.c, &msgb.c, &alice.ek, &alice.zkp_setup), Ok(()));
            assert!(proof.verify(&msga.c, &msgb.c, &alice.ek, &alice.zkp_setup));
        }
        _ => panic!("the plain mode attaches the plain proof"),
    }
}

#[test]
fn share_conversion_adds_up() {
    let alice = AliceOrBob::new(0);
    let published = ZkpPublicSetup::from_private_zkp_setup(&alice.zkp_setup).unwrap();
    let q = curve_order();
    let a = random_share();
    let b = random_share();
    let msga = MessageA::new(&a, &alice.ek, None).unwrap();
    assert!(alice.decrypt(&msga.c).equals(&a));
    let (msgb, beta) = MessageB::new(&b, &alice.ek, Some(&published), &msga, MTAMode::MtAwc).unwrap();
    let alpha = alice.decrypt(&msgb.c).reduce(&q);
    assert!(alpha.add(&beta).reduce(&q).equals(&a.mul(&b).reduce(&q)));
    assert!(!beta.is_negative() && beta.lt(&q));
}

#[test]
fn converted_ciphertext_decrypts_to_the_product_and_the_mask() {
    let alice = AliceOrBob::new(0);
    let a = random_share();
    let b = random_share();
    let beta_prim = Integer::sample_below(&alice.ek.n);
    let c1 = alice.ek.encrypt(&a, &alice.ek.sample_randomness());
    let (c2, beta) = MessageB::convert(&b, &alice.ek, &c1, &beta_prim, &alice.ek.sample_randomness());
    assert!(alice.decrypt(&c2).equals(&a.mul(&b).add(&beta_prim).reduce(&alice.ek.n)));
    let q = curve_order();
    assert!(beta.add(&beta_prim).reduce(&q).equals(&num(0)));
}

#[test]
fn conversion_of_small_values() {
    let (c2, beta) = MessageB::convert(&num(6), &small_key(), &num(2390), &num(12), &num(3));
    assert!(c2.equals(&num(4317)));
    assert!(beta.equals(&hex("fffffffffffffffffffffffffffffffebaaedce6af48a03bbfd25e8cd0364135")));
    let (_, none) = MessageB::convert(&num(6), &small_key(), &num(2390), &num(0), &num(3));
    assert!(none.equals(&num(0)));
}

#[test]
fn messages_without_a_setup_carry_no_range_proof() {
    let alice = AliceOrBob::new(0);
    let msga = MessageA::new(&random_share(), &alice.ek, None).unwrap();
    assert!(msga.range_proof.is_none());
    let b = random_share();
    let (msgb, _) = MessageB::new(&b, &alice.ek, None, &msga, MTAMode::MtAwc).unwrap();
    match msgb.proof {
        BobProofType::DLogProofs(proofs) => {
            assert!(proofs.b_proof.pk.equals(&Point::generator_times(&b).unwrap()));
            assert!(proofs.b_proof.pk.is_valid());
            assert!(proofs.beta_tag_proof.pk.is_valid());
        }
        _ => panic!("without a setup only discrete logarithm proofs are attached"),
    }
    let (plain, _) = MessageB::new(&b, &alice.ek, None, &msga, MTAMode::MtA).unwrap();
    assert!(matches!(plain.proof, BobProofType::DLogProofs(_)));
}

#[test]
fn alice_proof_for_given_randomness() {
    let proof = small_alice_proof();
    assert!(proof.z.equals(&num(880)));
    assert!(proof.u.equals(&num(5793)));
    assert!(proof.w.equals(&num(484)));
    assert!(proof.e.0.equals(&hex("e5bbcb96b233555515f533d8aad0c6a53998c75ff51a2a9f31e6de25c3f8ac69")));
    assert!(proof.e.1.equals(&num(9)));
    assert!(proof.s.equals(&num(24)));
    assert!(proof.s1.equals(&hex("2b13362c41699ffff41df9b8a007253efacca561fdf4e7fdd95b49a714bea0545")));
    assert!(proof.s2.equals(&hex("1aec01dba8e203fff892bc13640477475cbfe75d3eb910fea7d90e086cf7243462")));
    let (setup, _) = small_setup();
    assert_eq!(proof.check(&num(2390), &small_key(), &setup), Ok(()));
    assert!(proof.verify(&num(2390), &small_key(), &setup));
    let copy = proof.clone();
    assert!(copy.verify(&num(2390), &small_key(), &setup));
}

#[test]
fn alice_rounds_for_given_randomness() {
    let (_, published) = small_setup();
    let mut init = AliceZkpInit {
        alice_pk: small_key(),
        bob_setup: published,
        alpha: num(10),
        beta: num(2),
        gamma: num(20),
        ro: num(30),
    };
    assert!(init.N().equals(&num(77)));
    assert!(init.NN().equals(&num(5929)));
    assert!(init.N_tilda().equals(&num(1081)));
    assert!(init.h1().equals(&num(4)));
    assert!(init.h2().equals(&num(1024)));
    let round1 = AliceZkpRound1::from(&init, &num(3));
    assert!(round1.z.equals(&num(880)) && round1.u.equals(&num(5793)) && round1.w.equals(&num(484)));
    let round2 = AliceZkpRound2::from(&init, &num(2), &num(3), &num(5));
    // 5^2 * 2 mod 77, 2 * 3 + 10, 2 * 30 + 20
    assert!(round2.s.equals(&num(50)) && round2.s1.equals(&num(16)) && round2.s2.equals(&num(80)));
    init.zeroize();
    assert!(init.alpha.equals(&num(0)) && init.beta.equals(&num(0)));
    assert!(init.gamma.equals(&num(0)) && init.ro.equals(&num(0)));
    assert!(init.N().equals(&num(0)) && init.NN().equals(&num(0)) && init.N_tilda().equals(&num(0)));
}

#[test]
fn alice_randomness_lies_in_its_ranges() {
    let (_, published) = small_setup();
    let q = num(7);
    for _ in 0..10 {
        let init = AliceZkpInit::random(&small_key(), &published, &q).unwrap();
        assert!(init.alpha.lt(&num(343)) && !init.alpha.is_negative());
        assert!(init.beta.lt(&num(77)) && init.beta.gcd(&num(77)).equals(&num(1)));
        assert!(init.gamma.lt(&num(343 * 1081)));
        assert!(init.ro.lt(&num(7 * 1081)));
    }
}

#[test]
fn alice_proof_with_fresh_randomness_has_a_bounded_challenge() {
    let (setup, published) = small_setup();
    let q = curve_order();
    let key = small_key();
    let cipher = key.encrypt(&num(3), &num(5));
    let proof = AliceProof::generate(&num(3), &cipher, &key, &published, &num(5), &q).unwrap();
    assert!(proof.e.0.lt(&q));
    assert!(proof.verify(&cipher, &key, &setup));
}

#[test]
fn alice_response_above_the_range_is_rejected() {
    let (setup, _) = small_setup();
    let mut proof = small_alice_proof();
    proof.s1 = curve_order().pow(3).add(&num(1));
    assert_eq!(proof.check(&num(2390), &small_key(), &setup), Err(ProofVerificationError::RangeExceeded));
    assert!(!proof.verify(&num(2390), &small_key(), &setup));
    // the bound itself is in range: the proof then fails on an equation
    proof.s1 = curve_order().pow(3);
    assert_eq!(
        proof.check(&num(2390), &small_key(), &setup),
        Err(ProofVerificationError::EquationMismatch(Equation::AliceW))
    );
}

#[test]
fn alice_proof_for_another_ciphertext_is_rejected_on_the_hash() {
    let (setup, _) = small_setup();
    let proof = small_alice_proof();
    assert_eq!(proof.check(&num(2391), &small_key(), &setup), Err(ProofVerificationError::HashMismatch));
}

#[test]
fn alice_proof_with_any_field_changed_is_rejected() {
    let (setup, _) = small_setup();
    let key = small_key();
    let c = num(2390);
    let one = num(1);
    let hash = Err(ProofVerificationError::HashMismatch);

    let mut p = small_alice_proof();
    p.z = p.z.add(&one);
    assert_eq!(p.check(&c, &key, &setup), hash);
    let mut p = small_alice_proof();
    p.u = p.u.add(&one);
    assert_eq!(p.check(&c, &key, &setup), hash);
    let mut p = small_alice_proof();
    p.w = p.w.add(&one);
    assert_eq!(p.check(&c, &key, &setup), hash);
    let mut p = small_alice_proof();
    p.e.0 = p.e.0.add(&one);
    assert_eq!(p.check(&c, &key, &setup), hash);
    let mut p = small_alice_proof();
    p.e.1 = p.e.1.add(&one);
    assert_eq!(p.check(&c, &key, &setup), hash);
    let mut p = small_alice_proof();
    p.s = p.s.add(&one);
    assert_eq!(p.check(&c, &key, &setup), Err(ProofVerificationError::EquationMismatch(Equation::AliceU)));
    let mut p = small_alice_proof();
    p.s1 = p.s1.add(&one);
    assert_eq!(p.check(&c, &key, &setup), Err(ProofVerificationError::EquationMismatch(Equation::AliceW)));
    let mut p = small_alice_proof();
    p.s2 = p.s2.add(&one);
    assert_eq!(p.check(&c, &key, &setup), Err(ProofVerificationError::EquationMismatch(Equation::AliceW)));
    assert!(!p.verify(&c, &key, &setup));
}

#[test]
fn alice_proof_without_inverse_is_rejected() {
    let (setup, _) = small_setup();
    let key = small_key();
    let c = num(2390);
    let mut p = small_alice_proof();
    // 23 divides 1081, so no power of it has an inverse
    p.z = num(23);
    let inputs = vec![num(77), num(78), c.clone(), p.z.clone(), p.u.clone(), p.w.clone()];
    p.e = HSha512Trunc256::create_hash_with_nonce(&inputs, &num(9));
    assert_eq!(p.check(&c, &key, &setup), Err(ProofVerificationError::NonInvertible));
    // a ciphertext that shares the factor 7 with the modulus
    let mut p = small_alice_proof();
    let c = num(7);
    let inputs = vec![num(77), num(78), c.clone(), p.z.clone(), p.u.clone(), p.w.clone()];
    p.e = HSha512Trunc256::create_hash_with_nonce(&inputs, &num(9));
    let found = p.check(&c, &key, &setup);
    assert!(found == Err(ProofVerificationError::NonInvertible)
        || found == Err(ProofVerificationError::EquationMismatch(Equation::AliceW)));
}

#[test]
fn bob_proof_for_given_randomness() {
    let proof = small_bob_proof();
    assert!(proof.z.equals(&num(108)));
    assert!(proof.z_prim.equals(&num(162)));
    assert!(proof.t.equals(&num(353)));
    assert!(proof.w.equals(&num(394)));
    assert!(proof.v.equals(&num(5903)));
    assert!(proof.e.0.equals(&hex("920a652ddc29ff7e51e72fa4a085ce394e18b42f1cb66badb2c5aa33a4427337")));
    assert!(proof.e.1.equals(&num(17)));
    assert!(proof.s.equals(&num(76)));
    assert!(proof.s1.equals(&hex("36c3e5f1328fbfcf5eb6b1ddbc322d557d494391aac46861230a1fd35d98eb354")));
    assert!(proof.s2.equals(&hex("111d37db5fccebf0cd9917954acfae2ab726e51d855d609e5af329f20d3fc98091")));
    assert!(proof.t1.equals(&hex("6d87cbe2651f7f9ebd6d63bb78645aaafa9287235588d0c246143fa6bb31d6698")));
    assert!(proof.t2.equals(&hex("12414ca5bb853fefca3ce5f49410b9c729c31685e396cd75b658b54674884e6701")));
    let (setup, _) = small_setup();
    assert_eq!(proof.check(&num(2390), &num(4317), &small_key(), &setup), Ok(()));
    assert!(proof.verify(&num(2390), &num(4317), &small_key(), &setup));
    assert!(proof.clone().verify(&num(2390), &num(4317), &small_key(), &setup));
}

#[test]
fn bob_rounds_for_given_randomness() {
    let mut init = small_bob_init();
    assert!(init.N().equals(&num(77)));
    assert!(init.Gen().equals(&num(78)));
    assert!(init.NN().equals(&num(5929)));
    assert!(init.N_tilda().equals(&num(1081)));
    assert!(init.h1().equals(&num(4)));
    assert!(init.h2().equals(&num(1024)));
    let round1 = BobZkpRound1::from(&init, &num(6), &num(12), &num(2390));
    assert!(round1.z.equals(&num(108)) && round1.z_prim.equals(&num(162)));
    assert!(round1.t.equals(&num(353)) && round1.w.equals(&num(394)) && round1.v.equals(&num(5903)));
    let round2 = BobZkpRound2::from(&init, &num(2), &num(6), &num(12), &num(3));
    // 3^2 * 2 mod 77, 2 * 6 + 10, 2 * 30 + 31, 2 * 12 + 4, 2 * 32 + 33
    assert!(round2.s.equals(&num(18)) && round2.s1.equals(&num(22)) && round2.s2.equals(&num(91)));
    assert!(round2.t1.equals(&num(28)) && round2.t2.equals(&num(97)));
    init.zeroize();
    assert!(init.alpha.equals(&num(0)) && init.beta.equals(&num(0)) && init.gamma.equals(&num(0)));
    assert!(init.ro.equals(&num(0)) && init.ro_prim.equals(&num(0)));
    assert!(init.sigma.equals(&num(0)) && init.tau.equals(&num(0)));
    assert!(init.N().equals(&num(0)) && init.N_tilda().equals(&num(0)));
}

#[test]
fn bob_randomness_lies_in_its_ranges() {
    let (_, published) = small_setup();
    let q = num(7);
    for _ in 0..10 {
        let init = BobZkpInit::random(&small_key(), &published, &q).unwrap();
        assert!(init.alpha.lt(&num(343)));
        assert!(init.beta.lt(&num(77)) && init.beta.gcd(&num(77)).equals(&num(1)));
        assert!(init.gamma.lt(&num(77)) && init.gamma.gcd(&num(77)).equals(&num(1)));
        assert!(init.ro.lt(&num(7 * 1081)));
        assert!(init.ro_prim.lt(&num(343 * 1081)));
        assert!(init.sigma.lt(&num(7 * 1081)));
        assert!(init.tau.lt(&num(7 * 1081)));
    }
}

#[test]
fn bob_proof_with_fresh_randomness_verifies() {
    let (setup, published) = small_setup();
    let key = small_key();
    let q = curve_order();
    let proof = BobProof::generate(&num(2390), &num(4317), &num(6), &num(12), &key, &published, &num(3), &q).unwrap();
    assert!(!proof.e.0.is_negative() && proof.e.0.lt(&q));
    assert!(proof.e.1.lt(&num(2).pow(256)));
    assert!(proof.verify(&num(2390), &num(4317), &key, &setup));
}

#[test]
fn bob_challenge_is_below_the_bound_given() {
    let (_, published) = small_setup();
    let key = small_key();
    // half of all challenges are below 2^255: some nonce among 256 fits
    let q = num(2).pow(255);
    for _ in 0..5 {
        let proof = BobProof::generate(&num(2390), &num(4317), &num(6), &num(12), &key, &published, &num(3), &q).unwrap();
        assert!(proof.e.0.lt(&q));
        let ext = BobProofExt::generate(&num(2390), &num(4317), &num(6), &num(12), &key, &published, &num(3), &q).unwrap();
        assert!(ext.proof.e.0.lt(&q));
    }
}

#[test]
fn bob_gives_up_where_no_challenge_fits() {
    let (_, published) = small_setup();
    let key = small_key();
    let q = num(1);
    assert!(BobProof::generate(&num(2390), &num(4317), &num(6), &num(12), &key, &published, &num(3), &q).is_none());
    assert!(BobProofExt::generate(&num(2390), &num(4317), &num(6), &num(12), &key, &published, &num(3), &q).is_none());
}

#[test]
fn bob_response_above_the_range_is_rejected() {
    let (setup, _) = small_setup();
    let mut proof = small_bob_proof();
    proof.s1 = curve_order().pow(3).add(&num(1));
    assert_eq!(
        proof.check(&num(2390), &num(4317), &small_key(), &setup),
        Err(ProofVerificationError::RangeExceeded)
    );
    assert!(!proof.verify(&num(2390), &num(4317), &small_key(), &setup));
}

#[test]
fn bob_proof_attached_to_another_ciphertext_is_rejected_on_the_hash() {
    let (setup, _) = small_setup();
    let proof = small_bob_proof();
    assert_eq!(
        proof.check(&num(2390), &num(4318), &small_key(), &setup),
        Err(ProofVerificationError::HashMismatch)
    );
    assert_eq!(
        proof.check(&num(2391), &num(4317), &small_key(), &setup),
        Err(ProofVerificationError::HashMismatch)
    );
}

#[test]
fn bob_proof_against_a_foreign_challenge_is_rejected() {
    let (setup, _) = small_setup();
    let proof = small_bob_proof();
    let key = small_key();
    let own = (proof.e.0.clone(), proof.e.1.clone());
    assert!(proof.verify_with_hash(&own, &num(2390), &num(4317), &key, &setup));
    let other_nonce = (proof.e.0.clone(), num(18));
    assert_eq!(
        proof.check_with_hash(&other_nonce, &num(2390), &num(4317), &key, &setup),
        Err(ProofVerificationError::HashMismatch)
    );
    let other_challenge = (proof.e.0.add(&num(1)), num(17));
    assert!(!proof.verify_with_hash(&other_challenge, &num(2390), &num(4317), &key, &setup));
}

#[test]
fn bob_proof_with_a_response_changed_fails_its_equation() {
    let (setup, _) = small_setup();
    let key = small_key();
    let one = num(1);
    let c1 = num(2390);
    let c2 = num(4317);
    let mut p = small_bob_proof();
    p.s2 = p.s2.add(&one);
    assert_eq!(p.check(&c1, &c2, &key, &setup), Err(ProofVerificationError::EquationMismatch(Equation::BobZ)));
    let mut p = small_bob_proof();
    p.s1 = p.s1.add(&one);
    assert_eq!(p.check(&c1, &c2, &key, &setup), Err(ProofVerificationError::EquationMismatch(Equation::BobZ)));
    let mut p = small_bob_proof();
    p.s = p.s.add(&one);
    assert_eq!(p.check(&c1, &c2, &key, &setup), Err(ProofVerificationError::EquationMismatch(Equation::BobV)));
    let mut p = small_bob_proof();
    p.t1 = p.t1.add(&one);
    assert_eq!(p.check(&c1, &c2, &key, &setup), Err(ProofVerificationError::EquationMismatch(Equation::BobV)));
    let mut p = small_bob_proof();
    p.t2 = p.t2.add(&one);
    assert_eq!(p.check(&c1, &c2, &key, &setup), Err(ProofVerificationError::EquationMismatch(Equation::BobW)));
    for field in 0..5 {
        let mut p = small_bob_proof();
        match field {
            0 => p.t = p.t.add(&one),
            1 => p.v = p.v.add(&one),
            2 => p.w = p.w.add(&one),
            3 => p.z = p.z.add(&one),
            _ => p.z_prim = p.z_prim.add(&one),
        }
        assert_eq!(p.check(&c1, &c2, &key, &setup), Err(ProofVerificationError::HashMismatch));
    }
}

#[test]
fn bob_negative_response_without_inverse_is_rejected() {
    // the bases 23 and 47 divide the modulus: a negative power of them has no inverse
    let setup = ZkpSetup {
        p: num(23),
        q: num(47),
        order: num(253),
        alpha: num(1),
        N_tilda: num(1081),
        h1: num(23),
        h2: num(47),
    };
    let mut p = small_bob_proof();
    p.s1 = Integer::from_bytes(true, vec![3]);
    assert_eq!(
        p.check(&num(2390), &num(4317), &small_key(), &setup),
        Err(ProofVerificationError::NonInvertible)
    );
}

fn small_ext_proof() -> BobProofExt {
    BobProofExt::generate_with(&small_bob_init(), &num(17), &num(2390), &num(4317), &num(6), &num(12), &num(3)).unwrap()
}

#[test]
fn extended_proof_for_given_randomness() {
    let (setup, _) = small_setup();
    let key = small_key();
    let ext = small_ext_proof();
    assert!(ext.X.equals(&Point::generator_times(&num(6)).unwrap()));
    assert!(ext.u.equals(&Point::generator_times(&num(10)).unwrap()));
    assert!(ext.proof.z.equals(&num(108)));
    assert!(ext.proof.v.equals(&num(5903)));
    // the challenge covers the points, so it differs from that of the plain proof
    assert!(!ext.proof.e.0.equals(&small_bob_proof().e.0));
    assert!(ext.binds());
    assert_eq!(ext.check(&num(2390), &num(4317), &key, &setup), Ok(()));
    assert!(ext.verify(&num(2390), &num(4317), &key, &setup));
    assert!(ext.clone().verify(&num(2390), &num(4317), &key, &setup));
}

#[test]
fn extended_proof_with_fresh_randomness_verifies() {
    let (setup, published) = small_setup();
    let key = small_key();
    let ext = BobProofExt::generate(&num(2390), &num(4317), &num(6), &num(12), &key, &published, &num(3), &curve_order()).unwrap();
    assert!(ext.proof.e.0.lt(&curve_order()));
    assert!(ext.X.equals(&Point::generator_times(&num(6)).unwrap()));
    assert!(ext.verify(&num(2390), &num(4317), &key, &setup));
}

#[test]
fn extended_proof_for_a_share_with_neutral_point_is_not_made() {
    let q = curve_order();
    assert!(BobProofExt::generate_with(&small_bob_init(), &num(17), &num(2390), &num(4317), &q, &num(12), &num(3)).is_none());
    let mut init = small_bob_init();
    init.alpha = num(0);
    assert!(BobProofExt::generate_with(&init, &num(17), &num(2390), &num(4317), &num(6), &num(12), &num(3)).is_none());
}

#[test]
fn extended_proof_with_swapped_point_is_rejected() {
    let (setup, _) = small_setup();
    let key = small_key();
    let mut ext = small_ext_proof();
    ext.X = Point::generator_times(&num(7)).unwrap();
    assert!(!ext.binds());
    assert!(!ext.verify(&num(2390), &num(4317), &key, &setup));
    // the point is part of the transcript: the hash fails first
    assert_eq!(ext.check(&num(2390), &num(4317), &key, &setup), Err(ProofVerificationError::HashMismatch));
}

#[test]
fn extended_proof_made_over_another_point_fails_the_binding() {
    let (setup, _) = small_setup();
    let key = small_key();
    let init = small_bob_init();
    let c1 = num(2390);
    let c2 = num(4317);
    // the prover hashes the point of b + 1 but answers for b
    let x = Point::generator_times(&num(7)).unwrap();
    let u = Point::generator_times(&init.alpha).unwrap();
    let round1 = BobZkpRound1::from(&init, &num(6), &num(12), &c1);
    let inputs = vec![
        num(77),
        num(78),
        x.x.clone(),
        x.y.clone(),
        c1.clone(),
        c2.clone(),
        u.x.clone(),
        u.y.clone(),
        round1.z.clone(),
        round1.z_prim.clone(),
        round1.t.clone(),
        round1.v.clone(),
        round1.w.clone(),
    ];
    let e = HSha512Trunc256::create_hash_with_nonce(&inputs, &num(17));
    let round2 = BobZkpRound2::from(&init, &e.0, &num(6), &num(12), &num(3));
    let ext = BobProofExt { proof: BobProof::assemble(round1, e, round2), u, X: x };
    assert_eq!(ext.check(&c1, &c2, &key, &setup), Err(ProofVerificationError::EcBindingMismatch));
    assert!(!ext.verify(&c1, &c2, &key, &setup));
}

#[test]
fn extended_proof_with_a_point_off_the_curve_does_not_bind() {
    let mut ext = small_ext_proof();
    ext.u = Point { x: num(1), y: num(1) };
    assert!(!ext.binds());
    let mut ext = small_ext_proof();
    ext.X = Point { x: Integer::from_bytes(true, vec![1]), y: num(2).pow(300) };
    assert!(!ext.binds());
}

#[test]
fn no_range_proof_is_made_against_a_rejected_setup() {
    let (setup, mut published) = small_setup();
    published.h1 = num(5);
    let peer = PeerSetup::receive(published).verify();
    let message = MessageA::new(&num(3), &small_key(), peer.for_proofs()).unwrap();
    assert!(message.range_proof.is_none());
    let (_, good) = small_setup();
    let peer = PeerSetup::receive(good).verify();
    let message = MessageA::new(&num(3), &small_key(), peer.for_proofs()).unwrap();
    assert!(message.range_proof.unwrap().verify(&message.c, &small_key(), &setup));
}
