//! Alice's range proof: that a Paillier ciphertext encrypts a value in
//! `[-q^3, q^3]`, and the first message of the share conversion that carries it.
#![allow(non_snake_case)]
use vstd::prelude::*;
use vstd::arithmetic::power::pow;
use crate::curve::{curve_order, group_order};
use crate::encryption::{encryption, EncryptionKey};
use crate::hashing::{challenge_of, values, HSha512Trunc256, HashWithNonce};
use crate::integer::{trunc_rem, Integer};
use crate::modular::{commit, commit_plain, commitment, mod_exp, plain_commitment, power_mod};
use crate::primes::coprime;
use crate::sampling::SampleFromMultiplicativeGroup;
use crate::setup::{ZkpPublicSetup, ZkpSetup};
use crate::verification::{Equation, ProofVerificationError};

verus! {

/// The numbers that Alice's prover works with: the moduli, the bases of the
/// commitment scheme, and the ephemeral randomness.
pub struct AliceInitValues {
    pub n: int,
    pub nn: int,
    pub n_tilda: int,
    pub h1: int,
    pub h2: int,
    pub alpha: int,
    pub beta: int,
    pub gamma: int,
    pub ro: int,
}

impl AliceInitValues {
    /// The moduli are above one, `nn` is the square of `n`, and the
    /// randomness lies in the ranges that the protocol draws it from.
    pub open spec fn in_range(self, q: int) -> bool {
        &&& self.n > 1
        &&& self.nn == self.n * self.n
        &&& self.n_tilda > 1
        &&& 0 <= self.alpha < pow(q, 3)
        &&& 0 <= self.beta < self.n
        &&& coprime(self.beta, self.n)
        &&& 0 <= self.gamma < pow(q, 3) * self.n_tilda
        &&& 0 <= self.ro < q * self.n_tilda
    }
}

/// The numbers of an [`AliceProof`].
pub struct AliceProofValues {
    pub z: int,
    pub u: int,
    pub w: int,
    pub e: (int, int),
    pub s: int,
    pub s1: int,
    pub s2: int,
}

/// The commitment `z` of the first round.
pub open spec fn alice_z(i: AliceInitValues, a: int) -> int {
    plain_commitment(i.h1, a, i.h2, i.ro, i.n_tilda)
}

/// The commitment `u` of the first round.
pub open spec fn alice_u(i: AliceInitValues) -> int {
    ((i.alpha * i.n + 1) * (pow(i.beta, i.n as nat) % i.nn)) % i.nn
}

/// The commitment `w` of the first round.
pub open spec fn alice_w(i: AliceInitValues) -> int {
    plain_commitment(i.h1, i.alpha, i.h2, i.gamma, i.n_tilda)
}

/// The integers that are hashed for Alice's challenge, before the nonce.
pub open spec fn alice_transcript(n: int, cipher: int, z: int, u: int, w: int) -> Seq<int> {
    seq![n, n + 1, cipher, z, u, w]
}

/// The proof that Alice makes for the share `a`, encrypted as `cipher` with
/// the randomness `r`, from the ephemeral randomness `i` and the nonce.
pub open spec fn alice_proof(
    i: AliceInitValues,
    a: int,
    cipher: int,
    r: int,
    nonce: int,
) -> AliceProofValues {
    let z = alice_z(i, a);
    let u = alice_u(i);
    let w = alice_w(i);
    let e = challenge_of(alice_transcript(i.n, cipher, z, u, w).push(nonce));
    AliceProofValues {
        z,
        u,
        w,
        e: (e, nonce),
        s: ((pow(r, e as nat) % i.n) * i.beta) % i.n,
        s1: e * a + i.alpha,
        s2: e * i.ro + i.gamma,
    }
}

/// The proof is one that Alice makes for the share `a`, encrypted as `cipher`
/// with the randomness `r`: there is ephemeral randomness in the prescribed
/// ranges from which, with the nonce of the proof, it is computed.
pub open spec fn made_by_alice(
    p: AliceProofValues,
    a: int,
    cipher: int,
    r: int,
    n: int,
    nn: int,
    n_tilda: int,
    h1: int,
    h2: int,
    q: int,
) -> bool {
    exists|i: AliceInitValues|
        {
            &&& i.in_range(q)
            &&& i.n == n
            &&& i.nn == nn
            &&& i.n_tilda == n_tilda
            &&& i.h1 == h1
            &&& i.h2 == h2
            &&& p == #[trigger] alice_proof(i, a, cipher, r, p.e.1)
        }
}

/// The second equation that the verifier checks, modulo `n^2`.
pub open spec fn alice_check_u(
    p: AliceProofValues,
    cipher: int,
    n: int,
    nn: int,
) -> Result<(), ProofVerificationError> {
    match mod_exp(cipher, -p.e.0, nn) {
        None => Err(ProofVerificationError::NonInvertible),
        Some(inv) => if trunc_rem(trunc_rem(p.s1 * n + 1, nn) * (pow(p.s, n as nat) % nn) * inv, nn) == p.u {
            Ok(())
        } else {
            Err(ProofVerificationError::EquationMismatch(Equation::AliceU))
        },
    }
}

/// What the verifier finds of a proof for `cipher` under the key `(n, nn)`,
/// with the commitment scheme `(n_tilda, h1, h2)` and the curve order `q`:
/// the first check that fails, if any.
pub open spec fn alice_check(
    p: AliceProofValues,
    cipher: int,
    n: int,
    nn: int,
    n_tilda: int,
    h1: int,
    h2: int,
    q: int,
) -> Result<(), ProofVerificationError> {
    if p.e.0 != challenge_of(alice_transcript(n, cipher, p.z, p.u, p.w).push(p.e.1)) {
        Err(ProofVerificationError::HashMismatch)
    } else if p.s1 > pow(q, 3) {
        Err(ProofVerificationError::RangeExceeded)
    } else {
        match (mod_exp(p.z, -p.e.0, n_tilda), commitment(h1, p.s1, h2, p.s2, n_tilda)) {
            (Some(inv), Some(c)) => if (c * inv) % n_tilda == p.w {
                alice_check_u(p, cipher, n, nn)
            } else {
                Err(ProofVerificationError::EquationMismatch(Equation::AliceW))
            },
            _ => Err(ProofVerificationError::NonInvertible),
        }
    }
}

/// The ephemeral data of one proof by Alice. It is drawn afresh for each
/// proof and wiped after use.
#[derive(Debug)]
pub struct AliceZkpInit {
    pub alice_pk: EncryptionKey,
    pub bob_setup: ZkpPublicSetup,
    pub alpha: Integer,
    pub beta: Integer,
    pub gamma: Integer,
    pub ro: Integer,
}

impl View for AliceZkpInit {
    type V = AliceInitValues;

    open spec fn view(&self) -> AliceInitValues {
        AliceInitValues {
            n: self.alice_pk.n@,
            nn: self.alice_pk.nn@,
            n_tilda: self.bob_setup.N_tilda@,
            h1: self.bob_setup.h1@,
            h2: self.bob_setup.h2@,
            alpha: self.alpha@,
            beta: self.beta@,
            gamma: self.gamma@,
            ro: self.ro@,
        }
    }
}

impl AliceZkpInit {
    /// Fresh randomness for a proof under Alice's key and Bob's setup, for a
    /// curve of order `q`; `None` where no unit modulo `N` was found.
    pub fn random(alice_pk: &EncryptionKey, bob_setup: &ZkpPublicSetup, q: &Integer) -> (r: Option<Self>)
        requires
            alice_pk.wf(),
            bob_setup.wf(),
            q@ > 0,
        ensures
            r matches Some(i) ==> {
                &&& i@.in_range(q@)
                &&& i@.n == alice_pk.n@
                &&& i@.nn == alice_pk.nn@
                &&& i@.n_tilda == bob_setup.N_tilda@
                &&& i@.h1 == bob_setup.h1@
                &&& i@.h2 == bob_setup.h2@
            },
    {
        let cube = q.pow(3);
        let wide = cube.mul(&bob_setup.N_tilda);
        let narrow = q.mul(&bob_setup.N_tilda);
        proof {
            vstd::arithmetic::power::lemma_pow_positive(q@, 3);
            assert(cube@ * bob_setup.N_tilda@ > 0) by (nonlinear_arith)
                requires
                    cube@ > 0,
                    bob_setup.N_tilda@ > 1,
            ;
            assert(q@ * bob_setup.N_tilda@ > 0) by (nonlinear_arith)
                requires
                    q@ > 0,
                    bob_setup.N_tilda@ > 1,
            ;
        }
        match Integer::from_paillier_key(alice_pk) {
            None => None,
            Some(beta) => Some(
                AliceZkpInit {
                    alice_pk: alice_pk.clone(),
                    bob_setup: bob_setup.clone(),
                    alpha: Integer::sample_below(&cube),
                    beta,
                    gamma: Integer::sample_below(&wide),
                    ro: Integer::sample_below(&narrow),
                },
            ),
        }
    }

    /// Alice's Paillier modulus.
    pub fn N(&self) -> (r: &Integer)
        ensures
            r@ == self@.n,
    {
        &self.alice_pk.n
    }

    /// The square of Alice's Paillier modulus.
    pub fn NN(&self) -> (r: &Integer)
        ensures
            r@ == self@.nn,
    {
        &self.alice_pk.nn
    }

    /// The modulus of Bob's commitment scheme.
    pub fn N_tilda(&self) -> (r: &Integer)
        ensures
            r@ == self@.n_tilda,
    {
        &self.bob_setup.N_tilda
    }

    /// The first base of Bob's commitment scheme.
    pub fn h1(&self) -> (r: &Integer)
        ensures
            r@ == self@.h1,
    {
        &self.bob_setup.h1
    }

    /// The second base of Bob's commitment scheme.
    pub fn h2(&self) -> (r: &Integer)
        ensures
            r@ == self@.h2,
    {
        &self.bob_setup.h2
    }

    /// Overwrites the key, the setup and the randomness with zeros.
    pub fn zeroize(&mut self)
        ensures
            final(self)@.n == 0,
            final(self)@.nn == 0,
            final(self)@.n_tilda == 0,
            final(self)@.h1 == 0,
            final(self)@.h2 == 0,
            final(self)@.alpha == 0,
            final(self)@.beta == 0,
            final(self)@.gamma == 0,
            final(self)@.ro == 0,
        opens_invariants none
        no_unwind
    {
        self.alice_pk.n.zeroize();
        self.alice_pk.nn.zeroize();
        self.bob_setup.zeroize();
        self.alpha.zeroize();
        self.beta.zeroize();
        self.gamma.zeroize();
        self.ro.zeroize();
    }
}

/// The randomness is wiped when it goes out of scope.
impl Drop for AliceZkpInit {
    fn drop(&mut self)
        opens_invariants none
        no_unwind
    {
        self.zeroize();
    }
}

/// The commitments of the first round of the interactive proof.
#[derive(Debug)]
pub struct AliceZkpRound1 {
    pub z: Integer,
    pub u: Integer,
    pub w: Integer,
}

impl AliceZkpRound1 {
    /// The commitments for the share `a`.
    pub fn from(init: &AliceZkpInit, a: &Integer) -> (r: Self)
        requires
            init@.n > 1,
            init@.nn > 0,
            init@.n_tilda > 1,
            init@.alpha >= 0,
            init@.gamma >= 0,
            init@.ro >= 0,
            a@ >= 0,
        ensures
            r.z@ == alice_z(init@, a@),
            r.u@ == alice_u(init@),
            r.w@ == alice_w(init@),
    {
        let one = Integer::one();
        let z = commit_plain(init.h1(), a, init.h2(), &init.ro, init.N_tilda());
        let w = commit_plain(init.h1(), &init.alpha, init.h2(), &init.gamma, init.N_tilda());
        let blind = Integer::mod_pow(&init.beta, init.N(), init.NN());
        let product = init.alpha.mul(init.N()).add(&one).mul(&blind);
        proof {
            vstd::arithmetic::div_mod::lemma_mod_bound(pow(init@.beta, init@.n as nat), init@.nn);
            assert(product@ >= 0) by (nonlinear_arith)
                requires
                    product@ == (init@.alpha * init@.n + 1) * blind@,
                    init@.alpha >= 0,
                    init@.n > 1,
                    blind@ >= 0,
            ;
        }
        AliceZkpRound1 { z, u: product.reduce(init.NN()), w }
    }
}

/// The responses of the second round of the interactive proof.
#[derive(Debug)]
pub struct AliceZkpRound2 {
    pub s: Integer,
    pub s1: Integer,
    pub s2: Integer,
}

impl AliceZkpRound2 {
    /// The responses to the challenge `e`, for the share `a` that was
    /// encrypted with the randomness `r`.
    pub fn from(init: &AliceZkpInit, e: &Integer, a: &Integer, r: &Integer) -> (res: Self)
        requires
            init@.n > 1,
            init@.beta >= 0,
            e@ >= 0,
        ensures
            res.s@ == ((pow(r@, e@ as nat) % init@.n) * init@.beta) % init@.n,
            res.s1@ == e@ * a@ + init@.alpha,
            res.s2@ == e@ * init@.ro + init@.gamma,
    {
        let power = Integer::mod_pow(r, e, init.N());
        let product = power.mul(&init.beta);
        proof {
            vstd::arithmetic::div_mod::lemma_mod_bound(pow(r@, e@ as nat), init@.n);
            assert(product@ >= 0) by (nonlinear_arith)
                requires
                    product@ == power@ * init@.beta,
                    power@ >= 0,
                    init@.beta >= 0,
            ;
        }
        AliceZkpRound2 {
            s: product.reduce(init.N()),
            s1: e.mul(a).add(&init.alpha),
            s2: e.mul(&init.ro).add(&init.gamma),
        }
    }
}

/// Alice's proof that her ciphertext encrypts a value in `[-q^3, q^3]`.
#[derive(Debug)]
pub struct AliceProof {
    pub z: Integer,
    pub u: Integer,
    pub w: Integer,
    pub e: HashWithNonce,
    pub s: Integer,
    pub s1: Integer,
    pub s2: Integer,
}

impl View for AliceProof {
    type V = AliceProofValues;

    open spec fn view(&self) -> AliceProofValues {
        AliceProofValues {
            z: self.z@,
            u: self.u@,
            w: self.w@,
            e: (self.e.0@, self.e.1@),
            s: self.s@,
            s1: self.s1@,
            s2: self.s2@,
        }
    }
}

impl Clone for AliceProof {
    fn clone(&self) -> (r: Self)
        ensures
            r@ == self@,
    {
        AliceProof {
            z: self.z.clone(),
            u: self.u.clone(),
            w: self.w.clone(),
            e: (self.e.0.clone(), self.e.1.clone()),
            s: self.s.clone(),
            s1: self.s1.clone(),
            s2: self.s2.clone(),
        }
    }
}

impl AliceProof {
    /// Checks the proof for `cipher` under Alice's key, with Bob's setup and
    /// the order of the curve, and reports the first check that fails.
    pub fn check(
        &self,
        cipher: &Integer,
        alice_ek: &EncryptionKey,
        bob_zkp_setup: &ZkpSetup,
    ) -> (r: Result<(), ProofVerificationError>)
        requires
            alice_ek.wf(),
            bob_zkp_setup.N_tilda@ > 1,
        ensures
            r == alice_check(
                self@,
                cipher@,
                alice_ek.n@,
                alice_ek.nn@,
                bob_zkp_setup.N_tilda@,
                bob_zkp_setup.h1@,
                bob_zkp_setup.h2@,
                group_order(),
            ),
    {
        let one = Integer::one();
        let zero = Integer::zero();
        let N = &alice_ek.n;
        let NN = &alice_ek.nn;
        let N_tilda = &bob_zkp_setup.N_tilda;
        let Gen = N.add(&one);
        let inputs = vec![N.clone(), Gen, cipher.clone(), self.z.clone(), self.u.clone(), self.w.clone()];
        proof {
            crate::encryption::lemma_square_positive(N@);
            assert(values(inputs@) =~= alice_transcript(N@, cipher@, self.z@, self.u@, self.w@));
        }
        let e = HSha512Trunc256::create_hash_with_nonce(&inputs, &self.e.1);
        if !e.0.equals(&self.e.0) {
            return Err(ProofVerificationError::HashMismatch);
        }
        if curve_order().pow(3).lt(&self.s1) {
            return Err(ProofVerificationError::RangeExceeded);
        }
        let minus_e = zero.sub(&self.e.0);
        let z_e_inv = power_mod(&self.z, &minus_e, N_tilda);
        let left = commit(&bob_zkp_setup.h1, &self.s1, &bob_zkp_setup.h2, &self.s2, N_tilda);
        match (z_e_inv, left) {
            (Some(z_e_inv), Some(left)) => {
                let product = left.mul(&z_e_inv);
                proof {
                    assert(product@ >= 0) by (nonlinear_arith)
                        requires
                            product@ == left@ * z_e_inv@,
                            left@ >= 0,
                            z_e_inv@ >= 0,
                    ;
                }
                let wprim = product.reduce(N_tilda);
                if !wprim.equals(&self.w) {
                    return Err(ProofVerificationError::EquationMismatch(Equation::AliceW));
                }
                match power_mod(cipher, &minus_e, NN) {
                    None => Err(ProofVerificationError::NonInvertible),
                    Some(cipher_e_inv) => {
                        let gs1 = self.s1.mul(N).add(&one).truncated_rem(NN);
                        let power = Integer::mod_pow(&self.s, N, NN);
                        let uprim = gs1.mul(&power).mul(&cipher_e_inv).truncated_rem(NN);
                        if uprim.equals(&self.u) {
                            Ok(())
                        } else {
                            Err(ProofVerificationError::EquationMismatch(Equation::AliceU))
                        }
                    },
                }
            },
            _ => Err(ProofVerificationError::NonInvertible),
        }
    }

    /// Whether the proof holds for `cipher` under Alice's key, with Bob's
    /// setup.
    pub fn verify(&self, cipher: &Integer, alice_ek: &EncryptionKey, bob_zkp_setup: &ZkpSetup) -> (r: bool)
        requires
            alice_ek.wf(),
            bob_zkp_setup.N_tilda@ > 1,
        ensures
            r == alice_check(
                self@,
                cipher@,
                alice_ek.n@,
                alice_ek.nn@,
                bob_zkp_setup.N_tilda@,
                bob_zkp_setup.h1@,
                bob_zkp_setup.h2@,
                group_order(),
            ) is Ok,
    {
        self.check(cipher, alice_ek, bob_zkp_setup).is_ok()
    }

    /// The proof made from given randomness and a given nonce.
    pub fn generate_with(
        init: &AliceZkpInit,
        nonce: &Integer,
        a: &Integer,
        cipher: &Integer,
        r: &Integer,
    ) -> (p: Self)
        requires
            init@.n > 1,
            init@.nn > 0,
            init@.n_tilda > 1,
            init@.alpha >= 0,
            init@.beta >= 0,
            init@.gamma >= 0,
            init@.ro >= 0,
            a@ >= 0,
        ensures
            p@ == alice_proof(init@, a@, cipher@, r@, nonce@),
            0 <= p@.e.0 < pow(2, 256),
    {
        let one = Integer::one();
        let round1 = AliceZkpRound1::from(init, a);
        let Gen = init.N().add(&one);
        let inputs = vec![init.N().clone(), Gen, cipher.clone(), round1.z.clone(), round1.u.clone(), round1.w.clone()];
        proof {
            assert(values(inputs@) =~= alice_transcript(init@.n, cipher@, round1.z@, round1.u@, round1.w@));
        }
        let e = HSha512Trunc256::create_hash_with_nonce(&inputs, nonce);
        let round2 = AliceZkpRound2::from(init, &e.0, a, r);
        AliceProof { z: round1.z, u: round1.u, w: round1.w, e, s: round2.s, s1: round2.s1, s2: round2.s2 }
    }

    /// A proof that `cipher` encrypts `a` under Alice's key with the
    /// randomness `r`, against Bob's public setup and for a curve of order
    /// `q`. The challenge is below `q`. `None` where the randomness or a
    /// nonce with such a challenge could not be drawn.
    pub fn generate(
        a: &Integer,
        cipher: &Integer,
        alice_pk: &EncryptionKey,
        bob_zkp_setup: &ZkpPublicSetup,
        r: &Integer,
        q: &Integer,
    ) -> (p: Option<Self>)
        requires
            alice_pk.wf(),
            bob_zkp_setup.wf(),
            a@ >= 0,
            q@ > 0,
        ensures
            p matches Some(proof) ==> {
                &&& made_by_alice(
                    proof@,
                    a@,
                    cipher@,
                    r@,
                    alice_pk.n@,
                    alice_pk.nn@,
                    bob_zkp_setup.N_tilda@,
                    bob_zkp_setup.h1@,
                    bob_zkp_setup.h2@,
                    q@,
                )
                &&& 0 <= proof@.e.0 < q@
                &&& 0 <= proof@.e.1 < pow(2, 256)
            },
    {
        let one = Integer::one();
        match AliceZkpInit::random(alice_pk, bob_zkp_setup, q) {
            None => None,
            Some(drawn) => {
                let mut init = drawn;
                let ghost i = init@;
                proof {
                    crate::encryption::lemma_square_positive(i.n);
                }
                let round1 = AliceZkpRound1::from(&init, a);
                let Gen = init.N().add(&one);
                let inputs = vec![init.N().clone(), Gen, cipher.clone(), round1.z.clone(), round1.u.clone(), round1.w.clone()];
                proof {
                    assert(values(inputs@) =~= alice_transcript(i.n, cipher@, round1.z@, round1.u@, round1.w@));
                }
                let result = match HSha512Trunc256::create_hash_bounded_by_q(&inputs, q) {
                    None => None,
                    Some(e) => {
                        let round2 = AliceZkpRound2::from(&init, &e.0, a, r);
                        let proof = AliceProof { z: round1.z, u: round1.u, w: round1.w, e, s: round2.s, s1: round2.s1, s2: round2.s2 };
                        proof {
                            assert(proof@ == alice_proof(i, a@, cipher@, r@, proof@.e.1));
                        }
                        Some(proof)
                    },
                };
                init.zeroize();
                proof {
                    if result is Some {
                        let proof = result->0;
                        assert(i.in_range(q@));
                        assert(proof@ == alice_proof(i, a@, cipher@, r@, proof@.e.1));
                        assert(0 <= proof@.e.0 < q@);
                    }
                }
                result
            },
        }
    }
}

/// The first message of the share conversion, from Alice to Bob: the
/// encryption of her share, and the range proof where Bob's setup is known.
#[derive(Debug)]
pub struct MessageA {
    pub c: Integer,
    pub range_proof: Option<AliceProof>,
}

impl MessageA {
    /// The message for the share `a` under Alice's key. With Bob's setup it
    /// carries a range proof, without it none. `None` where the randomness or
    /// the proof could not be drawn.
    pub fn new(
        a: &Integer,
        alice_pk: &EncryptionKey,
        bob_setup: Option<&ZkpPublicSetup>,
    ) -> (m: Option<MessageA>)
        requires
            alice_pk.wf(),
            a@ >= 0,
            bob_setup matches Some(s) ==> s.wf(),
        ensures
            m matches Some(msg) ==> {
                &&& msg.range_proof is Some <==> bob_setup is Some
                &&& exists|r: int|
                    {
                        &&& 0 <= r < alice_pk.n@
                        &&& coprime(r, alice_pk.n@)
                        &&& msg.c@ == #[trigger] encryption(a@, r, alice_pk.n@, alice_pk.nn@)
                        &&& msg.range_proof matches Some(proof) ==> {
                            &&& made_by_alice(
                                proof@,
                                a@,
                                msg.c@,
                                r,
                                alice_pk.n@,
                                alice_pk.nn@,
                                bob_setup->0.N_tilda@,
                                bob_setup->0.h1@,
                                bob_setup->0.h2@,
                                group_order(),
                            )
                            &&& 0 <= proof@.e.0 < group_order()
                            &&& 0 <= proof@.e.1 < pow(2, 256)
                        }
                    }
            },
    {
        match Integer::from_paillier_key(alice_pk) {
            None => None,
            Some(drawn) => {
                let mut r = drawn;
                let cipher = alice_pk.encrypt(a, &r);
                let result = match bob_setup {
                    None => Some(MessageA { c: cipher, range_proof: None }),
                    Some(zkp_setup) => {
                        match AliceProof::generate(a, &cipher, alice_pk, zkp_setup, &r, &curve_order()) {
                            None => None,
                            Some(proof) => Some(MessageA { c: cipher, range_proof: Some(proof) }),
                        }
                    },
                };
                proof {
                    if result is Some {
                        assert(result->0.c@ == encryption(a@, r@, alice_pk.n@, alice_pk.nn@));
                    }
                }
                r.zeroize();
                result
            },
        }
    }
}

} // verus!
