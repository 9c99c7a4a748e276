//! Bob's range proofs for the share conversion, plain and extended by the
//! binding to a public point, and the second message that carries them.
#![allow(non_snake_case)]
use vstd::prelude::*;
use vstd::arithmetic::power::pow;
use crate::alice::MessageA;
use crate::curve::{
    curve_order, element_plus, generator_multiple, group_order, on_curve, point_multiple, same_element, DLogProof,
    Point,
};
use crate::encryption::{encryption, EncryptionKey};
use crate::hashing::{challenge_of, values, HSha512Trunc256, HashWithNonce};
use crate::integer::{trunc_rem, Integer};
use crate::modular::{commit, commit_plain, commitment, mod_exp, plain_commitment, power_mod};
use crate::primes::coprime;
use crate::sampling::SampleFromMultiplicativeGroup;
use crate::setup::{ZkpPublicSetup, ZkpSetup};
use crate::verification::{Equation, ProofVerificationError};

verus! {

/// The numbers that Bob's prover works with: the moduli, the bases of the
/// commitment scheme, and the ephemeral randomness.
pub struct BobInitValues {
    pub n: int,
    pub nn: int,
    pub n_tilda: int,
    pub h1: int,
    pub h2: int,
    pub alpha: int,
    pub beta: int,
    pub gamma: int,
    pub ro: int,
    pub ro_prim: int,
    pub sigma: int,
    pub tau: int,
}

impl BobInitValues {
    /// The moduli are above one, `nn` is the square of `n`, and the
    /// randomness lies in the ranges that the protocol draws it from.
    pub open spec fn in_range(self, q: int) -> bool {
        &&& self.n > 1
        &&& self.nn == self.n * self.n
        &&& self.n_tilda > 1
        &&& 0 <= self.alpha < pow(q, 3)
        &&& 0 <= self.beta < self.n
        &&& coprime(self.beta, self.n)
        &&& 0 <= self.gamma < self.n
        &&& coprime(self.gamma, self.n)
        &&& 0 <= self.ro < q * self.n_tilda
        &&& 0 <= self.ro_prim < pow(q, 3) * self.n_tilda
        &&& 0 <= self.sigma < q * self.n_tilda
        &&& 0 <= self.tau < q * self.n_tilda
    }

    /// The moduli are above one and no randomness is negative.
    pub open spec fn usable(self) -> bool {
        &&& self.n > 1
        &&& self.nn > 1
        &&& self.n_tilda > 1
        &&& self.alpha >= 0
        &&& self.beta >= 0
        &&& self.gamma >= 0
        &&& self.ro >= 0
        &&& self.ro_prim >= 0
        &&& self.sigma >= 0
        &&& self.tau >= 0
    }
}

/// The numbers of a [`BobProof`].
pub struct BobProofValues {
    pub t: int,
    pub v: int,
    pub w: int,
    pub z: int,
    pub z_prim: int,
    pub e: (int, int),
    pub s: int,
    pub s1: int,
    pub s2: int,
    pub t1: int,
    pub t2: int,
}

/// The commitments of Bob's first round.
pub struct BobRound1Values {
    pub z: int,
    pub z_prim: int,
    pub t: int,
    pub w: int,
    pub v: int,
}

/// The commitments of the first round, for Bob's share `b`, the plaintext
/// `beta_prim` that he adds, and Alice's ciphertext `c1`.
pub open spec fn bob_commitments(i: BobInitValues, b: int, beta_prim: int, c1: int) -> BobRound1Values {
    BobRound1Values {
        z: plain_commitment(i.h1, b, i.h2, i.ro, i.n_tilda),
        z_prim: plain_commitment(i.h1, i.alpha, i.h2, i.ro_prim, i.n_tilda),
        t: plain_commitment(i.h1, beta_prim, i.h2, i.sigma, i.n_tilda),
        w: plain_commitment(i.h1, i.gamma, i.h2, i.tau, i.n_tilda),
        v: ((pow(c1, i.alpha as nat) % i.nn) * (i.gamma * i.n + 1) * (pow(i.beta, i.n as nat) % i.nn)) % i.nn,
    }
}

/// The integers that are hashed for the challenge of the plain proof, before
/// the nonce.
pub open spec fn bob_transcript(n: int, c1: int, c2: int, k: BobRound1Values) -> Seq<int> {
    seq![n, n + 1, c1, c2, k.z, k.z_prim, k.t, k.v, k.w]
}

/// The integers that are hashed for the challenge of the extended proof,
/// before the nonce.
pub open spec fn bob_ext_transcript(
    n: int,
    x: (int, int),
    c1: int,
    c2: int,
    u: (int, int),
    k: BobRound1Values,
) -> Seq<int> {
    seq![n, n + 1, x.0, x.1, c1, c2, u.0, u.1, k.z, k.z_prim, k.t, k.v, k.w]
}

/// The proof with the commitments `k` and the responses to the challenge
/// `e`, where `r` is the randomness under which `beta_prim` was encrypted.
pub open spec fn bob_responses(
    i: BobInitValues,
    k: BobRound1Values,
    e: (int, int),
    b: int,
    beta_prim: int,
    r: int,
) -> BobProofValues {
    BobProofValues {
        t: k.t,
        v: k.v,
        w: k.w,
        z: k.z,
        z_prim: k.z_prim,
        e,
        s: ((pow(r, e.0 as nat) % i.n) * i.beta) % i.n,
        s1: e.0 * b + i.alpha,
        s2: e.0 * i.ro + i.ro_prim,
        t1: e.0 * beta_prim + i.gamma,
        t2: e.0 * i.sigma + i.tau,
    }
}

/// The plain proof that Bob makes from the randomness `i` and the nonce.
pub open spec fn bob_proof(
    i: BobInitValues,
    c1: int,
    c2: int,
    b: int,
    beta_prim: int,
    r: int,
    nonce: int,
) -> BobProofValues {
    let k = bob_commitments(i, b, beta_prim, c1);
    let e = challenge_of(bob_transcript(i.n, c1, c2, k).push(nonce));
    bob_responses(i, k, (e, nonce), b, beta_prim, r)
}

/// The inner proof of the extended proof that Bob makes from the randomness
/// `i` and the nonce, with the public point `x` and the commitment `u`.
pub open spec fn bob_ext_proof(
    i: BobInitValues,
    x: (int, int),
    u: (int, int),
    c1: int,
    c2: int,
    b: int,
    beta_prim: int,
    r: int,
    nonce: int,
) -> BobProofValues {
    let k = bob_commitments(i, b, beta_prim, c1);
    let e = challenge_of(bob_ext_transcript(i.n, x, c1, c2, u, k).push(nonce));
    bob_responses(i, k, (e, nonce), b, beta_prim, r)
}

/// The plain proof is one that Bob makes for the share `b` and the plaintext
/// `beta_prim`, encrypted with the randomness `r`: there is ephemeral
/// randomness in the prescribed ranges from which, with the nonce of the
/// proof, it is computed.
pub open spec fn made_by_bob(
    p: BobProofValues,
    c1: int,
    c2: int,
    b: int,
    beta_prim: int,
    r: int,
    n: int,
    nn: int,
    n_tilda: int,
    h1: int,
    h2: int,
    q: int,
) -> bool {
    exists|i: BobInitValues|
        {
            &&& i.in_range(q)
            &&& i.n == n
            &&& i.nn == nn
            &&& i.n_tilda == n_tilda
            &&& i.h1 == h1
            &&& i.h2 == h2
            &&& p == #[trigger] bob_proof(i, c1, c2, b, beta_prim, r, p.e.1)
        }
}

/// The extended proof is one that Bob makes for the share `b`: its public
/// point is the generator times `b`, and there is ephemeral randomness in the
/// prescribed ranges to whose `alpha` the point `u` commits and from which,
/// with the nonce of the proof, the inner proof is computed.
pub open spec fn made_by_bob_ext(
    p: BobProofValues,
    x: (int, int),
    u: (int, int),
    c1: int,
    c2: int,
    b: int,
    beta_prim: int,
    r: int,
    n: int,
    nn: int,
    n_tilda: int,
    h1: int,
    h2: int,
    q: int,
) -> bool {
    exists|i: BobInitValues|
        {
            &&& i.in_range(q)
            &&& i.n == n
            &&& i.nn == nn
            &&& i.n_tilda == n_tilda
            &&& i.h1 == h1
            &&& i.h2 == h2
            &&& Some(x) == generator_multiple(b)
            &&& Some(u) == generator_multiple(i.alpha)
            &&& p == #[trigger] bob_ext_proof(i, x, u, c1, c2, b, beta_prim, r, p.e.1)
        }
}

/// The third equation of Bob's verifier, modulo `n_tilda`.
pub open spec fn bob_check_w(
    p: BobProofValues,
    e: int,
    n_tilda: int,
    h1: int,
    h2: int,
) -> Result<(), ProofVerificationError> {
    match (commitment(h1, p.t1, h2, p.t2, n_tilda), mod_exp(p.t, e, n_tilda)) {
        (Some(lw), Some(te)) => if lw == trunc_rem(te * p.w, n_tilda) {
            Ok(())
        } else {
            Err(ProofVerificationError::EquationMismatch(Equation::BobW))
        },
        _ => Err(ProofVerificationError::NonInvertible),
    }
}

/// The second equation of Bob's verifier, modulo `n^2`.
pub open spec fn bob_check_v(
    p: BobProofValues,
    e: int,
    c1: int,
    c2: int,
    n: int,
    nn: int,
) -> Result<(), ProofVerificationError> {
    match (mod_exp(c1, p.s1, nn), mod_exp(c2, e, nn)) {
        (Some(cs), Some(ce)) => if trunc_rem(cs * (pow(p.s, n as nat) % nn) * (p.t1 * n + 1), nn) == trunc_rem(ce * p.v, nn) {
            Ok(())
        } else {
            Err(ProofVerificationError::EquationMismatch(Equation::BobV))
        },
        _ => Err(ProofVerificationError::NonInvertible),
    }
}

/// The first equation of Bob's verifier, modulo `n_tilda`.
pub open spec fn bob_check_z(
    p: BobProofValues,
    e: int,
    n_tilda: int,
    h1: int,
    h2: int,
) -> Result<(), ProofVerificationError> {
    match (commitment(h1, p.s1, h2, p.s2, n_tilda), mod_exp(p.z, e, n_tilda)) {
        (Some(lz), Some(ze)) => if lz == trunc_rem(ze * p.z_prim, n_tilda) {
            Ok(())
        } else {
            Err(ProofVerificationError::EquationMismatch(Equation::BobZ))
        },
        _ => Err(ProofVerificationError::NonInvertible),
    }
}

/// What the verifier finds of a proof given the challenge `e` that it
/// derived: the first check that fails, if any.
pub open spec fn bob_check_with_hash(
    p: BobProofValues,
    e: (int, int),
    c1: int,
    c2: int,
    n: int,
    nn: int,
    n_tilda: int,
    h1: int,
    h2: int,
    q: int,
) -> Result<(), ProofVerificationError> {
    if e != p.e {
        Err(ProofVerificationError::HashMismatch)
    } else if p.s1 > pow(q, 3) {
        Err(ProofVerificationError::RangeExceeded)
    } else {
        match bob_check_z(p, e.0, n_tilda, h1, h2) {
            Err(x) => Err(x),
            Ok(_) => match bob_check_v(p, e.0, c1, c2, n, nn) {
                Err(x) => Err(x),
                Ok(_) => bob_check_w(p, e.0, n_tilda, h1, h2),
            },
        }
    }
}

/// The commitments that a proof carries.
pub open spec fn carried(p: BobProofValues) -> BobRound1Values {
    BobRound1Values { z: p.z, z_prim: p.z_prim, t: p.t, w: p.w, v: p.v }
}

/// What the verifier finds of a plain proof for the ciphertexts `c1` and
/// `c2`.
pub open spec fn bob_check(
    p: BobProofValues,
    c1: int,
    c2: int,
    n: int,
    nn: int,
    n_tilda: int,
    h1: int,
    h2: int,
    q: int,
) -> Result<
    (),
    ProofVerificationError,
> {
    let e = challenge_of(bob_transcript(n, c1, c2, carried(p)).push(p.e.1));
    bob_check_with_hash(p, (e, p.e.1), c1, c2, n, nn, n_tilda, h1, h2, q)
}

/// Whether the response `s1` opens the public point `x` with the commitment
/// `u`: `g * s1 = x * e + u` in the group of the curve.
pub open spec fn ec_binding(x: (int, int), u: (int, int), s1: int, e: int) -> bool {
    &&& on_curve(x.0, x.1)
    &&& on_curve(u.0, u.1)
    &&& generator_multiple(s1) == element_plus(point_multiple(x, e), u)
}

/// What the verifier finds of an extended proof for the ciphertexts `c1` and
/// `c2`.
pub open spec fn bob_ext_check(
    p: BobProofValues,
    x: (int, int),
    u: (int, int),
    c1: int,
    c2: int,
    n: int,
    nn: int,
    n_tilda: int,
    h1: int,
    h2: int,
    q: int,
) -> Result<(), ProofVerificationError> {
    let e = challenge_of(bob_ext_transcript(n, x, c1, c2, u, carried(p)).push(p.e.1));
    match bob_check_with_hash(p, (e, p.e.1), c1, c2, n, nn, n_tilda, h1, h2, q) {
        Err(f) => Err(f),
        Ok(_) => if ec_binding(x, u, p.s1, p.e.0) {
            Ok(())
        } else {
            Err(ProofVerificationError::EcBindingMismatch)
        },
    }
}

/// The ephemeral data of one proof by Bob. It is drawn afresh for each proof
/// and wiped after use.
#[derive(Debug)]
pub struct BobZkpInit {
    pub alice_ek: EncryptionKey,
    pub alice_setup: ZkpPublicSetup,
    pub alpha: Integer,
    pub beta: Integer,
    pub gamma: Integer,
    pub ro: Integer,
    pub ro_prim: Integer,
    pub sigma: Integer,
    pub tau: Integer,
}

impl View for BobZkpInit {
    type V = BobInitValues;

    open spec fn view(&self) -> BobInitValues {
        BobInitValues {
            n: self.alice_ek.n@,
            nn: self.alice_ek.nn@,
            n_tilda: self.alice_setup.N_tilda@,
            h1: self.alice_setup.h1@,
            h2: self.alice_setup.h2@,
            alpha: self.alpha@,
            beta: self.beta@,
            gamma: self.gamma@,
            ro: self.ro@,
            ro_prim: self.ro_prim@,
            sigma: self.sigma@,
            tau: self.tau@,
        }
    }
}

impl BobZkpInit {
    /// Fresh randomness for a proof under Alice's key and setup, for a curve
    /// of order `q`, with `beta` and `gamma` units modulo `N`; `None` where
    /// no unit was found for one of them.
    pub fn random(alice_ek: &EncryptionKey, alice_setup: &ZkpPublicSetup, q: &Integer) -> (r: Option<Self>)
        requires
            alice_ek.wf(),
            alice_setup.wf(),
            q@ > 0,
        ensures
            r matches Some(i) ==> {
                &&& i@.in_range(q@)
                &&& i@.n == alice_ek.n@
                &&& i@.nn == alice_ek.nn@
                &&& i@.n_tilda == alice_setup.N_tilda@
                &&& i@.h1 == alice_setup.h1@
                &&& i@.h2 == alice_setup.h2@
            },
    {
        let cube = q.pow(3);
        let wide = cube.mul(&alice_setup.N_tilda);
        let narrow = q.mul(&alice_setup.N_tilda);
        proof {
            vstd::arithmetic::power::lemma_pow_positive(q@, 3);
            assert(cube@ * alice_setup.N_tilda@ > 0) by (nonlinear_arith)
                requires
                    cube@ > 0,
                    alice_setup.N_tilda@ > 1,
            ;
            assert(q@ * alice_setup.N_tilda@ > 0) by (nonlinear_arith)
                requires
                    q@ > 0,
                    alice_setup.N_tilda@ > 1,
            ;
        }
        match (Integer::from_paillier_key(alice_ek), Integer::from_paillier_key(alice_ek)) {
            (Some(beta), Some(gamma)) => Some(
                BobZkpInit {
                    alice_ek: alice_ek.clone(),
                    alice_setup: alice_setup.clone(),
                    alpha: Integer::sample_below(&cube),
                    beta,
                    gamma,
                    ro: Integer::sample_below(&narrow),
                    ro_prim: Integer::sample_below(&wide),
                    sigma: Integer::sample_below(&narrow),
                    tau: Integer::sample_below(&narrow),
                },
            ),
            _ => None,
        }
    }

    /// Alice's Paillier modulus.
    pub fn N(&self) -> (r: &Integer)
        ensures
            r@ == self@.n,
    {
        &self.alice_ek.n
    }

    /// The base of Alice's Paillier scheme: her modulus and one.
    pub fn Gen(&self) -> (r: Integer)
        ensures
            r@ == self@.n + 1,
    {
        let one = Integer::one();
        self.N().add(&one)
    }

    /// The square of Alice's Paillier modulus.
    pub fn NN(&self) -> (r: &Integer)
        ensures
            r@ == self@.nn,
    {
        &self.alice_ek.nn
    }

    /// The modulus of Alice's commitment scheme.
    pub fn N_tilda(&self) -> (r: &Integer)
        ensures
            r@ == self@.n_tilda,
    {
        &self.alice_setup.N_tilda
    }

    /// The first base of Alice's commitment scheme.
    pub fn h1(&self) -> (r: &Integer)
        ensures
            r@ == self@.h1,
    {
        &self.alice_setup.h1
    }

    /// The second base of Alice's commitment scheme.
    pub fn h2(&self) -> (r: &Integer)
        ensures
            r@ == self@.h2,
    {
        &self.alice_setup.h2
    }

    /// Overwrites the key, the setup and the randomness with zeros.
    pub fn zeroize(&mut self)
        ensures
            final(self)@.n == 0,
            final(self)@.nn == 0,
            final(self)@.n_tilda == 0,
            final(self)@.h1 == 0,
            final(self)@.h2 == 0,
            final(self)@.alpha == 0,
            final(self)@.beta == 0,
            final(self)@.gamma == 0,
            final(self)@.ro == 0,
            final(self)@.ro_prim == 0,
            final(self)@.sigma == 0,
            final(self)@.tau == 0,
        opens_invariants none
        no_unwind
    {
        self.alice_ek.n.zeroize();
        self.alice_ek.nn.zeroize();
        self.alice_setup.zeroize();
        self.alpha.zeroize();
        self.beta.zeroize();
        self.gamma.zeroize();
        self.ro.zeroize();
        self.ro_prim.zeroize();
        self.sigma.zeroize();
        self.tau.zeroize();
    }
}

/// The randomness is wiped when it goes out of scope.
impl Drop for BobZkpInit {
    fn drop(&mut self)
        opens_invariants none
        no_unwind
    {
        self.zeroize();
    }
}

/// The commitments of the first round of the interactive proof.
#[derive(Debug)]
pub struct BobZkpRound1 {
    pub z: Integer,
    pub z_prim: Integer,
    pub t: Integer,
    pub w: Integer,
    pub v: Integer,
}

impl View for BobZkpRound1 {
    type V = BobRound1Values;

    open spec fn view(&self) -> BobRound1Values {
        BobRound1Values { z: self.z@, z_prim: self.z_prim@, t: self.t@, w: self.w@, v: self.v@ }
    }
}

impl BobZkpRound1 {
    /// The commitments for Bob's share `b`, the plaintext `beta_prim` that he
    /// adds, and Alice's ciphertext `a_encrypted`.
    pub fn from(init: &BobZkpInit, b: &Integer, beta_prim: &Integer, a_encrypted: &Integer) -> (r: Self)
        requires
            init@.usable(),
            b@ >= 0,
            beta_prim@ >= 0,
        ensures
            r@ == bob_commitments(init@, b@, beta_prim@, a_encrypted@),
    {
        let one = Integer::one();
        let power = Integer::mod_pow(a_encrypted, &init.alpha, init.NN());
        let middle = init.gamma.mul(init.N()).add(&one);
        let blind = Integer::mod_pow(&init.beta, init.N(), init.NN());
        let product = power.mul(&middle).mul(&blind);
        proof {
            vstd::arithmetic::div_mod::lemma_mod_bound(pow(a_encrypted@, init@.alpha as nat), init@.nn);
            vstd::arithmetic::div_mod::lemma_mod_bound(pow(init@.beta, init@.n as nat), init@.nn);
            assert(middle@ >= 0) by (nonlinear_arith)
                requires
                    middle@ == init@.gamma * init@.n + 1,
                    init@.gamma >= 0,
                    init@.n > 1,
            ;
            assert(product@ >= 0) by (nonlinear_arith)
                requires
                    product@ == power@ * middle@ * blind@,
                    power@ >= 0,
                    middle@ >= 0,
                    blind@ >= 0,
            ;
        }
        BobZkpRound1 {
            z: commit_plain(init.h1(), b, init.h2(), &init.ro, init.N_tilda()),
            z_prim: commit_plain(init.h1(), &init.alpha, init.h2(), &init.ro_prim, init.N_tilda()),
            t: commit_plain(init.h1(), beta_prim, init.h2(), &init.sigma, init.N_tilda()),
            w: commit_plain(init.h1(), &init.gamma, init.h2(), &init.tau, init.N_tilda()),
            v: product.reduce(init.NN()),
        }
    }
}

/// The responses of the second round of the interactive proof.
#[derive(Debug)]
pub struct BobZkpRound2 {
    pub s: Integer,
    pub s1: Integer,
    pub s2: Integer,
    pub t1: Integer,
    pub t2: Integer,
}

impl BobZkpRound2 {
    /// The responses to the challenge `e`, for Bob's share `b` and the
    /// plaintext `beta_prim` that was encrypted with the randomness `r`.
    pub fn from(init: &BobZkpInit, e: &Integer, b: &Integer, beta_prim: &Integer, r: &Integer) -> (res: Self)
        requires
            init@.n > 1,
            init@.beta >= 0,
            e@ >= 0,
        ensures
            res.s@ == ((pow(r@, e@ as nat) % init@.n) * init@.beta) % init@.n,
            res.s1@ == e@ * b@ + init@.alpha,
            res.s2@ == e@ * init@.ro + init@.ro_prim,
            res.t1@ == e@ * beta_prim@ + init@.gamma,
            res.t2@ == e@ * init@.sigma + init@.tau,
    {
        let power = Integer::mod_pow(r, e, init.N());
        let product = power.mul(&init.beta);
        proof {
            vstd::arithmetic::div_mod::lemma_mod_bound(pow(r@, e@ as nat), init@.n);
            assert(product@ >= 0) by (nonlinear_arith)
                requires
                    product@ == power@ * init@.beta,
                    power@ >= 0,
                    init@.beta >= 0,
            ;
        }
        BobZkpRound2 {
            s: product.reduce(init.N()),
            s1: e.mul(b).add(&init.alpha),
            s2: e.mul(&init.ro).add(&init.ro_prim),
            t1: e.mul(beta_prim).add(&init.gamma),
            t2: e.mul(&init.sigma).add(&init.tau),
        }
    }
}

/// Bob's plain proof that his ciphertext was made from Alice's with a share
/// in `[-q^3, q^3]`.
#[derive(Debug)]
pub struct BobProof {
    pub t: Integer,
    pub v: Integer,
    pub w: Integer,
    pub z: Integer,
    pub z_prim: Integer,
    pub e: HashWithNonce,
    pub s: Integer,
    pub s1: Integer,
    pub s2: Integer,
    pub t1: Integer,
    pub t2: Integer,
}

impl View for BobProof {
    type V = BobProofValues;

    open spec fn view(&self) -> BobProofValues {
        BobProofValues {
            t: self.t@,
            v: self.v@,
            w: self.w@,
            z: self.z@,
            z_prim: self.z_prim@,
            e: (self.e.0@, self.e.1@),
            s: self.s@,
            s1: self.s1@,
            s2: self.s2@,
            t1: self.t1@,
            t2: self.t2@,
        }
    }
}

impl Clone for BobProof {
    fn clone(&self) -> (r: Self)
        ensures
            r@ == self@,
    {
        BobProof {
            t: self.t.clone(),
            v: self.v.clone(),
            w: self.w.clone(),
            z: self.z.clone(),
            z_prim: self.z_prim.clone(),
            e: (self.e.0.clone(), self.e.1.clone()),
            s: self.s.clone(),
            s1: self.s1.clone(),
            s2: self.s2.clone(),
            t1: self.t1.clone(),
            t2: self.t2.clone(),
        }
    }
}

impl BobProof {
    /// The proof with the given commitments and responses.
    pub fn assemble(round1: BobZkpRound1, e: HashWithNonce, round2: BobZkpRound2) -> (p: Self)
        ensures
            p@ == (BobProofValues {
                t: round1.t@,
                v: round1.v@,
                w: round1.w@,
                z: round1.z@,
                z_prim: round1.z_prim@,
                e: (e.0@, e.1@),
                s: round2.s@,
                s1: round2.s1@,
                s2: round2.s2@,
                t1: round2.t1@,
                t2: round2.t2@,
            }),
    {
        BobProof {
            t: round1.t,
            v: round1.v,
            w: round1.w,
            z: round1.z,
            z_prim: round1.z_prim,
            e,
            s: round2.s,
            s1: round2.s1,
            s2: round2.s2,
            t1: round2.t1,
            t2: round2.t2,
        }
    }

    /// The integers that are hashed for the challenge of this proof.
    fn transcript(
        &self,
        a_enc: &Integer,
        mta_avc_out: &Integer,
        alice_ek: &EncryptionKey,
    ) -> (inputs: Vec<Integer>)
        ensures
            values(inputs@) == bob_transcript(alice_ek.n@, a_enc@, mta_avc_out@, carried(self@)),
    {
        let one = Integer::one();
        let inputs = vec![
            alice_ek.n.clone(),
            alice_ek.n.add(&one),
            a_enc.clone(),
            mta_avc_out.clone(),
            self.z.clone(),
            self.z_prim.clone(),
            self.t.clone(),
            self.v.clone(),
            self.w.clone(),
        ];
        proof {
            assert(values(inputs@) =~= bob_transcript(alice_ek.n@, a_enc@, mta_avc_out@, carried(self@)));
        }
        inputs
    }

    /// Checks the first equation.
    fn check_z(&self, e: &Integer, alice_setup: &ZkpSetup) -> (r: Result<(), ProofVerificationError>)
        requires
            alice_setup.N_tilda@ > 1,
        ensures
            r == bob_check_z(self@, e@, alice_setup.N_tilda@, alice_setup.h1@, alice_setup.h2@),
    {
        let N_tilda = &alice_setup.N_tilda;
        let left = commit(&alice_setup.h1, &self.s1, &alice_setup.h2, &self.s2, N_tilda);
        let power = power_mod(&self.z, e, N_tilda);
        match (left, power) {
            (Some(lz), Some(ze)) => {
                let rz = ze.mul(&self.z_prim).truncated_rem(N_tilda);
                if lz.equals(&rz) {
                    Ok(())
                } else {
                    Err(ProofVerificationError::EquationMismatch(Equation::BobZ))
                }
            },
            _ => Err(ProofVerificationError::NonInvertible),
        }
    }

    /// Checks the second equation.
    fn check_v(
        &self,
        e: &Integer,
        a_enc: &Integer,
        mta_avc_out: &Integer,
        alice_ek: &EncryptionKey,
    ) -> (r: Result<(), ProofVerificationError>)
        requires
            alice_ek.wf(),
        ensures
            r == bob_check_v(self@, e@, a_enc@, mta_avc_out@, alice_ek.n@, alice_ek.nn@),
    {
        let one = Integer::one();
        let N = &alice_ek.n;
        let NN = &alice_ek.nn;
        proof {
            crate::encryption::lemma_square_positive(N@);
        }
        let cs = power_mod(a_enc, &self.s1, NN);
        let ce = power_mod(mta_avc_out, e, NN);
        match (cs, ce) {
            (Some(cs), Some(ce)) => {
                let sn = Integer::mod_pow(&self.s, N, NN);
                let lc1 = cs.mul(&sn).mul(&self.t1.mul(N).add(&one)).truncated_rem(NN);
                let lc2 = ce.mul(&self.v).truncated_rem(NN);
                if lc1.equals(&lc2) {
                    Ok(())
                } else {
                    Err(ProofVerificationError::EquationMismatch(Equation::BobV))
                }
            },
            _ => Err(ProofVerificationError::NonInvertible),
        }
    }

    /// Checks the third equation.
    fn check_w(&self, e: &Integer, alice_setup: &ZkpSetup) -> (r: Result<(), ProofVerificationError>)
        requires
            alice_setup.N_tilda@ > 1,
        ensures
            r == bob_check_w(self@, e@, alice_setup.N_tilda@, alice_setup.h1@, alice_setup.h2@),
    {
        let N_tilda = &alice_setup.N_tilda;
        let left = commit(&alice_setup.h1, &self.t1, &alice_setup.h2, &self.t2, N_tilda);
        let power = power_mod(&self.t, e, N_tilda);
        match (left, power) {
            (Some(lw), Some(te)) => {
                let rw = te.mul(&self.w).truncated_rem(N_tilda);
                if lw.equals(&rw) {
                    Ok(())
                } else {
                    Err(ProofVerificationError::EquationMismatch(Equation::BobW))
                }
            },
            _ => Err(ProofVerificationError::NonInvertible),
        }
    }

    /// Checks the proof against the challenge `e` that the verifier derived,
    /// and reports the first check that fails.
    pub fn check_with_hash(
        &self,
        e: &HashWithNonce,
        a_enc: &Integer,
        mta_avc_out: &Integer,
        alice_ek: &EncryptionKey,
        alice_setup: &ZkpSetup,
    ) -> (r: Result<(), ProofVerificationError>)
        requires
            alice_ek.wf(),
            alice_setup.N_tilda@ > 1,
        ensures
            r == bob_check_with_hash(
                self@,
                (e.0@, e.1@),
                a_enc@,
                mta_avc_out@,
                alice_ek.n@,
                alice_ek.nn@,
                alice_setup.N_tilda@,
                alice_setup.h1@,
                alice_setup.h2@,
                group_order(),
            ),
    {
        if !(e.0.equals(&self.e.0) && e.1.equals(&self.e.1)) {
            return Err(ProofVerificationError::HashMismatch);
        }
        if curve_order().pow(3).lt(&self.s1) {
            return Err(ProofVerificationError::RangeExceeded);
        }
        match self.check_z(&e.0, alice_setup) {
            Err(x) => Err(x),
            Ok(_) => match self.check_v(&e.0, a_enc, mta_avc_out, alice_ek) {
                Err(x) => Err(x),
                Ok(_) => self.check_w(&e.0, alice_setup),
            },
        }
    }

    /// Whether the proof holds against the challenge `e` that the verifier
    /// derived.
    pub fn verify_with_hash(
        &self,
        e: &HashWithNonce,
        a_enc: &Integer,
        mta_avc_out: &Integer,
        alice_ek: &EncryptionKey,
        alice_setup: &ZkpSetup,
    ) -> (r: bool)
        requires
            alice_ek.wf(),
            alice_setup.N_tilda@ > 1,
        ensures
            r == bob_check_with_hash(
                self@,
                (e.0@, e.1@),
                a_enc@,
                mta_avc_out@,
                alice_ek.n@,
                alice_ek.nn@,
                alice_setup.N_tilda@,
                alice_setup.h1@,
                alice_setup.h2@,
                group_order(),
            ) is Ok,
    {
        self.check_with_hash(e, a_enc, mta_avc_out, alice_ek, alice_setup).is_ok()
    }

    /// Checks the proof for Alice's ciphertext `a_enc` and Bob's ciphertext
    /// `mta_avc_out`, and reports the first check that fails.
    pub fn check(
        &self,
        a_enc: &Integer,
        mta_avc_out: &Integer,
        alice_ek: &EncryptionKey,
        alice_setup: &ZkpSetup,
    ) -> (r: Result<
        (),
        ProofVerificationError,
    >)
        requires
            alice_ek.wf(),
            alice_setup.N_tilda@ > 1,
        ensures
            r == bob_check(
                self@,
                a_enc@,
                mta_avc_out@,
                alice_ek.n@,
                alice_ek.nn@,
                alice_setup.N_tilda@,
                alice_setup.h1@,
                alice_setup.h2@,
                group_order(),
            ),
    {
        let inputs = self.transcript(a_enc, mta_avc_out, alice_ek);
        let e = HSha512Trunc256::create_hash_with_nonce(&inputs, &self.e.1);
        self.check_with_hash(&e, a_enc, mta_avc_out, alice_ek, alice_setup)
    }

    /// Whether the proof holds for Alice's ciphertext `a_enc` and Bob's
    /// ciphertext `mta_avc_out`.
    pub fn verify(
        &self,
        a_enc: &Integer,
        mta_avc_out: &Integer,
        alice_ek: &EncryptionKey,
        alice_setup: &ZkpSetup,
    ) -> (r: bool)
        requires
            alice_ek.wf(),
            alice_setup.N_tilda@ > 1,
        ensures
            r == bob_check(
                self@,
                a_enc@,
                mta_avc_out@,
                alice_ek.n@,
                alice_ek.nn@,
                alice_setup.N_tilda@,
                alice_setup.h1@,
                alice_setup.h2@,
                group_order(),
            ) is Ok,
    {
        self.check(a_enc, mta_avc_out, alice_ek, alice_setup).is_ok()
    }

    /// The proof made from given randomness and a given nonce.
    pub fn generate_with(
        init: &BobZkpInit,
        nonce: &Integer,
        a_encrypted: &Integer,
        mta_encrypted: &Integer,
        b: &Integer,
        beta_prim: &Integer,
        r: &Integer,
    ) -> (p: Self)
        requires
            init@.usable(),
            b@ >= 0,
            beta_prim@ >= 0,
        ensures
            p@ == bob_proof(init@, a_encrypted@, mta_encrypted@, b@, beta_prim@, r@, nonce@),
            0 <= p@.e.0 < pow(2, 256),
    {
        let round1 = BobZkpRound1::from(init, b, beta_prim, a_encrypted);
        let inputs = vec![
            init.N().clone(),
            init.Gen(),
            a_encrypted.clone(),
            mta_encrypted.clone(),
            round1.z.clone(),
            round1.z_prim.clone(),
            round1.t.clone(),
            round1.v.clone(),
            round1.w.clone(),
        ];
        proof {
            assert(values(inputs@) =~= bob_transcript(init@.n, a_encrypted@, mta_encrypted@, round1@));
        }
        let e = HSha512Trunc256::create_hash_with_nonce(&inputs, nonce);
        let round2 = BobZkpRound2::from(init, &e.0, b, beta_prim, r);
        BobProof::assemble(round1, e, round2)
    }

    /// A proof that `mta_encrypted` was made from `a_encrypted` with the
    /// share `b` and the plaintext `beta_prim`, encrypted with the randomness
    /// `r`, against Alice's public setup and for a curve of order `q`. The
    /// challenge is below `q`. `None` where the randomness or a nonce with
    /// such a challenge could not be drawn.
    pub fn generate(
        a_encrypted: &Integer,
        mta_encrypted: &Integer,
        b: &Integer,
        beta_prim: &Integer,
        alice_ek: &EncryptionKey,
        alice_setup: &ZkpPublicSetup,
        r: &Integer,
        q: &Integer,
    ) -> (p: Option<BobProof>)
        requires
            alice_ek.wf(),
            alice_setup.wf(),
            b@ >= 0,
            beta_prim@ >= 0,
            q@ > 0,
        ensures
            p matches Some(made) ==> {
                &&& made_by_bob(
                    made@,
                    a_encrypted@,
                    mta_encrypted@,
                    b@,
                    beta_prim@,
                    r@,
                    alice_ek.n@,
                    alice_ek.nn@,
                    alice_setup.N_tilda@,
                    alice_setup.h1@,
                    alice_setup.h2@,
                    q@,
                )
                &&& 0 <= made@.e.0 < q@
                &&& 0 <= made@.e.1 < pow(2, 256)
            },
    {
        match BobZkpInit::random(alice_ek, alice_setup, q) {
            None => None,
            Some(drawn) => {
                let mut init = drawn;
                let ghost i = init@;
                proof {
                    crate::encryption::lemma_square_positive(i.n);
                }
                let round1 = BobZkpRound1::from(&init, b, beta_prim, a_encrypted);
                let ghost k = round1@;
                let inputs = vec![
                    init.N().clone(),
                    init.Gen(),
                    a_encrypted.clone(),
                    mta_encrypted.clone(),
                    round1.z.clone(),
                    round1.z_prim.clone(),
                    round1.t.clone(),
                    round1.v.clone(),
                    round1.w.clone(),
                ];
                proof {
                    assert(values(inputs@) =~= bob_transcript(i.n, a_encrypted@, mta_encrypted@, k));
                }
                let result = match HSha512Trunc256::create_hash_bounded_by_q(&inputs, q) {
                    None => None,
                    Some(e) => {
                        let round2 = BobZkpRound2::from(&init, &e.0, b, beta_prim, r);
                        Some(BobProof::assemble(round1, e, round2))
                    },
                };
                init.zeroize();
                proof {
                    if result is Some {
                        let made = result->0;
                        assert(i.in_range(q@));
                        assert(made@ == bob_proof(i, a_encrypted@, mta_encrypted@, b@, beta_prim@, r@, made@.e.1));
                    }
                }
                result
            },
        }
    }
}

/// Bob's extended proof: the plain proof, bound to the public point `X` of
/// his share by the commitment `u`.
#[derive(Debug)]
pub struct BobProofExt {
    pub proof: BobProof,
    pub u: Point,
    pub X: Point,
}

impl Clone for BobProofExt {
    fn clone(&self) -> (r: Self)
        ensures
            r.proof@ == self.proof@,
            r.u@ == self.u@,
            r.X@ == self.X@,
    {
        BobProofExt { proof: self.proof.clone(), u: self.u.clone(), X: self.X.clone() }
    }
}

impl BobProofExt {
    /// The integers that are hashed for the challenge with the commitments
    /// `k`.
    fn transcript(
        n: &Integer,
        X: &Point,
        a_enc: &Integer,
        mta_avc_out: &Integer,
        u: &Point,
        k: &BobZkpRound1,
    ) -> (inputs: Vec<Integer>)
        ensures
            values(inputs@) == bob_ext_transcript(n@, X@, a_enc@, mta_avc_out@, u@, k@),
    {
        let one = Integer::one();
        let inputs = vec![
            n.clone(),
            n.add(&one),
            X.x.clone(),
            X.y.clone(),
            a_enc.clone(),
            mta_avc_out.clone(),
            u.x.clone(),
            u.y.clone(),
            k.z.clone(),
            k.z_prim.clone(),
            k.t.clone(),
            k.v.clone(),
            k.w.clone(),
        ];
        proof {
            assert(values(inputs@) =~= bob_ext_transcript(n@, X@, a_enc@, mta_avc_out@, u@, k@));
        }
        inputs
    }

    /// Whether the response opens the public point: `g * s1 = X * e + u`.
    pub fn binds(&self) -> (r: bool)
        ensures
            r == ec_binding(self.X@, self.u@, self.proof@.s1, self.proof@.e.0),
    {
        if !self.X.is_valid() || !self.u.is_valid() {
            return false;
        }
        let x1 = Point::generator_times(&self.proof.s1);
        let x2 = match self.X.times(&self.proof.e.0) {
            None => Some(self.u.clone()),
            Some(xe) => xe.plus(&self.u),
        };
        same_element(&x1, &x2)
    }

    /// Checks the proof for Alice's ciphertext `a_enc` and Bob's ciphertext
    /// `mta_avc_out`, and reports the first check that fails.
    pub fn check(
        &self,
        a_enc: &Integer,
        mta_avc_out: &Integer,
        alice_ek: &EncryptionKey,
        alice_zkp_setup: &ZkpSetup,
    ) -> (r: Result<
        (),
        ProofVerificationError,
    >)
        requires
            alice_ek.wf(),
            alice_zkp_setup.N_tilda@ > 1,
        ensures
            r == bob_ext_check(
                self.proof@,
                self.X@,
                self.u@,
                a_enc@,
                mta_avc_out@,
                alice_ek.n@,
                alice_ek.nn@,
                alice_zkp_setup.N_tilda@,
                alice_zkp_setup.h1@,
                alice_zkp_setup.h2@,
                group_order(),
            ),
    {
        let k = BobZkpRound1 {
            z: self.proof.z.clone(),
            z_prim: self.proof.z_prim.clone(),
            t: self.proof.t.clone(),
            w: self.proof.w.clone(),
            v: self.proof.v.clone(),
        };
        let inputs = BobProofExt::transcript(&alice_ek.n, &self.X, a_enc, mta_avc_out, &self.u, &k);
        let e = HSha512Trunc256::create_hash_with_nonce(&inputs, &self.proof.e.1);
        match self.proof.check_with_hash(&e, a_enc, mta_avc_out, alice_ek, alice_zkp_setup) {
            Err(f) => Err(f),
            Ok(_) => if self.binds() {
                Ok(())
            } else {
                Err(ProofVerificationError::EcBindingMismatch)
            },
        }
    }

    /// Whether the proof holds for Alice's ciphertext `a_enc` and Bob's
    /// ciphertext `mta_avc_out`.
    pub fn verify(
        &self,
        a_enc: &Integer,
        mta_avc_out: &Integer,
        alice_ek: &EncryptionKey,
        alice_zkp_setup: &ZkpSetup,
    ) -> (r: bool)
        requires
            alice_ek.wf(),
            alice_zkp_setup.N_tilda@ > 1,
        ensures
            r == bob_ext_check(
                self.proof@,
                self.X@,
                self.u@,
                a_enc@,
                mta_avc_out@,
                alice_ek.n@,
                alice_ek.nn@,
                alice_zkp_setup.N_tilda@,
                alice_zkp_setup.h1@,
                alice_zkp_setup.h2@,
                group_order(),
            ) is Ok,
    {
        self.check(a_enc, mta_avc_out, alice_ek, alice_zkp_setup).is_ok()
    }

    /// The proof made from given randomness and a given nonce; `None` where
    /// the public point of the share, or the commitment to `alpha`, is the
    /// neutral element.
    pub fn generate_with(
        init: &BobZkpInit,
        nonce: &Integer,
        a_encrypted: &Integer,
        mta_encrypted: &Integer,
        b: &Integer,
        beta_prim: &Integer,
        r: &Integer,
    ) -> (p: Option<Self>)
        requires
            init@.usable(),
            b@ >= 0,
            beta_prim@ >= 0,
        ensures
            p is Some <==> generator_multiple(b@) is Some && generator_multiple(init@.alpha) is Some,
            p matches Some(ext) ==> {
                &&& Some(ext.X@) == generator_multiple(b@)
                &&& Some(ext.u@) == generator_multiple(init@.alpha)
                &&& ext.proof@ == bob_ext_proof(init@, ext.X@, ext.u@, a_encrypted@, mta_encrypted@, b@, beta_prim@, r@, nonce@)
                &&& 0 <= ext.proof@.e.0 < pow(2, 256)
            },
    {
        let X = Point::generator_times(b);
        let u = Point::generator_times(&init.alpha);
        match (X, u) {
            (Some(X), Some(u)) => {
                let round1 = BobZkpRound1::from(init, b, beta_prim, a_encrypted);
                let inputs = BobProofExt::transcript(init.N(), &X, a_encrypted, mta_encrypted, &u, &round1);
                let e = HSha512Trunc256::create_hash_with_nonce(&inputs, nonce);
                let round2 = BobZkpRound2::from(init, &e.0, b, beta_prim, r);
                Some(BobProofExt { proof: BobProof::assemble(round1, e, round2), u, X })
            },
            _ => None,
        }
    }

    /// An extended proof for the share `b`, whose public point is `g * b`.
    /// The challenge is below `q`. `None` where the randomness or a nonce
    /// with such a challenge could not be drawn, or a point is the neutral
    /// element.
    pub fn generate(
        a_encrypted: &Integer,
        mta_encrypted: &Integer,
        b: &Integer,
        beta_prim: &Integer,
        alice_ek: &EncryptionKey,
        alice_setup: &ZkpPublicSetup,
        r: &Integer,
        q: &Integer,
    ) -> (p: Option<BobProofExt>)
        requires
            alice_ek.wf(),
            alice_setup.wf(),
            b@ >= 0,
            beta_prim@ >= 0,
            q@ > 0,
        ensures
            p matches Some(ext) ==> {
                &&& made_by_bob_ext(
                    ext.proof@,
                    ext.X@,
                    ext.u@,
                    a_encrypted@,
                    mta_encrypted@,
                    b@,
                    beta_prim@,
                    r@,
                    alice_ek.n@,
                    alice_ek.nn@,
                    alice_setup.N_tilda@,
                    alice_setup.h1@,
                    alice_setup.h2@,
                    q@,
                )
                &&& 0 <= ext.proof@.e.0 < q@
                &&& 0 <= ext.proof@.e.1 < pow(2, 256)
            },
    {
        match BobZkpInit::random(alice_ek, alice_setup, q) {
            None => None,
            Some(drawn) => {
                let mut init = drawn;
                let ghost i = init@;
                proof {
                    crate::encryption::lemma_square_positive(i.n);
                }
                let X = Point::generator_times(b);
                let u = Point::generator_times(&init.alpha);
                let result = match (X, u) {
                    (Some(X), Some(u)) => {
                        let round1 = BobZkpRound1::from(&init, b, beta_prim, a_encrypted);
                        let inputs = BobProofExt::transcript(init.N(), &X, a_encrypted, mta_encrypted, &u, &round1);
                        match HSha512Trunc256::create_hash_bounded_by_q(&inputs, q) {
                            None => None,
                            Some(e) => {
                                let round2 = BobZkpRound2::from(&init, &e.0, b, beta_prim, r);
                                Some(BobProofExt { proof: BobProof::assemble(round1, e, round2), u, X })
                            },
                        }
                    },
                    _ => None,
                };
                init.zeroize();
                proof {
                    if result is Some {
                        let ext = result->0;
                        assert(i.in_range(q@));
                        assert(ext.proof@ == bob_ext_proof(
                            i, ext.X@, ext.u@, a_encrypted@, mta_encrypted@, b@, beta_prim@, r@, ext.proof@.e.1));
                    }
                }
                result
            },
        }
    }
}

/// Two plain proofs of knowledge of a discrete logarithm, sent in place of a
/// range proof where no setup is known.
#[derive(Debug)]
pub struct DLogProofs {
    pub b_proof: DLogProof,
    pub beta_tag_proof: DLogProof,
}

/// The proofs that Bob can attach to his message.
#[derive(Debug)]
pub enum BobProofType {
    RangeProofExt(BobProofExt),
    RangeProof(BobProof),
    DLogProofs(DLogProofs),
}

/// Which conversion is run: the plain one, or the one that checks Bob's
/// share against his public point.
#[derive(Debug, Clone, Copy, PartialEq, Eq, Structural)]
pub enum MTAMode {
    MtA,
    MtAwc,
}

/// Bob's ciphertext: Alice's raised to `b`, times the encryption of
/// `beta_prim` under the randomness `r`.
pub open spec fn mta_output(c1: int, b: int, beta_prim: int, r: int, n: int, nn: int) -> int {
    ((pow(c1, b as nat) % nn) * encryption(beta_prim, r, n, nn)) % nn
}

/// Bob's additive share: the negative of `beta_prim` modulo `q`.
pub open spec fn additive_share(beta_prim: int, q: int) -> int {
    (q - beta_prim % q) % q
}

/// The proof attached to Bob's message is the one prescribed: with a setup
/// the range proof of the mode, made by Bob for his share with a challenge
/// below the order of the curve, and without one two proofs of knowledge,
/// for the points of his share and of `beta_prim`.
pub open spec fn attached_as_prescribed(
    attached: BobProofType,
    setup: Option<&ZkpPublicSetup>,
    mode: MTAMode,
    c1: int,
    c2: int,
    b: int,
    beta_prim: int,
    r: int,
    n: int,
    nn: int,
) -> bool {
    match attached {
        BobProofType::RangeProof(p) => {
            &&& setup is Some
            &&& mode == MTAMode::MtA
            &&& 0 <= p@.e.0 < group_order()
            &&& made_by_bob(
                p@,
                c1,
                c2,
                b,
                beta_prim,
                r,
                n,
                nn,
                setup->0.N_tilda@,
                setup->0.h1@,
                setup->0.h2@,
                group_order(),
            )
        },
        BobProofType::RangeProofExt(ext) => {
            &&& setup is Some
            &&& mode == MTAMode::MtAwc
            &&& 0 <= ext.proof@.e.0 < group_order()
            &&& made_by_bob_ext(
                ext.proof@,
                ext.X@,
                ext.u@,
                c1,
                c2,
                b,
                beta_prim,
                r,
                n,
                nn,
                setup->0.N_tilda@,
                setup->0.h1@,
                setup->0.h2@,
                group_order(),
            )
        },
        BobProofType::DLogProofs(d) => {
            &&& setup is None
            &&& Some(d.b_proof.pk@) == generator_multiple(b)
            &&& Some(d.beta_tag_proof.pk@) == generator_multiple(beta_prim % group_order())
        },
    }
}

/// The second message of the share conversion, from Bob to Alice: his
/// ciphertext and the proof that goes with it.
#[derive(Debug)]
pub struct MessageB {
    pub c: Integer,
    pub proof: BobProofType,
}

impl MessageB {
    /// Bob's ciphertext and additive share for his share `b`, the plaintext
    /// `beta_prim` and the randomness `r`.
    pub fn convert(
        b: &Integer,
        alice_ek: &EncryptionKey,
        alice_c: &Integer,
        beta_prim: &Integer,
        r: &Integer,
    ) -> (out: (Integer, Integer))
        requires
            alice_ek.wf(),
            b@ >= 0,
            beta_prim@ >= 0,
            r@ >= 0,
        ensures
            out.0@ == mta_output(alice_c@, b@, beta_prim@, r@, alice_ek.n@, alice_ek.nn@),
            out.1@ == additive_share(beta_prim@, group_order()),
            0 <= out.1@ < group_order(),
    {
        let b_times_enc_a = alice_ek.scale(alice_c, b);
        let enc_beta_prim = alice_ek.encrypt(beta_prim, r);
        let mta_out = alice_ek.combine(&b_times_enc_a, &enc_beta_prim);
        let q = curve_order();
        let beta_prim_fe = beta_prim.reduce(&q);
        let difference = q.sub(&beta_prim_fe);
        let beta = difference.reduce(&q);
        (mta_out, beta)
    }

    /// The message that answers `alice_msg` for Bob's share `b`, with his
    /// additive share. With Alice's setup it carries the range proof of the
    /// mode, without it two proofs of knowledge of a discrete logarithm.
    /// The randomness of the encryption is wiped before the message is
    /// returned. `None` where the randomness or a proof could not be made.
    pub fn new(
        b: &Integer,
        alice_ek: &EncryptionKey,
        alice_zkp_setup: Option<&ZkpPublicSetup>,
        alice_msg: &MessageA,
        mta_mode: MTAMode,
    ) -> (out: Option<(MessageB, Integer)>)
        requires
            alice_ek.wf(),
            b@ >= 0,
            alice_zkp_setup matches Some(s) ==> s.wf(),
        ensures
            out matches Some(pair) ==> exists|beta_prim: int, r: int|
                {
                    &&& 0 <= beta_prim < alice_ek.n@
                    &&& 0 <= r < alice_ek.n@
                    &&& pair.0.c@ == #[trigger] mta_output(alice_msg.c@, b@, beta_prim, r, alice_ek.n@, alice_ek.nn@)
                    &&& pair.1@ == additive_share(beta_prim, group_order())
                    &&& attached_as_prescribed(
                        pair.0.proof,
                        alice_zkp_setup,
                        mta_mode,
                        alice_msg.c@,
                        pair.0.c@,
                        b@,
                        beta_prim,
                        r,
                        alice_ek.n@,
                        alice_ek.nn@,
                    )
                },
    {
        let alice_c = &alice_msg.c;
        let beta_prim = Integer::sample_below(&alice_ek.n);
        let mut r = alice_ek.sample_randomness();
        let ghost drawn = r@;
        let (mta_out, beta) = MessageB::convert(b, alice_ek, alice_c, &beta_prim, &r);
        let q = curve_order();
        let attached = match alice_zkp_setup {
            Some(zkp_setup) => match mta_mode {
                MTAMode::MtA => match BobProof::generate(alice_c, &mta_out, b, &beta_prim, alice_ek, zkp_setup, &r, &q) {
                    Some(p) => Some(BobProofType::RangeProof(p)),
                    None => None,
                },
                MTAMode::MtAwc => match BobProofExt::generate(alice_c, &mta_out, b, &beta_prim, alice_ek, zkp_setup, &r, &q) {
                    Some(p) => Some(BobProofType::RangeProofExt(p)),
                    None => None,
                },
            },
            None => {
                let beta_prim_fe = beta_prim.reduce(&q);
                match (DLogProof::prove(b), DLogProof::prove(&beta_prim_fe)) {
                    (Some(b_proof), Some(beta_tag_proof)) => Some(BobProofType::DLogProofs(DLogProofs { b_proof, beta_tag_proof })),
                    _ => None,
                }
            },
        };
        r.zeroize();
        match attached {
            Some(attached) => {
                proof {
                    assert(mta_out@ == mta_output(alice_msg.c@, b@, beta_prim@, drawn, alice_ek.n@, alice_ek.nn@));
                    assert(attached_as_prescribed(
                        attached,
                        alice_zkp_setup,
                        mta_mode,
                        alice_msg.c@,
                        mta_out@,
                        b@,
                        beta_prim@,
                        drawn,
                        alice_ek.n@,
                        alice_ek.nn@,
                    ));
                }
                Some((MessageB { c: mta_out, proof: attached }, beta))
            },
            None => None,
        }
    }
}

} // verus!
