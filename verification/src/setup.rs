//! The setup of the Fujisaki–Okamoto commitment scheme that the range proofs
//! rest on: the private setup, its public part, and the two Schnorr proofs
//! that the public part is well formed.
#![allow(non_snake_case)]
use vstd::prelude::*;
use vstd::arithmetic::power::pow;
use crate::hashing::{challenge_of, values, HSha512Trunc256};
use crate::integer::{trunc_rem, Integer};
use crate::modular::{mod_exp, power_mod};
use crate::primes::{
    has_bits, pair_of_safe_primes, sample_generator_of_rsa_group, PairOfSafePrimes, MAX_SAFE_PRIME_BITS,
    MIN_SAFE_PRIME_BITS,
};

verus! {

/// The size in bits of the modulus of a setup, unless another is asked for.
pub const DEFAULT_GROUP_ORDER_BIT_LENGTH: usize = 2048;

/// The size in bits of each safe prime of such a modulus.
pub const DEFAULT_SAFE_PRIME_BIT_LENGTH: usize = 1024;

/// Why a public setup was not accepted, or could not be made.
#[derive(Debug, Clone, Copy, PartialEq, Eq, Structural)]
pub enum SetupFailure {
    /// The challenge of a proof is not the hash of its transcript.
    ChallengeMismatch,
    /// The commitment of a proof does not follow from its response.
    ProofMismatch,
    /// The secret exponent has no inverse modulo the group's order.
    InvAlphaNonInvertible,
}

/// The error of a setup that did not verify.
#[derive(Debug, Clone, Copy, PartialEq, Eq, Structural)]
pub struct ZkpSetupVerificationError {
    pub kind: SetupFailure,
}

impl ZkpSetupVerificationError {
    /// The error in words.
    pub fn message(&self) -> (r: String)
        ensures
            r@ == match self.kind {
                SetupFailure::ChallengeMismatch => "zkp setup verification: dlog proof: challenge does not match"@,
                SetupFailure::ProofMismatch => "zkp setup verification: Dlog proof failed"@,
                SetupFailure::InvAlphaNonInvertible => "zkp setup verification: alpha non invertible"@,
            },
    {
        match self.kind {
            SetupFailure::ChallengeMismatch => "zkp setup verification: dlog proof: challenge does not match".to_string(),
            SetupFailure::ProofMismatch => "zkp setup verification: Dlog proof failed".to_string(),
            SetupFailure::InvAlphaNonInvertible => "zkp setup verification: alpha non invertible".to_string(),
        }
    }
}

/// A Schnorr proof of knowledge of a discrete logarithm modulo `N_tilda`:
/// the commitment `V`, the challenge, and the response `r`.
#[derive(Debug)]
pub struct ZkpSetupProof {
    pub V: Integer,
    pub challenge: Integer,
    pub r: Integer,
}

/// The numbers of a [`ZkpSetupProof`].
pub struct SetupProofValues {
    pub commitment: int,
    pub challenge: int,
    pub response: int,
}

impl View for ZkpSetupProof {
    type V = SetupProofValues;

    open spec fn view(&self) -> SetupProofValues {
        SetupProofValues { commitment: self.V@, challenge: self.challenge@, response: self.r@ }
    }
}

impl Clone for ZkpSetupProof {
    fn clone(&self) -> (r: Self)
        ensures
            r@ == self@,
    {
        ZkpSetupProof { V: self.V.clone(), challenge: self.challenge.clone(), r: self.r.clone() }
    }
}

/// The proof that the prover makes from the ephemeral exponent `v`: for the
/// base `h1`, the value `h2` and the logarithm `dlog` of `h2`.
pub open spec fn setup_proof(n: int, h1: int, h2: int, dlog: int, order: int, v: int) -> SetupProofValues {
    let commitment = pow(h1, v as nat) % n;
    let challenge = challenge_of(seq![n, commitment, h1, h2]);
    SetupProofValues { commitment, challenge, response: trunc_rem(v - dlog * challenge, order) }
}

/// What the verifier finds of a proof for the base `h1` and the value `h2`.
pub open spec fn setup_proof_check(
    n: int,
    h1: int,
    h2: int,
    proof: SetupProofValues,
) -> Result<(), SetupFailure> {
    if proof.challenge != challenge_of(seq![n, proof.commitment, h1, h2]) {
        Err(SetupFailure::ChallengeMismatch)
    } else if n <= 1 {
        Err(SetupFailure::ProofMismatch)
    } else {
        match mod_exp(h1, proof.response, n) {
            None => Err(SetupFailure::ProofMismatch),
            Some(a) => if (a * (pow(h2, proof.challenge as nat) % n)) % n == proof.commitment {
                Ok(())
            } else {
                Err(SetupFailure::ProofMismatch)
            },
        }
    }
}

/// The private setup of the commitment scheme. `p`, `q`, `order` and `alpha`
/// are secret; `N_tilda`, `h1` and `h2` are published.
#[derive(Debug)]
pub struct ZkpSetup {
    pub p: Integer,
    pub q: Integer,
    pub order: Integer,
    pub alpha: Integer,
    pub N_tilda: Integer,
    pub h1: Integer,
    pub h2: Integer,
}

impl Clone for ZkpSetup {
    fn clone(&self) -> (r: Self)
        ensures
            r.p@ == self.p@,
            r.q@ == self.q@,
            r.order@ == self.order@,
            r.alpha@ == self.alpha@,
            r.N_tilda@ == self.N_tilda@,
            r.h1@ == self.h1@,
            r.h2@ == self.h2@,
    {
        ZkpSetup {
            p: self.p.clone(),
            q: self.q.clone(),
            order: self.order.clone(),
            alpha: self.alpha.clone(),
            N_tilda: self.N_tilda.clone(),
            h1: self.h1.clone(),
            h2: self.h2.clone(),
        }
    }
}

impl ZkpSetup {
    /// The modulus and the order are large enough to draw exponents below
    /// them and to reduce by them.
    pub open spec fn wf(&self) -> bool {
        self.N_tilda@ > 2 && self.order@ > 1
    }

    /// The setup is what an honest party generates: the modulus is the
    /// product of two odd numbers `p` and `q`, `order` is the product of
    /// their halves, `h1` to the power `order` is one, and `h2` is `h1` to
    /// the secret power `alpha`.
    pub open spec fn is_sound(&self) -> bool {
        &&& self.p@ > 4 && self.p@ % 2 == 1
        &&& self.q@ > 4 && self.q@ % 2 == 1
        &&& self.N_tilda@ == self.p@ * self.q@
        &&& self.order@ == (self.p@ / 2) * (self.q@ / 2)
        &&& 1 <= self.alpha@ < self.order@
        &&& 0 <= self.h1@ < self.N_tilda@
        &&& pow(self.h1@, self.order@ as nat) % self.N_tilda@ == 1
        &&& self.h2@ == pow(self.h1@, self.alpha@ as nat) % self.N_tilda@
    }

    /// Whether the modulus and the order are large enough.
    pub fn is_valid(&self) -> (r: bool)
        ensures
            r == self.wf(),
    {
        let one = Integer::one();
        let two = Integer::from_u8(2);
        two.lt(&self.N_tilda) && one.lt(&self.order)
    }

    /// The setup over a pair of safe primes with the generator `h1` and the
    /// secret exponent `alpha`; `None` unless `alpha` lies in `[1, order)`,
    /// `h1` in `[0, N_tilda)`, and `h1` to the power `order` is one.
    pub fn assemble(primes: &PairOfSafePrimes, h1: Integer, alpha: Integer) -> (r: Option<Self>)
        requires
            primes.wf(),
        ensures
            r is Some <==> {
                &&& 1 <= alpha@ < primes.p_prim@ * primes.q_prim@
                &&& 0 <= h1@ < primes.p@ * primes.q@
                &&& pow(h1@, (primes.p_prim@ * primes.q_prim@) as nat) % (primes.p@ * primes.q@) == 1
            },
            r matches Some(s) ==> {
                &&& s.is_sound()
                &&& s.p@ == primes.p@
                &&& s.q@ == primes.q@
                &&& s.order@ == primes.p_prim@ * primes.q_prim@
                &&& s.alpha@ == alpha@
                &&& s.h1@ == h1@
            },
    {
        let n_tilda = primes.p.mul(&primes.q);
        let order = primes.p_prim.mul(&primes.q_prim);
        proof {
            assert(primes.p@ * primes.q@ > 2) by (nonlinear_arith)
                requires
                    primes.p@ > 4,
                    primes.q@ > 4,
            ;
            assert(primes.p_prim@ * primes.q_prim@ > 1) by (nonlinear_arith)
                requires
                    primes.p_prim@ > 1,
                    primes.q_prim@ > 1,
            ;
            assert(primes.p@ / 2 == primes.p_prim@);
            assert(primes.q@ / 2 == primes.q_prim@);
        }
        let one = Integer::one();
        if !(one.le(&alpha) && alpha.lt(&order)) {
            return None;
        }
        if h1.is_negative() || !h1.lt(&n_tilda) {
            return None;
        }
        let unit = Integer::mod_pow(&h1, &order, &n_tilda);
        if !unit.equals(&one) {
            return None;
        }
        let h2 = Integer::mod_pow(&h1, &alpha, &n_tilda);
        Some(
            ZkpSetup {
                p: primes.p.clone(),
                q: primes.q.clone(),
                order,
                alpha,
                N_tilda: n_tilda,
                h1,
                h2,
            },
        )
    }

    /// A setup over the given safe primes, with a generator and a secret
    /// exponent drawn at random; `None` where no generator was found.
    pub fn from_primes(primes: &PairOfSafePrimes) -> (r: Option<Self>)
        requires
            primes.wf(),
        ensures
            r matches Some(s) ==> {
                &&& s.is_sound()
                &&& s.p@ == primes.p@
                &&& s.q@ == primes.q@
            },
    {
        let h1 = sample_generator_of_rsa_group(&primes.p, &primes.q);
        match h1 {
            None => None,
            Some(h1) => {
                let order = primes.p_prim.mul(&primes.q_prim);
                proof {
                    assert(primes.p_prim@ * primes.q_prim@ > 1) by (nonlinear_arith)
                        requires
                            primes.p_prim@ > 1,
                            primes.q_prim@ > 1,
                    ;
                }
                let one = Integer::one();
                let mut alpha = Integer::sample_range(&one, &order);
                let result = ZkpSetup::assemble(primes, h1, alpha.clone());
                alpha.zeroize();
                result
            },
        }
    }

    /// A new setup with a modulus of `group_order_bit_length` bits, whose
    /// primes have half that size; `None` where that half is under
    /// `MIN_SAFE_PRIME_BITS` or above `MAX_SAFE_PRIME_BITS`, or where the
    /// primes or the generator could not be had.
    pub fn random(group_order_bit_length: usize) -> (r: Option<Self>)
        ensures
            group_order_bit_length / 2 < MIN_SAFE_PRIME_BITS || group_order_bit_length / 2 > MAX_SAFE_PRIME_BITS
                ==> r is None,
            r matches Some(s) ==> {
                &&& s.is_sound()
                &&& has_bits(s.p@, group_order_bit_length as int / 2)
                &&& has_bits(s.q@, group_order_bit_length as int / 2)
            },
    {
        let bit_length: usize = group_order_bit_length / 2;
        match pair_of_safe_primes(bit_length) {
            None => None,
            Some(pair) => {
                let mut primes = pair;
                let result = ZkpSetup::from_primes(&primes);
                primes.zeroize();
                result
            },
        }
    }

    /// The Schnorr proof for the ephemeral exponent `v`.
    pub fn dlog_proof_with(
        N_tilda: &Integer,
        h1: &Integer,
        h2: &Integer,
        dlog: &Integer,
        order: &Integer,
        v: &Integer,
    ) -> (r: ZkpSetupProof)
        requires
            N_tilda@ > 0,
            order@ != 0,
            v@ >= 0,
        ensures
            r@ == setup_proof(N_tilda@, h1@, h2@, dlog@, order@, v@),
    {
        let commitment = Integer::mod_pow(h1, v, N_tilda);
        let inputs = vec![N_tilda.clone(), commitment.clone(), h1.clone(), h2.clone()];
        proof {
            assert(values(inputs@) =~= seq![N_tilda@, commitment@, h1@, h2@]);
        }
        let challenge = HSha512Trunc256::create_hash(&inputs);
        let difference = v.sub(&dlog.mul(&challenge));
        ZkpSetupProof { V: commitment, challenge, r: difference.truncated_rem(order) }
    }

    /// A Schnorr proof that the prover knows `dlog` with `h2 = h1^dlog`
    /// modulo `N_tilda`, made with a fresh exponent from `[1, N_tilda - 1)`.
    pub fn dlog_proof(
        N_tilda: &Integer,
        h1: &Integer,
        h2: &Integer,
        dlog: &Integer,
        order: &Integer,
    ) -> (r: ZkpSetupProof)
        requires
            N_tilda@ > 2,
            order@ != 0,
        ensures
            exists|v: int| 1 <= v < N_tilda@ - 1 && r@ == #[trigger] setup_proof(N_tilda@, h1@, h2@, dlog@, order@, v),
    {
        let one = Integer::one();
        let mut v = Integer::sample_range(&one, &N_tilda.sub(&one));
        let proof = ZkpSetup::dlog_proof_with(N_tilda, h1, h2, dlog, order, &v);
        proof {
            assert(proof@ == setup_proof(N_tilda@, h1@, h2@, dlog@, order@, v@));
        }
        v.zeroize();
        proof
    }

    /// Whether `h2` is `h1` to the secret power modulo `N_tilda`.
    pub fn verify_setup(&self) -> (r: bool)
        requires
            self.N_tilda@ > 0,
            self.alpha@ >= 0,
        ensures
            r == (self.h2@ == pow(self.h1@, self.alpha@ as nat) % self.N_tilda@),
    {
        self.h2.equals(&Integer::mod_pow(&self.h1, &self.alpha, &self.N_tilda))
    }

    /// Overwrites every field with zeros.
    pub fn zeroize(&mut self)
        ensures
            final(self).p@ == 0,
            final(self).q@ == 0,
            final(self).order@ == 0,
            final(self).alpha@ == 0,
            final(self).N_tilda@ == 0,
            final(self).h1@ == 0,
            final(self).h2@ == 0,
        opens_invariants none
        no_unwind
    {
        self.p.zeroize();
        self.q.zeroize();
        self.order.zeroize();
        self.alpha.zeroize();
        self.N_tilda.zeroize();
        self.h1.zeroize();
        self.h2.zeroize();
    }
}

/// The secrets of a setup are wiped when it goes out of scope.
impl Drop for ZkpSetup {
    fn drop(&mut self)
        opens_invariants none
        no_unwind
    {
        self.zeroize();
    }
}

/// The public part of a setup, with the proofs that `h2` is a power of `h1`
/// and `h1` a power of `h2`.
#[derive(Debug)]
pub struct ZkpPublicSetup {
    pub N_tilda: Integer,
    pub h1: Integer,
    pub h2: Integer,
    pub dlog_proof: ZkpSetupProof,
    pub inv_dlog_proof: ZkpSetupProof,
}

impl Clone for ZkpPublicSetup {
    fn clone(&self) -> (r: Self)
        ensures
            r.N_tilda@ == self.N_tilda@,
            r.h1@ == self.h1@,
            r.h2@ == self.h2@,
            r.dlog_proof@ == self.dlog_proof@,
            r.inv_dlog_proof@ == self.inv_dlog_proof@,
    {
        ZkpPublicSetup {
            N_tilda: self.N_tilda.clone(),
            h1: self.h1.clone(),
            h2: self.h2.clone(),
            dlog_proof: self.dlog_proof.clone(),
            inv_dlog_proof: self.inv_dlog_proof.clone(),
        }
    }
}

/// What the verifier finds of a public setup: the first failure of its two
/// proofs, if any.
pub open spec fn public_setup_check(
    n: int,
    h1: int,
    h2: int,
    dlog_proof: SetupProofValues,
    inv_dlog_proof: SetupProofValues,
) -> Result<(), SetupFailure> {
    match setup_proof_check(n, h1, h2, dlog_proof) {
        Err(e) => Err(e),
        Ok(_) => setup_proof_check(n, h2, h1, inv_dlog_proof),
    }
}

impl ZkpPublicSetup {
    /// The modulus is above one, so that residues can be taken by it.
    pub open spec fn wf(&self) -> bool {
        self.N_tilda@ > 1
    }

    /// Whether the modulus is above one.
    pub fn is_valid(&self) -> (r: bool)
        ensures
            r == self.wf(),
    {
        let one = Integer::one();
        one.lt(&self.N_tilda)
    }

    /// The public setup from the secret inverse `inv_alpha` of `alpha` and
    /// the two ephemeral exponents.
    pub fn from_private_with(setup: &ZkpSetup, inv_alpha: &Integer, v: &Integer, inv_v: &Integer) -> (r: Self)
        requires
            setup.N_tilda@ > 0,
            setup.order@ != 0,
            v@ >= 0,
            inv_v@ >= 0,
        ensures
            r.N_tilda@ == setup.N_tilda@,
            r.h1@ == setup.h1@,
            r.h2@ == setup.h2@,
            r.dlog_proof@ == setup_proof(setup.N_tilda@, setup.h1@, setup.h2@, setup.alpha@, setup.order@, v@),
            r.inv_dlog_proof@ == setup_proof(setup.N_tilda@, setup.h2@, setup.h1@, inv_alpha@, setup.order@, inv_v@),
    {
        ZkpPublicSetup {
            N_tilda: setup.N_tilda.clone(),
            h1: setup.h1.clone(),
            h2: setup.h2.clone(),
            dlog_proof: ZkpSetup::dlog_proof_with(&setup.N_tilda, &setup.h1, &setup.h2, &setup.alpha, &setup.order, v),
            inv_dlog_proof: ZkpSetup::dlog_proof_with(&setup.N_tilda, &setup.h2, &setup.h1, inv_alpha, &setup.order, inv_v),
        }
    }

    /// The public setup of a private one, with fresh proofs. Fails with
    /// `InvAlphaNonInvertible` exactly where `alpha` has no inverse modulo
    /// `order`.
    pub fn from_private_zkp_setup(setup: &ZkpSetup) -> (r: Result<Self, ZkpSetupVerificationError>)
        requires
            setup.wf(),
        ensures
            r is Err <==> !crate::integer::invertible(setup.alpha@, setup.order@),
            r matches Err(e) ==> e.kind == SetupFailure::InvAlphaNonInvertible,
            r matches Ok(s) ==> {
                &&& s.N_tilda@ == setup.N_tilda@
                &&& s.h1@ == setup.h1@
                &&& s.h2@ == setup.h2@
                &&& exists|v: int| 1 <= v < setup.N_tilda@ - 1 && s.dlog_proof@ == #[trigger] setup_proof(
                    setup.N_tilda@, setup.h1@, setup.h2@, setup.alpha@, setup.order@, v)
                &&& exists|v: int| 1 <= v < setup.N_tilda@ - 1 && s.inv_dlog_proof@ == #[trigger] setup_proof(
                    setup.N_tilda@, setup.h2@, setup.h1@,
                    crate::integer::inverse(setup.alpha@, setup.order@), setup.order@, v)
            },
    {
        match setup.alpha.mod_inv(&setup.order) {
            None => Err(ZkpSetupVerificationError { kind: SetupFailure::InvAlphaNonInvertible }),
            Some(inverse) => {
                let mut inv_alpha = inverse;
                let result = ZkpPublicSetup {
                    N_tilda: setup.N_tilda.clone(),
                    h1: setup.h1.clone(),
                    h2: setup.h2.clone(),
                    dlog_proof: ZkpSetup::dlog_proof(&setup.N_tilda, &setup.h1, &setup.h2, &setup.alpha, &setup.order),
                    inv_dlog_proof: ZkpSetup::dlog_proof(&setup.N_tilda, &setup.h2, &setup.h1, &inv_alpha, &setup.order),
                };
                inv_alpha.zeroize();
                Ok(result)
            },
        }
    }

    /// Verifies one Schnorr proof for the base `h1` and the value `h2`.
    pub fn verify_proof(
        N_tilda: &Integer,
        h1: &Integer,
        h2: &Integer,
        proof: &ZkpSetupProof,
    ) -> (r: Result<(), ZkpSetupVerificationError>)
        ensures
            r is Ok <==> setup_proof_check(N_tilda@, h1@, h2@, proof@) is Ok,
            r matches Err(e) ==> setup_proof_check(N_tilda@, h1@, h2@, proof@) == Err::<(), SetupFailure>(e.kind),
    {
        let inputs = vec![N_tilda.clone(), proof.V.clone(), h1.clone(), h2.clone()];
        proof {
            assert(values(inputs@) =~= seq![N_tilda@, proof.V@, h1@, h2@]);
        }
        let challenge = HSha512Trunc256::create_hash(&inputs);
        if !challenge.equals(&proof.challenge) {
            return Err(ZkpSetupVerificationError { kind: SetupFailure::ChallengeMismatch });
        }
        let one = Integer::one();
        if !one.lt(N_tilda) {
            return Err(ZkpSetupVerificationError { kind: SetupFailure::ProofMismatch });
        }
        match power_mod(h1, &proof.r, N_tilda) {
            None => Err(ZkpSetupVerificationError { kind: SetupFailure::ProofMismatch }),
            Some(a) => {
                let b = Integer::mod_pow(h2, &challenge, N_tilda);
                proof {
                    vstd::arithmetic::div_mod::lemma_mod_bound(pow(h2@, challenge@ as nat), N_tilda@);
                    assert(a@ * b@ >= 0) by (nonlinear_arith)
                        requires
                            a@ >= 0,
                            b@ >= 0,
                    ;
                }
                let commitment = a.mul(&b).reduce(N_tilda);
                if commitment.equals(&proof.V) {
                    Ok(())
                } else {
                    Err(ZkpSetupVerificationError { kind: SetupFailure::ProofMismatch })
                }
            },
        }
    }

    /// Verifies both proofs of the setup, and reports the first failure.
    pub fn verify(&self) -> (r: Result<(), ZkpSetupVerificationError>)
        ensures
            r is Ok <==> public_setup_check(self.N_tilda@, self.h1@, self.h2@, self.dlog_proof@, self.inv_dlog_proof@) is Ok,
            r matches Err(e) ==> public_setup_check(self.N_tilda@, self.h1@, self.h2@, self.dlog_proof@, self.inv_dlog_proof@)
                == Err::<(), SetupFailure>(e.kind),
    {
        match ZkpPublicSetup::verify_proof(&self.N_tilda, &self.h1, &self.h2, &self.dlog_proof) {
            Err(e) => Err(e),
            Ok(_) => ZkpPublicSetup::verify_proof(&self.N_tilda, &self.h2, &self.h1, &self.inv_dlog_proof),
        }
    }

    /// Overwrites the modulus and the two bases with zeros.
    pub fn zeroize(&mut self)
        ensures
            final(self).N_tilda@ == 0,
            final(self).h1@ == 0,
            final(self).h2@ == 0,
        opens_invariants none
        no_unwind
    {
        self.N_tilda.zeroize();
        self.h1.zeroize();
        self.h2.zeroize();
    }
}

/// How far a party has got with the public setup of its peer.
#[derive(Debug)]
pub enum SetupStage {
    /// Received, not yet verified.
    Published(ZkpPublicSetup),
    /// Verified: both proofs hold.
    Verified(ZkpPublicSetup),
    /// Rejected, with the failure found.
    Rejected(ZkpSetupVerificationError),
}

/// A peer's public setup, as far as this party has got with it. Range proofs
/// are made only against a setup that has been verified; one that was
/// rejected stays rejected. The stage cannot be set from outside, so that a
/// setup counts as verified only if its proofs were found to hold.
#[derive(Debug)]
pub struct PeerSetup {
    stage: SetupStage,
}

impl View for PeerSetup {
    type V = SetupStage;

    closed spec fn view(&self) -> SetupStage {
        self.stage
    }
}

impl PeerSetup {
    #[verifier::type_invariant]
    spec fn verified_means_checked(self) -> bool {
        self.stage matches SetupStage::Verified(s) ==> public_setup_check(
            s.N_tilda@,
            s.h1@,
            s.h2@,
            s.dlog_proof@,
            s.inv_dlog_proof@,
        ) is Ok
    }

    /// The setup as it arrives from the peer.
    pub fn receive(setup: ZkpPublicSetup) -> (r: Self)
        ensures
            r@ == SetupStage::Published(setup),
    {
        PeerSetup { stage: SetupStage::Published(setup) }
    }

    /// Verifies a setup that was received: it becomes verified if both its
    /// proofs hold and rejected otherwise. A setup that was verified or
    /// rejected before stays as it is.
    pub fn verify(self) -> (r: Self)
        ensures
            match self@ {
                SetupStage::Published(s) => match public_setup_check(
                    s.N_tilda@,
                    s.h1@,
                    s.h2@,
                    s.dlog_proof@,
                    s.inv_dlog_proof@,
                ) {
                    Ok(_) => r@ == SetupStage::Verified(s),
                    Err(kind) => r@ == SetupStage::Rejected(ZkpSetupVerificationError { kind }),
                },
                _ => r@ == self@,
            },
    {
        proof {
            use_type_invariant(&self);
        }
        match self.stage {
            SetupStage::Published(s) => match s.verify() {
                Ok(_) => PeerSetup { stage: SetupStage::Verified(s) },
                Err(e) => PeerSetup { stage: SetupStage::Rejected(e) },
            },
            SetupStage::Verified(s) => PeerSetup { stage: SetupStage::Verified(s) },
            SetupStage::Rejected(e) => PeerSetup { stage: SetupStage::Rejected(e) },
        }
    }

    /// The setup to make range proofs against: there is one exactly if the
    /// setup was verified, and then its proofs hold.
    pub fn for_proofs(&self) -> (r: Option<&ZkpPublicSetup>)
        ensures
            r is Some <==> self@ is Verified,
            r matches Some(s) ==> {
                &&& self@ == SetupStage::Verified(*s)
                &&& s.wf()
                &&& public_setup_check(s.N_tilda@, s.h1@, s.h2@, s.dlog_proof@, s.inv_dlog_proof@) is Ok
            },
    {
        proof {
            use_type_invariant(self);
        }
        match &self.stage {
            SetupStage::Verified(s) => Some(s),
            _ => None,
        }
    }

    /// Why the setup was rejected, if it was.
    pub fn rejection(&self) -> (r: Option<ZkpSetupVerificationError>)
        ensures
            r is Some <==> self@ is Rejected,
            r matches Some(e) ==> self@ == SetupStage::Rejected(e),
    {
        match &self.stage {
            SetupStage::Rejected(e) => Some(*e),
            _ => None,
        }
    }
}

} // verus!
