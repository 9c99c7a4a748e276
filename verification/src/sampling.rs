//! Sampling from the multiplicative group of a residue ring.
#![allow(non_snake_case)]
use vstd::prelude::*;
use crate::encryption::EncryptionKey;
use crate::integer::Integer;
use crate::primes::{are_coprime, coprime, MAX_SAMPLING_ATTEMPTS};
use crate::setup::{ZkpPublicSetup, ZkpSetup};

verus! {

/// `r` if it is a unit modulo `n`, that is, coprime to it.
pub fn unit_or_none(r: Integer, n: &Integer) -> (u: Option<Integer>)
    ensures
        u is Some <==> coprime(r@, n@),
        u matches Some(x) ==> x@ == r@,
{
    if are_coprime(&r, n) {
        Some(r)
    } else {
        None
    }
}

/// `MAX_SAMPLING_ATTEMPTS` residues modulo `n`, none of which is a unit.
pub open spec fn candidates_without_unit(candidates: Seq<int>, n: int) -> bool {
    &&& candidates.len() == MAX_SAMPLING_ATTEMPTS
    &&& forall|i: int|
        0 <= i < candidates.len() ==> 0 <= #[trigger] candidates[i] < n && !coprime(candidates[i], n)
}

/// Modulo one, the single residue is a unit.
pub proof fn lemma_zero_is_unit_modulo_one()
    ensures
        coprime(0, 1),
{
    assert forall|d: int| crate::integer::common_divisor(d, 0, 1) implies d <= 1 by {
        if d > 1 {
            vstd::arithmetic::div_mod::lemma_small_mod(1, d as nat);
        }
    }
}

/// Draws elements of the multiplicative group of the integers modulo a
/// modulus given directly, or as that of a key or of a setup. Candidates are
/// drawn from the residues until one is a unit; `None` after
/// `MAX_SAMPLING_ATTEMPTS` that were not. Modulo one the first candidate is
/// a unit.
pub trait SampleFromMultiplicativeGroup: Sized {
    fn from_modulo(N: &Integer) -> (r: Option<Integer>)
        requires
            N@ > 0,
        ensures
            r matches Some(x) ==> 0 <= x@ < N@ && coprime(x@, N@),
            r is None ==> exists|candidates: Seq<int>| candidates_without_unit(candidates, N@),
            N@ == 1 ==> r is Some,
    ;

    fn from_paillier_key(ek: &EncryptionKey) -> (r: Option<Integer>)
        requires
            ek.n@ > 0,
        ensures
            r matches Some(x) ==> 0 <= x@ < ek.n@ && coprime(x@, ek.n@),
            r is None ==> exists|candidates: Seq<int>| candidates_without_unit(candidates, ek.n@),
            ek.n@ == 1 ==> r is Some,
    ;

    fn from_zkp_setup(zkp_setup: &ZkpSetup) -> (r: Option<Integer>)
        requires
            zkp_setup.N_tilda@ > 0,
        ensures
            r matches Some(x) ==> 0 <= x@ < zkp_setup.N_tilda@ && coprime(x@, zkp_setup.N_tilda@),
            r is None ==> exists|candidates: Seq<int>| candidates_without_unit(candidates, zkp_setup.N_tilda@),
            zkp_setup.N_tilda@ == 1 ==> r is Some,
    ;

    fn from_zkp_public_setup(zkp_setup: &ZkpPublicSetup) -> (r: Option<Integer>)
        requires
            zkp_setup.N_tilda@ > 0,
        ensures
            r matches Some(x) ==> 0 <= x@ < zkp_setup.N_tilda@ && coprime(x@, zkp_setup.N_tilda@),
            r is None ==> exists|candidates: Seq<int>| candidates_without_unit(candidates, zkp_setup.N_tilda@),
            zkp_setup.N_tilda@ == 1 ==> r is Some,
    ;
}

impl SampleFromMultiplicativeGroup for Integer {
    fn from_modulo(N: &Integer) -> (r: Option<Integer>) {
        let ghost mut rejected: Seq<int> = Seq::empty();
        let mut attempt: usize = 0;
        while attempt < MAX_SAMPLING_ATTEMPTS
            invariant
                N@ > 0,
                attempt <= MAX_SAMPLING_ATTEMPTS,
                rejected.len() == attempt,
                forall|i: int| 0 <= i < rejected.len() ==> 0 <= #[trigger] rejected[i] < N@ && !coprime(rejected[i], N@),
            decreases MAX_SAMPLING_ATTEMPTS - attempt,
        {
            let candidate = Integer::sample_below(N);
            let ghost drawn = candidate@;
            let found = unit_or_none(candidate, N);
            if found.is_some() {
                return found;
            }
            proof {
                rejected = rejected.push(drawn);
            }
            attempt = attempt + 1;
        }
        proof {
            assert(candidates_without_unit(rejected, N@));
            assert(0 <= rejected[0] < N@ && !coprime(rejected[0], N@));
            lemma_zero_is_unit_modulo_one();
        }
        None
    }

    fn from_paillier_key(ek: &EncryptionKey) -> (r: Option<Integer>) {
        Integer::from_modulo(&ek.n)
    }

    fn from_zkp_setup(zkp_setup: &ZkpSetup) -> (r: Option<Integer>) {
        Integer::from_modulo(&zkp_setup.N_tilda)
    }

    fn from_zkp_public_setup(zkp_setup: &ZkpPublicSetup) -> (r: Option<Integer>) {
        Integer::from_modulo(&zkp_setup.N_tilda)
    }
}

} // verus!
