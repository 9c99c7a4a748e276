//! The ways in which a range proof can fail to verify.
use vstd::prelude::*;

verus! {

/// The equations that a verifier checks.
#[derive(Debug, Clone, Copy, PartialEq, Eq, Structural)]
pub enum Equation {
    /// Alice: `h1^s1 h2^s2 z^-e = w` modulo `N_tilda`.
    AliceW,
    /// Alice: `(s1 N + 1) s^N c^-e = u` modulo `N^2`.
    AliceU,
    /// Bob: `h1^s1 h2^s2 = z^e z'` modulo `N_tilda`.
    BobZ,
    /// Bob: `c1^s1 s^N (t1 N + 1) = c2^e v` modulo `N^2`.
    BobV,
    /// Bob: `h1^t1 h2^t2 = t^e w` modulo `N_tilda`.
    BobW,
}

/// Why a range proof was rejected: the first check that failed.
#[derive(Debug, Clone, Copy, PartialEq, Eq, Structural)]
pub enum ProofVerificationError {
    /// The challenge is not the hash of the transcript with the nonce.
    HashMismatch,
    /// The response `s1` is above `q^3`.
    RangeExceeded,
    /// A power that had to be inverted has no inverse.
    NonInvertible,
    /// One of the equations does not hold.
    EquationMismatch(Equation),
    /// The response does not open the public point of the extended proof.
    EcBindingMismatch,
}

} // verus!
