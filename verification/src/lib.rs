//! Zero-knowledge range proofs for the share conversion of two-party ECDSA.
//!
//! Two parties, Alice and Bob, turn multiplicative shares `a` and `b` of a
//! secret into additive ones: Alice sends the Paillier encryption of `a`,
//! and Bob answers with the encryption of `a b + beta'`. Each proves, without
//! revealing it, that the share behind the ciphertext lies in
//! `[-q^3, q^3]`, where `q` is the order of the curve; Bob can bind his proof
//! to the public point of his share. The proofs are Fiat–Shamir transforms
//! of Sigma protocols over Fujisaki–Okamoto commitments, whose setup each
//! party generates, proves well formed, and publishes.
//!
//! * [`integer`]: signed integers of arbitrary size, computed by `curv`.
//! * [`modular`], [`residues`]: powers and commitments in residue rings, and
//!   the facts about them that the laws need.
//! * [`hashing`]: the Fiat–Shamir challenge, SHA-512/256 by `sha2`.
//! * [`encryption`]: Paillier keys and ciphertexts, by `kzen-paillier`.
//! * [`curve`]: points of secp256k1, by `curv`.
//! * [`primes`], [`sampling`]: safe primes, generators and units.
//! * [`setup`]: the setup of the commitment scheme and its proofs.
//! * [`alice`], [`bob`]: the range proofs and the two messages.
//! * [`verification`]: why a proof is rejected.
//! * [`laws`]: completeness of the proofs, and what else holds of every
//!   input.
//!
//! Every function is verified but for the thin private ones that call the
//! outside crates; their contracts are stated over plain values and taken on
//! trust.

pub mod integer;
pub mod hashing;
pub mod modular;
pub mod curve;
pub mod encryption;
pub mod primes;
pub mod setup;
pub mod sampling;
pub mod verification;
pub mod alice;
pub mod bob;
pub mod residues;
pub mod laws;
