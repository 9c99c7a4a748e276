//! Paillier encryption keys and the homomorphic operations on ciphertexts,
//! done by the `kzen-paillier` crate.
use vstd::prelude::*;
use vstd::arithmetic::power::pow;
use curv::BigInt;
use curv::arithmetic::traits::Converter;
use kzen_paillier::{Add, EncryptWithChosenRandomness, Mul, Paillier, Randomness, RawCiphertext, RawPlaintext};
use crate::integer::Integer;

verus! {

/// The ciphertext of `m` under randomness `r` for the modulus `n` with square
/// `nn`: `(1 + m n) r^n mod n^2`.
pub open spec fn encryption(m: int, r: int, n: int, nn: int) -> int {
    (((m * n + 1) % nn) * (pow(r, n as nat) % nn)) % nn
}

/// A Paillier public key: the modulus and its square.
#[derive(Debug)]
pub struct EncryptionKey {
    pub n: Integer,
    pub nn: Integer,
}

impl Clone for EncryptionKey {
    fn clone(&self) -> (r: Self)
        ensures
            r.n@ == self.n@,
            r.nn@ == self.nn@,
    {
        EncryptionKey { n: self.n.clone(), nn: self.nn.clone() }
    }
}

impl EncryptionKey {
    /// The modulus is above one and `nn` is its square.
    pub open spec fn wf(&self) -> bool {
        self.n@ > 1 && self.nn@ == self.n@ * self.n@
    }

    /// The key with modulus `n`; `None` unless `n` is above one.
    pub fn new(n: Integer) -> (r: Option<Self>)
        ensures
            r is Some <==> n@ > 1,
            r matches Some(k) ==> k.wf() && k.n@ == n@,
    {
        let one = Integer::one();
        if one.lt(&n) {
            let nn = n.mul(&n);
            Some(EncryptionKey { n, nn })
        } else {
            None
        }
    }

    /// Whether the key is well formed.
    pub fn is_valid(&self) -> (r: bool)
        ensures
            r == self.wf(),
    {
        let one = Integer::one();
        one.lt(&self.n) && self.nn.equals(&self.n.mul(&self.n))
    }

    /// The ciphertext of the plaintext `m` under the randomness `r`, neither
    /// of them negative.
    pub fn encrypt(&self, m: &Integer, r: &Integer) -> (c: Integer)
        requires
            self.wf(),
            m@ >= 0,
            r@ >= 0,
        ensures
            c@ == encryption(m@, r@, self.n@, self.nn@),
            !c.negative,
    {
        proof {
            lemma_square_positive(self.n@);
        }
        paillier_encrypt(self, m, r)
    }

    /// The ciphertext of the product of the plaintext of `c` and `m`.
    pub fn scale(&self, c: &Integer, m: &Integer) -> (r: Integer)
        requires
            self.wf(),
            m@ >= 0,
        ensures
            r@ == pow(c@, m@ as nat) % self.nn@,
            !r.negative,
    {
        proof {
            lemma_square_positive(self.n@);
            vstd::arithmetic::power::lemma_pow_mod_noop(c@, m@ as nat, self.nn@);
        }
        let residue = c.modulo(&self.nn);
        paillier_mul(self, &residue, m)
    }

    /// The ciphertext of the sum of the plaintexts of two ciphertexts that
    /// are not negative.
    pub fn combine(&self, c1: &Integer, c2: &Integer) -> (r: Integer)
        requires
            self.wf(),
            c1@ >= 0,
            c2@ >= 0,
        ensures
            r@ == (c1@ * c2@) % self.nn@,
            !r.negative,
    {
        proof {
            lemma_square_positive(self.n@);
        }
        paillier_add(self, c1, c2)
    }

    /// Randomness for one encryption: a value drawn from `[0, n)`.
    pub fn sample_randomness(&self) -> (r: Integer)
        requires
            self.wf(),
        ensures
            0 <= r@ < self.n@,
    {
        proof {
            lemma_square_positive(self.n@);
        }
        paillier_randomness(self)
    }
}

/// The square of a number above one is above one.
pub proof fn lemma_square_positive(n: int)
    requires
        n > 1,
    ensures
        n * n > 1,
{
    assert(n * n > 1) by (nonlinear_arith)
        requires
            n > 1,
    ;
}

/// Calls `Paillier::encrypt_with_chosen_randomness` on natural numbers.
/// Claims the formula that its source computes.
#[verifier::external_body]
fn paillier_encrypt(ek: &EncryptionKey, m: &Integer, r: &Integer) -> (c: Integer)
    requires
        ek.n@ > 0,
        ek.nn@ > 0,
        m@ >= 0,
        r@ >= 0,
    ensures
        c@ == encryption(m@, r@, ek.n@, ek.nn@),
        !c.negative,
{
    let key = kzen_paillier::EncryptionKey {
        n: BigInt::from_bytes(&ek.n.magnitude),
        nn: BigInt::from_bytes(&ek.nn.magnitude),
    };
    let plaintext = RawPlaintext::from(BigInt::from_bytes(&m.magnitude));
    let randomness = Randomness(BigInt::from_bytes(&r.magnitude));
    let c = Paillier::encrypt_with_chosen_randomness(&key, plaintext, &randomness);
    Integer { negative: false, magnitude: c.0.to_bytes() }
}

/// Calls `Paillier::mul` on a ciphertext and a plaintext, both natural
/// numbers; it raises the ciphertext to the plaintext modulo `nn`. Claims
/// that power.
#[verifier::external_body]
fn paillier_mul(ek: &EncryptionKey, c: &Integer, m: &Integer) -> (r: Integer)
    requires
        ek.n@ > 0,
        ek.nn@ > 0,
        c@ >= 0,
        m@ >= 0,
    ensures
        r@ == pow(c@, m@ as nat) % ek.nn@,
        !r.negative,
{
    let key = kzen_paillier::EncryptionKey {
        n: BigInt::from_bytes(&ek.n.magnitude),
        nn: BigInt::from_bytes(&ek.nn.magnitude),
    };
    let ciphertext = RawCiphertext::from(BigInt::from_bytes(&c.magnitude));
    let z = Paillier::mul(&key, ciphertext, RawPlaintext::from(BigInt::from_bytes(&m.magnitude)));
    Integer { negative: false, magnitude: z.0.to_bytes() }
}

/// Calls `Paillier::add` on two ciphertexts, both natural numbers; it
/// multiplies them and takes the remainder by `nn`. Claims that remainder.
#[verifier::external_body]
fn paillier_add(ek: &EncryptionKey, c1: &Integer, c2: &Integer) -> (r: Integer)
    requires
        ek.n@ > 0,
        ek.nn@ > 0,
        c1@ >= 0,
        c2@ >= 0,
    ensures
        r@ == (c1@ * c2@) % ek.nn@,
        !r.negative,
{
    let key = kzen_paillier::EncryptionKey {
        n: BigInt::from_bytes(&ek.n.magnitude),
        nn: BigInt::from_bytes(&ek.nn.magnitude),
    };
    let first = RawCiphertext::from(BigInt::from_bytes(&c1.magnitude));
    let z = Paillier::add(&key, first, RawCiphertext::from(BigInt::from_bytes(&c2.magnitude)));
    Integer { negative: false, magnitude: z.0.to_bytes() }
}

/// Calls `Randomness::sample`, which draws below the modulus and panics
/// unless it is positive. Claims only the range.
#[verifier::external_body]
fn paillier_randomness(ek: &EncryptionKey) -> (r: Integer)
    requires
        ek.n@ > 0,
        ek.nn@ > 0,
    ensures
        0 <= r@ < ek.n@,
        !r.negative,
{
    let key = kzen_paillier::EncryptionKey {
        n: BigInt::from_bytes(&ek.n.magnitude),
        nn: BigInt::from_bytes(&ek.nn.magnitude),
    };
    Integer { negative: false, magnitude: Randomness::sample(&key).0.to_bytes() }
}

} // verus!
