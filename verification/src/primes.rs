//! Safe primes and generators of the group of quadratic residues modulo
//! their product.
use vstd::prelude::*;
use vstd::arithmetic::power::pow;
use curv::BigInt;
use curv::arithmetic::traits::Converter;
use kzen_paillier::PrimeSampable;
use crate::integer::{is_gcd, Integer};

verus! {

/// The smallest size, in bits, for which safe primes are drawn.
pub const MIN_SAFE_PRIME_BITS: usize = 17;

/// The largest size, in bits, for which safe primes are drawn.
pub const MAX_SAFE_PRIME_BITS: usize = 0xFFFF_FFFF;

/// How often a candidate is drawn before sampling gives up.
pub const MAX_SAMPLING_ATTEMPTS: usize = 256;

/// `a` and `b` have no common divisor above one.
pub open spec fn coprime(a: int, b: int) -> bool {
    is_gcd(1, a, b)
}

/// Two primes `p` and `q` with the primes `p_prim` and `q_prim` that they
/// are built from: `p = 2 p_prim + 1`, and likewise for `q`.
#[derive(Debug)]
pub struct PairOfSafePrimes {
    pub p: Integer,
    pub p_prim: Integer,
    pub q: Integer,
    pub q_prim: Integer,
}

impl Clone for PairOfSafePrimes {
    fn clone(&self) -> (r: Self)
        ensures
            r.p@ == self.p@,
            r.p_prim@ == self.p_prim@,
            r.q@ == self.q@,
            r.q_prim@ == self.q_prim@,
    {
        PairOfSafePrimes {
            p: self.p.clone(),
            p_prim: self.p_prim.clone(),
            q: self.q.clone(),
            q_prim: self.q_prim.clone(),
        }
    }
}

impl PairOfSafePrimes {
    /// Each prime is one more than twice its companion, and the companions
    /// are above one.
    pub open spec fn wf(&self) -> bool {
        &&& self.p_prim@ > 1
        &&& self.q_prim@ > 1
        &&& self.p@ == 2 * self.p_prim@ + 1
        &&& self.q@ == 2 * self.q_prim@ + 1
    }

    /// Whether the pair is well formed.
    pub fn is_valid(&self) -> (r: bool)
        ensures
            r == self.wf(),
    {
        let one = Integer::one();
        let two = Integer::from_u8(2);
        one.lt(&self.p_prim) && one.lt(&self.q_prim) && self.p.equals(
            &two.mul(&self.p_prim).add(&one),
        ) && self.q.equals(&two.mul(&self.q_prim).add(&one))
    }

    /// Overwrites the four numbers with zeros.
    pub fn zeroize(&mut self)
        ensures
            final(self).p@ == 0,
            final(self).p_prim@ == 0,
            final(self).q@ == 0,
            final(self).q_prim@ == 0,
    {
        self.p.zeroize();
        self.p_prim.zeroize();
        self.q.zeroize();
        self.q_prim.zeroize();
    }
}

/// The companion `(p - 1) / 2` of an odd `p` above four, with `p` itself;
/// `None` for any other `p`.
pub fn with_companion(p: Integer) -> (r: Option<(Integer, Integer)>)
    ensures
        r is Some <==> p@ > 4 && p@ % 2 == 1,
        r matches Some(pair) ==> pair.0@ == p@ && pair.1@ > 1 && pair.0@ == 2 * pair.1@ + 1,
{
    let one = Integer::one();
    let two = Integer::from_u8(2);
    let four = Integer::from_u8(4);
    if !four.lt(&p) {
        return None;
    }
    let half = p.sub(&one).div_floor(&two);
    match half {
        Some(half) => {
            if two.mul(&half).add(&one).equals(&p) {
                Some((p, half))
            } else {
                None
            }
        },
        None => None,
    }
}

/// `x` has exactly `bits` bits.
pub open spec fn has_bits(x: int, bits: int) -> bool {
    bits >= 1 && pow(2, (bits - 1) as nat) <= x < pow(2, bits as nat)
}

/// Whether `x` has exactly `bits` bits.
pub fn has_size(x: &Integer, bits: u32) -> (r: bool)
    ensures
        r == has_bits(x@, bits as int),
{
    if bits == 0 {
        false
    } else {
        let two = Integer::from_u8(2);
        two.pow(bits - 1).le(x) && x.lt(&two.pow(bits))
    }
}

/// What is kept of a number drawn as a safe prime of `bit_length` bits: the
/// number with its companion, if it is odd and has that size.
pub fn accept_safe_prime(p: Integer, bit_length: usize) -> (r: Option<(Integer, Integer)>)
    ensures
        r is Some <==> p@ > 4 && p@ % 2 == 1 && bit_length <= MAX_SAFE_PRIME_BITS && has_bits(p@, bit_length as int),
        r matches Some(pair) ==> pair.0@ == p@ && pair.1@ > 1 && pair.0@ == 2 * pair.1@ + 1,
{
    if bit_length > MAX_SAFE_PRIME_BITS {
        return None;
    }
    let bits: u32 = bit_length as u32;
    if has_size(&p, bits) {
        with_companion(p)
    } else {
        None
    }
}

/// A safe prime of `bit_length` bits with its companion, as the outside
/// sampler finds it; `None` for a size under `MIN_SAFE_PRIME_BITS` or above
/// `MAX_SAFE_PRIME_BITS`, for which nothing is drawn, or where what was drawn
/// is not odd or not of that size.
pub fn random_safe_prime(bit_length: usize) -> (r: Option<(Integer, Integer)>)
    ensures
        bit_length < MIN_SAFE_PRIME_BITS || bit_length > MAX_SAFE_PRIME_BITS ==> r is None,
        r matches Some(pair) ==> {
            &&& pair.1@ > 1
            &&& pair.0@ == 2 * pair.1@ + 1
            &&& has_bits(pair.0@, bit_length as int)
        },
{
    if bit_length < MIN_SAFE_PRIME_BITS || bit_length > MAX_SAFE_PRIME_BITS {
        None
    } else {
        accept_safe_prime(sample_safe_prime(bit_length), bit_length)
    }
}

/// Two safe primes of `bit_length` bits each, with their companions;
/// `None` for a size under `MIN_SAFE_PRIME_BITS` or above
/// `MAX_SAFE_PRIME_BITS`, or where one of the two numbers drawn is not kept.
pub fn pair_of_safe_primes(bit_length: usize) -> (r: Option<PairOfSafePrimes>)
    ensures
        bit_length < MIN_SAFE_PRIME_BITS || bit_length > MAX_SAFE_PRIME_BITS ==> r is None,
        r matches Some(pair) ==> {
            &&& pair.wf()
            &&& has_bits(pair.p@, bit_length as int)
            &&& has_bits(pair.q@, bit_length as int)
        },
{
    let first = random_safe_prime(bit_length);
    let second = random_safe_prime(bit_length);
    match (first, second) {
        (Some((p, p_prim)), Some((q, q_prim))) => Some(PairOfSafePrimes { p, p_prim, q, q_prim }),
        _ => None,
    }
}

/// Whether the two have no common divisor above one.
pub fn are_coprime(a: &Integer, b: &Integer) -> (r: bool)
    ensures
        r == coprime(a@, b@),
{
    let one = Integer::one();
    a.gcd(b).equals(&one)
}

/// The square of `r` modulo `n`, where it generates the quadratic residues:
/// `None` unless the square less one is coprime to `n`.
pub fn generator_from_unit(r: &Integer, n: &Integer) -> (h: Option<Integer>)
    requires
        n@ > 1,
    ensures
        h is Some <==> coprime(pow(r@, 2) % n@ - 1, n@),
        h matches Some(x) ==> x@ == pow(r@, 2) % n@ && 0 <= x@ < n@,
{
    let one = Integer::one();
    let two = Integer::from_u8(2);
    let square = Integer::mod_pow(r, &two, n);
    proof {
        vstd::arithmetic::div_mod::lemma_mod_bound(pow(r@, 2), n@);
    }
    if are_coprime(&square.sub(&one), n) {
        Some(square)
    } else {
        None
    }
}

/// A generator of the quadratic residues modulo `p * q`: the square of a
/// unit, one less than which is coprime to the modulus. Units are drawn until
/// one gives a generator; `None` after `MAX_SAMPLING_ATTEMPTS` that did not.
pub fn sample_generator_of_rsa_group(p: &Integer, q: &Integer) -> (h: Option<Integer>)
    requires
        p@ > 1,
        q@ > 1,
    ensures
        h matches Some(x) ==> {
            &&& 0 <= x@ < p@ * q@
            &&& coprime(x@ - 1, p@ * q@)
            &&& exists|r: int| 0 <= r < p@ * q@ && #[trigger] coprime(r, p@ * q@) && x@ == pow(r, 2) % (p@ * q@)
        },
{
    let n = p.mul(q);
    proof {
        assert(p@ * q@ > 1) by (nonlinear_arith)
            requires
                p@ > 1,
                q@ > 1,
        ;
    }
    let mut attempt: usize = 0;
    while attempt < MAX_SAMPLING_ATTEMPTS
        invariant
            n@ == p@ * q@,
            n@ > 1,
        decreases MAX_SAMPLING_ATTEMPTS - attempt,
    {
        let r = Integer::sample_below(&n);
        if are_coprime(&r, &n) {
            let h = generator_from_unit(&r, &n);
            if h.is_some() {
                proof {
                    assert(coprime(r@, p@ * q@));
                }
                return h;
            }
        }
        attempt = attempt + 1;
    }
    None
}

/// Calls `PrimeSampable::sample_safe_prime`, which tests candidates of the
/// given size until one and its companion pass its primality tests; it never
/// accepts a prime from its table of small primes, which ends below `2^15`.
/// Nothing is claimed of what it returns.
#[verifier::external_body]
fn sample_safe_prime(bit_length: usize) -> (r: Integer)
    requires
        MIN_SAFE_PRIME_BITS <= bit_length <= MAX_SAFE_PRIME_BITS,
{
    Integer { negative: false, magnitude: BigInt::sample_safe_prime(bit_length).to_bytes() }
}

} // verus!
