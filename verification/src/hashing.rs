//! Fiat–Shamir challenges: SHA-512/256 over the encodings of big integers.
use vstd::prelude::*;
use vstd::arithmetic::power::pow;
use sha2::{Digest, Sha512Trunc256};
use crate::integer::{be_value, encoding, lemma_be_value_bound, Integer};

verus! {

/// A challenge together with the nonce that was hashed last to obtain it.
pub type HashWithNonce = (Integer, Integer);

/// How often a nonce is drawn before a bounded challenge is given up.
pub const MAX_NONCE_ATTEMPTS: usize = 256;

/// The SHA-512/256 digest of `data`.
pub uninterp spec fn sha512_256(data: Seq<u8>) -> Seq<u8>;

/// The values of a sequence of integers.
pub open spec fn values(xs: Seq<Integer>) -> Seq<int> {
    xs.map_values(|x: Integer| x@)
}

/// The bytes that are hashed for a list of integers: their encodings, one
/// after the other.
pub open spec fn transcript(xs: Seq<int>) -> Seq<u8>
    decreases xs.len(),
{
    if xs.len() == 0 {
        Seq::empty()
    } else {
        transcript(xs.drop_last()) + encoding(xs.last())
    }
}

/// The challenge derived from a list of integers: the digest of their
/// transcript, read as a big-endian number.
pub open spec fn challenge_of(xs: Seq<int>) -> int {
    be_value(sha512_256(transcript(xs))) as int
}

/// Whether the digest, which has 256 bits, covers a curve of order `q`: the
/// order itself has exactly 256 bits.
pub open spec fn covers_modulus(q: int) -> bool {
    pow(2, 255) <= q < pow(2, 256)
}

/// `MAX_NONCE_ATTEMPTS` nonces of 256 bits with which the integers `xs` give
/// no challenge below `q`.
pub open spec fn nonces_that_miss(nonces: Seq<int>, xs: Seq<int>, q: int) -> bool {
    &&& nonces.len() == MAX_NONCE_ATTEMPTS
    &&& forall|i: int|
        0 <= i < nonces.len() ==> {
            &&& 0 <= #[trigger] nonces[i] < pow(2, 256)
            &&& q <= challenge_of(xs.push(nonces[i])) < pow(2, 256)
        }
}

/// Thirty-two bytes denote a number of at most 256 bits.
pub proof fn lemma_digest_has_256_bits(bytes: Seq<u8>)
    requires
        bytes.len() == 32,
    ensures
        be_value(bytes) < pow(2, 256),
{
    lemma_be_value_bound(bytes);
    vstd::arithmetic::power::lemma_pow_multiplies(2, 8, 32);
    vstd::arithmetic::power2::lemma2_to64();
    vstd::arithmetic::power2::lemma_pow2(8);
}

/// The hash used throughout: SHA-512 with the initial values of its 256-bit
/// variant, truncated to 256 bits.
pub struct HSha512Trunc256;

impl HSha512Trunc256 {
    /// The challenge for a list of integers.
    pub fn create_hash(xs: &Vec<Integer>) -> (r: Integer)
        ensures
            r@ == challenge_of(values(xs@)),
            0 <= r@ < pow(2, 256),
    {
        let mut buffer: Vec<u8> = Vec::new();
        let mut i: usize = 0;
        while i < xs.len()
            invariant
                i <= xs.len(),
                buffer@ == transcript(values(xs@).take(i as int)),
            decreases xs.len() - i,
        {
            let mut bytes = xs[i].encode();
            buffer.append(&mut bytes);
            i = i + 1;
            proof {
                let now = values(xs@).take(i as int);
                assert(now.drop_last() =~= values(xs@).take(i - 1));
                assert(now.last() == xs@[i - 1]@);
            }
        }
        proof {
            assert(values(xs@).take(xs.len() as int) =~= values(xs@));
        }
        let out = digest(&buffer);
        proof {
            lemma_digest_has_256_bits(out@);
        }
        Integer::from_bytes(false, out)
    }

    /// The challenge for a list of integers followed by `nonce`, with that
    /// nonce.
    pub fn create_hash_with_nonce(xs: &Vec<Integer>, nonce: &Integer) -> (r: HashWithNonce)
        ensures
            r.0@ == challenge_of(values(xs@).push(nonce@)),
            0 <= r.0@ < pow(2, 256),
            r.1@ == nonce@,
    {
        let mut all: Vec<Integer> = Vec::new();
        let mut i: usize = 0;
        while i < xs.len()
            invariant
                i <= xs.len(),
                all@.len() == i,
                values(all@) == values(xs@).take(i as int),
            decreases xs.len() - i,
        {
            let ghost before = all@;
            all.push(xs[i].clone());
            i = i + 1;
            proof {
                assert forall|j: int| 0 <= j < i implies values(all@)[j] == values(xs@).take(
                    i as int,
                )[j] by {
                    if j < i - 1 {
                        assert(all@[j] == before[j]);
                        assert(values(before)[j] == values(xs@).take(i - 1)[j]);
                    }
                }
                assert(values(all@) =~= values(xs@).take(i as int));
            }
        }
        all.push(nonce.clone());
        proof {
            assert(values(xs@).take(xs.len() as int) =~= values(xs@));
            assert(values(all@) =~= values(xs@).push(nonce@));
        }
        (HSha512Trunc256::create_hash(&all), nonce.clone())
    }

    /// Whether a nonce gives a challenge below `q`: the pair where it does.
    pub fn accept_nonce(xs: &Vec<Integer>, nonce: &Integer, q: &Integer) -> (r: Option<HashWithNonce>)
        ensures
            r is Some <==> challenge_of(values(xs@).push(nonce@)) < q@,
            r matches Some(e) ==> e.0@ == challenge_of(values(xs@).push(nonce@)) && e.1@ == nonce@,
            0 <= challenge_of(values(xs@).push(nonce@)) < pow(2, 256),
    {
        let e = HSha512Trunc256::create_hash_with_nonce(xs, nonce);
        if e.0.lt(q) {
            Some(e)
        } else {
            None
        }
    }

    /// The challenge for a list of integers and a fresh nonce of 256 bits.
    pub fn create_hash_with_random_nonce(xs: &Vec<Integer>) -> (r: HashWithNonce)
        ensures
            r.0@ == challenge_of(values(xs@).push(r.1@)),
            0 <= r.0@ < pow(2, 256),
            0 <= r.1@ < pow(2, 256),
    {
        let two = Integer::from_u8(2);
        let bound = two.pow(256);
        proof {
            vstd::arithmetic::power::lemma_pow_positive(2, 256);
        }
        let nonce = Integer::sample_below(&bound);
        HSha512Trunc256::create_hash_with_nonce(xs, &nonce)
    }

    /// A challenge below `q` with the nonce that gives it. Nonces of 256 bits
    /// are drawn until one fits; `None` after `MAX_NONCE_ATTEMPTS` that did
    /// not. A bound of more than 256 bits is met by the first nonce.
    pub fn create_hash_bounded_by_q(xs: &Vec<Integer>, q: &Integer) -> (r: Option<HashWithNonce>)
        ensures
            r matches Some(e) ==> {
                &&& e.0@ == challenge_of(values(xs@).push(e.1@))
                &&& 0 <= e.0@ < q@
                &&& 0 <= e.1@ < pow(2, 256)
            },
            r is None ==> exists|nonces: Seq<int>| nonces_that_miss(nonces, values(xs@), q@),
            q@ >= pow(2, 256) ==> r is Some,
    {
        let two = Integer::from_u8(2);
        let bound = two.pow(256);
        proof {
            vstd::arithmetic::power::lemma_pow_positive(2, 256);
        }
        let ghost mut missed: Seq<int> = Seq::empty();
        let mut attempt: usize = 0;
        while attempt < MAX_NONCE_ATTEMPTS
            invariant
                bound@ == pow(2, 256),
                bound@ > 0,
                attempt <= MAX_NONCE_ATTEMPTS,
                missed.len() == attempt,
                forall|i: int|
                    0 <= i < missed.len() ==> {
                        &&& 0 <= #[trigger] missed[i] < pow(2, 256)
                        &&& q@ <= challenge_of(values(xs@).push(missed[i])) < pow(2, 256)
                    },
            decreases MAX_NONCE_ATTEMPTS - attempt,
        {
            let nonce = Integer::sample_below(&bound);
            let found = HSha512Trunc256::accept_nonce(xs, &nonce, q);
            if found.is_some() {
                return found;
            }
            proof {
                missed = missed.push(nonce@);
            }
            attempt = attempt + 1;
        }
        proof {
            assert(nonces_that_miss(missed, values(xs@), q@));
            assert(0 <= missed[0] < pow(2, 256));
        }
        None
    }

    /// Whether challenges can be bounded by the curve order `q`.
    pub fn can_handle_curve_modulo(q: &Integer) -> (r: bool)
        ensures
            r == covers_modulus(q@),
    {
        let two = Integer::from_u8(2);
        let low = two.pow(255);
        let high = two.pow(256);
        low.le(q) && q.lt(&high)
    }
}

/// Calls `Digest::digest` of `sha2::Sha512Trunc256`. Claims that the digest
/// depends on the data alone and has 32 bytes.
#[verifier::external_body]
fn digest(data: &Vec<u8>) -> (r: Vec<u8>)
    ensures
        r@ == sha512_256(data@),
        r@.len() == 32,
{
    Sha512Trunc256::digest(data).to_vec()
}

} // verus!
