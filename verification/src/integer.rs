//! Signed integers of arbitrary size.
//!
//! An [`Integer`] holds a sign and a big-endian magnitude as plain bytes, and
//! its view is the mathematical integer they denote. The arithmetic on
//! magnitudes is done by `curv`'s `BigInt`: each operation on natural numbers
//! is a thin private function whose contract is taken on trust and says what
//! `BigInt` computes. The signs are handled here, and proved.
use vstd::prelude::*;
use vstd::arithmetic::div_mod::{
    lemma_fundamental_div_mod, lemma_mod_bound, lemma_mod_multiples_vanish, lemma_mul_mod_noop_general,
    lemma_mul_mod_noop_right, lemma_small_mod,
};
use vstd::arithmetic::power::{lemma_pow_mod_noop, pow};
use curv::BigInt;
use curv::arithmetic::traits::{BasicOps, Converter, Modulo, Samplable};
use zeroize::Zeroize;

verus! {

/// The natural number that `bytes` denote, most significant byte first.
pub open spec fn be_value(bytes: Seq<u8>) -> nat
    decreases bytes.len(),
{
    if bytes.len() == 0 {
        0
    } else {
        be_value(bytes.drop_last()) * 256 + bytes.last() as nat
    }
}

/// The remainder that keeps the sign of the dividend: `a - m * trunc(a / m)`.
pub open spec fn trunc_rem(a: int, m: int) -> int {
    let d = if m < 0 { -m } else { m };
    if a >= 0 { a % d } else { -((-a) % d) }
}

/// `x` is the inverse of `a` modulo `m`, in canonical form.
pub open spec fn is_inverse(a: int, x: int, m: int) -> bool {
    0 <= x < m && (a * x) % m == 1
}

/// `a` has an inverse modulo `m`.
pub open spec fn invertible(a: int, m: int) -> bool {
    exists|x: int| is_inverse(a, x, m)
}

/// The inverse of `a` modulo `m`, where there is one.
pub open spec fn inverse(a: int, m: int) -> int {
    choose|x: int| is_inverse(a, x, m)
}

/// `d` divides both `a` and `b`.
pub open spec fn common_divisor(d: int, a: int, b: int) -> bool {
    d > 0 && a % d == 0 && b % d == 0
}

/// `g` is the greatest common divisor of `a` and `b`; zero where both are zero.
pub open spec fn is_gcd(g: int, a: int, b: int) -> bool {
    if a == 0 && b == 0 {
        g == 0
    } else {
        common_divisor(g, a, b) && forall|d: int| common_divisor(d, a, b) ==> d <= g
    }
}

/// The shortest big-endian bytes of a natural number; none for zero.
pub open spec fn nat_bytes(n: nat) -> Seq<u8>
    decreases n,
{
    if n == 0 {
        Seq::empty()
    } else {
        nat_bytes(n / 256).push((n % 256) as u8)
    }
}

/// The bytes that stand for an integer in a hashed transcript: the shortest
/// big-endian form of its magnitude, and one zero byte for zero.
pub open spec fn encoding(v: int) -> Seq<u8> {
    if v == 0 {
        seq![0u8]
    } else if v < 0 {
        nat_bytes((-v) as nat)
    } else {
        nat_bytes(v as nat)
    }
}

/// Leading zero bytes do not change the value.
pub proof fn lemma_skip_zeros(s: Seq<u8>, i: int)
    requires
        0 <= i <= s.len(),
        forall|j: int| 0 <= j < i ==> s[j] == 0,
    ensures
        be_value(s) == be_value(s.subrange(i, s.len() as int)),
    decreases s.len(),
{
    if s.len() == 0 {
        assert(s.subrange(i, s.len() as int) =~= s);
    } else if i == s.len() {
        lemma_skip_zeros(s.drop_last(), i - 1);
        assert(s.drop_last().subrange(i - 1, s.len() - 1) =~= Seq::<u8>::empty());
        assert(s.subrange(i, s.len() as int) =~= Seq::<u8>::empty());
    } else {
        lemma_skip_zeros(s.drop_last(), i);
        let t = s.subrange(i, s.len() as int);
        assert(t.drop_last() =~= s.drop_last().subrange(i, s.len() - 1));
        assert(t.last() == s.last());
    }
}

/// Bytes that start with a byte other than zero are the shortest form of
/// their value.
pub proof fn lemma_shortest_form(s: Seq<u8>)
    requires
        s.len() > 0,
        s[0] != 0,
    ensures
        be_value(s) > 0,
        nat_bytes(be_value(s)) == s,
    decreases s.len(),
{
    let t = s.drop_last();
    if s.len() == 1 {
        assert(t =~= Seq::<u8>::empty());
        assert(be_value(t) == 0);
        let v = be_value(s);
        assert(v == s[0] as nat);
        assert(v / 256 == 0);
        assert(v % 256 == s[0] as nat);
        assert(nat_bytes(0).push(s[0]) =~= s);
    } else {
        lemma_shortest_form(t);
        let v = be_value(s);
        let b = s.last() as nat;
        assert(v == be_value(t) * 256 + b);
        assert(v / 256 == be_value(t) && v % 256 == b) by (nonlinear_arith)
            requires
                v == be_value(t) * 256 + b,
                b < 256,
        ;
        assert(t.push(s.last()) =~= s);
    }
}

/// Bytes denote a number below 256 to the power of their count.
pub proof fn lemma_be_value_bound(s: Seq<u8>)
    ensures
        be_value(s) < pow(256, s.len()),
    decreases s.len(),
{
    reveal(pow);
    if s.len() > 0 {
        let t = s.drop_last();
        lemma_be_value_bound(t);
        let high = pow(256, t.len());
        assert(pow(256, s.len()) == 256 * high);
        assert(be_value(t) * 256 + s.last() < 256 * high) by (nonlinear_arith)
            requires
                be_value(t) < high,
                s.last() < 256,
        ;
    }
}

/// A signed integer of arbitrary size: a sign and a big-endian magnitude.
///
/// Leading zero bytes are allowed and a zero may carry the negative flag; the
/// view is the same either way.
#[derive(Debug)]
pub struct Integer {
    pub negative: bool,
    pub magnitude: Vec<u8>,
}

impl View for Integer {
    type V = int;

    open spec fn view(&self) -> int {
        if self.negative {
            -(be_value(self.magnitude@) as int)
        } else {
            be_value(self.magnitude@) as int
        }
    }
}

impl Clone for Integer {
    fn clone(&self) -> (r: Self)
        ensures
            r@ == self@,
            r.negative == self.negative,
            r.magnitude@ == self.magnitude@,
    {
        let magnitude = self.magnitude.clone();
        assert(magnitude@ =~= self.magnitude@);
        Integer { negative: self.negative, magnitude }
    }
}

/// The residue of the negative of `x` is the complement of the residue of
/// `x`, or zero.
pub proof fn lemma_residue_of_negative(x: int, m: int)
    requires
        m > 0,
    ensures
        (-x) % m == if x % m == 0 {
            0
        } else {
            m - x % m
        },
{
    lemma_fundamental_div_mod(x, m);
    lemma_mod_bound(x, m);
    let k = x / m;
    let r = x % m;
    if r == 0 {
        assert(-x == m * (-k) + 0) by (nonlinear_arith)
            requires
                x == m * k + r,
                r == 0,
        ;
        lemma_mod_multiples_vanish(-k, 0, m);
        lemma_small_mod(0, m as nat);
    } else {
        assert(-x == m * (-k - 1) + (m - r)) by (nonlinear_arith)
            requires
                x == m * k + r,
        ;
        lemma_mod_multiples_vanish(-k - 1, m - r, m);
        lemma_small_mod((m - r) as nat, m as nat);
    }
}

/// The power of a negative base is the power of the positive one, with the
/// sign of the base for odd exponents.
pub proof fn lemma_power_of_negative(x: int, e: nat)
    ensures
        pow(-x, e) == if e % 2 == 0 {
            pow(x, e)
        } else {
            -pow(x, e)
        },
    decreases e,
{
    reveal(pow);
    if e > 0 {
        lemma_power_of_negative(x, (e - 1) as nat);
        let p = pow(x, (e - 1) as nat);
        assert((-x) * p == -(x * p)) by (nonlinear_arith);
        assert((-x) * (-p) == x * p) by (nonlinear_arith);
    }
}

/// A number and its negative have the same divisors.
pub proof fn lemma_divisor_of_negative(d: int, x: int)
    requires
        d > 0,
    ensures
        (-x) % d == 0 <==> x % d == 0,
{
    lemma_residue_of_negative(x, d);
    lemma_mod_bound(x, d);
}

impl Integer {
    /// The magnitude as a natural number.
    pub open spec fn abs(&self) -> nat {
        be_value(self.magnitude@)
    }

    /// The integer with the given sign and big-endian magnitude.
    pub fn from_bytes(negative: bool, magnitude: Vec<u8>) -> (r: Self)
        ensures
            r.negative == negative,
            r.magnitude@ == magnitude@,
            r@ == if negative { -(be_value(magnitude@) as int) } else { be_value(magnitude@) as int },
    {
        Integer { negative, magnitude }
    }

    /// Zero.
    pub fn zero() -> (r: Self)
        ensures
            r@ == 0,
            !r.negative,
    {
        Integer { negative: false, magnitude: Vec::new() }
    }

    /// The integer equal to one byte.
    pub fn from_u8(value: u8) -> (r: Self)
        ensures
            r@ == value,
            !r.negative,
    {
        let mut magnitude: Vec<u8> = Vec::new();
        magnitude.push(value);
        proof {
            assert(magnitude@.drop_last() =~= Seq::<u8>::empty());
            assert(be_value(magnitude@.drop_last()) == 0);
            assert(magnitude@.last() == value);
        }
        Integer { negative: false, magnitude }
    }

    /// One.
    pub fn one() -> (r: Self)
        ensures
            r@ == 1,
            !r.negative,
    {
        Integer::from_u8(1)
    }

    /// Whether `self` is zero.
    pub fn is_zero(&self) -> (r: bool)
        ensures
            r == (self@ == 0),
    {
        let nothing: Vec<u8> = Vec::new();
        nat_le(&self.magnitude, &nothing)
    }

    /// Whether `self` is below zero.
    pub fn is_negative(&self) -> (r: bool)
        ensures
            r == (self@ < 0),
    {
        self.negative && !self.is_zero()
    }

    /// `-self`.
    pub fn negated(&self) -> (r: Integer)
        ensures
            r@ == -self@,
    {
        let copy = self.clone();
        Integer { negative: !copy.negative, magnitude: copy.magnitude }
    }

    /// `self + other`.
    pub fn add(&self, other: &Integer) -> (r: Integer)
        ensures
            r@ == self@ + other@,
    {
        if self.negative == other.negative {
            Integer { negative: self.negative, magnitude: nat_add(&self.magnitude, &other.magnitude) }
        } else if nat_le(&other.magnitude, &self.magnitude) {
            Integer { negative: self.negative, magnitude: nat_sub(&self.magnitude, &other.magnitude) }
        } else {
            Integer { negative: other.negative, magnitude: nat_sub(&other.magnitude, &self.magnitude) }
        }
    }

    /// `self - other`.
    pub fn sub(&self, other: &Integer) -> (r: Integer)
        ensures
            r@ == self@ - other@,
    {
        self.add(&other.negated())
    }

    /// `self * other`.
    pub fn mul(&self, other: &Integer) -> (r: Integer)
        ensures
            r@ == self@ * other@,
    {
        let magnitude = nat_mul(&self.magnitude, &other.magnitude);
        proof {
            let x = self.abs() as int;
            let y = other.abs() as int;
            assert((-x) * y == -(x * y)) by (nonlinear_arith);
            assert(x * (-y) == -(x * y)) by (nonlinear_arith);
            assert((-x) * (-y) == x * y) by (nonlinear_arith);
        }
        Integer { negative: self.negative != other.negative, magnitude }
    }

    /// `self <= other`.
    pub fn le(&self, other: &Integer) -> (r: bool)
        ensures
            r == (self@ <= other@),
    {
        if self.negative {
            if other.negative {
                nat_le(&other.magnitude, &self.magnitude)
            } else {
                true
            }
        } else if other.negative {
            self.is_zero() && other.is_zero()
        } else {
            nat_le(&self.magnitude, &other.magnitude)
        }
    }

    /// `self < other`.
    pub fn lt(&self, other: &Integer) -> (r: bool)
        ensures
            r == (self@ < other@),
    {
        !other.le(self)
    }

    /// Whether the two denote the same integer, whatever their bytes.
    pub fn equals(&self, other: &Integer) -> (r: bool)
        ensures
            r == (self@ == other@),
    {
        self.le(other) && other.le(self)
    }

    /// The remainder of `self` by a `modulus` other than zero, with the sign
    /// of `self`.
    pub fn truncated_rem(&self, modulus: &Integer) -> (r: Integer)
        requires
            modulus@ != 0,
        ensures
            r@ == trunc_rem(self@, modulus@),
    {
        let magnitude = nat_rem(&self.magnitude, &modulus.magnitude);
        proof {
            let x = self.abs() as int;
            let d = modulus.abs() as int;
            assert(d == if modulus@ < 0 { -modulus@ } else { modulus@ });
            assert(be_value(magnitude@) as int == x % d);
            if self@ >= 0 && self.negative {
                assert(x == 0);
                lemma_small_mod(0, d as nat);
            }
        }
        Integer { negative: self.negative, magnitude }
    }

    /// The remainder of `self` by `modulus`, with the sign of `self`; `None`
    /// for a zero modulus.
    pub fn rem(&self, modulus: &Integer) -> (r: Option<Integer>)
        ensures
            modulus@ == 0 <==> r is None,
            r matches Some(x) ==> x@ == trunc_rem(self@, modulus@),
    {
        if modulus.is_zero() {
            None
        } else {
            Some(self.truncated_rem(modulus))
        }
    }

    /// The remainder of a value that is not negative by a positive modulus.
    pub fn reduce(&self, modulus: &Integer) -> (r: Integer)
        requires
            self@ >= 0,
            modulus@ > 0,
        ensures
            r@ == self@ % modulus@,
            !r.negative,
    {
        Integer { negative: false, magnitude: nat_rem(&self.magnitude, &modulus.magnitude) }
    }

    /// The residue of `self` in `[0, modulus)`, for a positive modulus.
    pub fn modulo(&self, modulus: &Integer) -> (r: Integer)
        requires
            modulus@ > 0,
        ensures
            r@ == self@ % modulus@,
            0 <= r@ < modulus@,
            !r.negative,
    {
        let remainder = Integer { negative: false, magnitude: nat_rem(&self.magnitude, &modulus.magnitude) };
        proof {
            lemma_mod_bound(self.abs() as int, modulus@);
            lemma_mod_bound(self@, modulus@);
            lemma_residue_of_negative(self.abs() as int, modulus@);
        }
        if !self.negative || remainder.is_zero() {
            remainder
        } else {
            Integer { negative: false, magnitude: nat_sub(&modulus.magnitude, &remainder.magnitude) }
        }
    }

    /// `self` raised to a small power.
    pub fn pow(&self, exponent: u32) -> (r: Integer)
        ensures
            r@ == pow(self@, exponent as nat),
    {
        let magnitude = nat_pow(&self.magnitude, exponent);
        proof {
            lemma_power_of_negative(self.abs() as int, exponent as nat);
        }
        Integer { negative: self.negative && exponent % 2 == 1, magnitude }
    }

    /// `self` divided by `divisor`, rounded down, for a dividend that is not
    /// negative and a positive divisor; `None` otherwise.
    pub fn div_floor(&self, divisor: &Integer) -> (r: Option<Integer>)
        ensures
            r is Some <==> self@ >= 0 && divisor@ > 0,
            r matches Some(x) ==> x@ == self@ / divisor@,
    {
        if self.is_negative() || divisor.is_negative() || divisor.is_zero() {
            None
        } else {
            Some(Integer { negative: false, magnitude: nat_div(&self.magnitude, &divisor.magnitude) })
        }
    }

    /// The greatest common divisor of the two; zero where both are zero.
    pub fn gcd(&self, other: &Integer) -> (r: Integer)
        ensures
            is_gcd(r@, self@, other@),
            !r.negative,
    {
        let magnitude = nat_gcd(&self.magnitude, &other.magnitude);
        proof {
            let x = self.abs() as int;
            let y = other.abs() as int;
            let g = be_value(magnitude@) as int;
            assert forall|d: int| #[trigger] common_divisor(d, self@, other@) == common_divisor(d, x, y) by {
                if d > 0 {
                    lemma_divisor_of_negative(d, x);
                    lemma_divisor_of_negative(d, y);
                }
            }
            assert(is_gcd(g, x, y));
            if !(x == 0 && y == 0) {
                assert(common_divisor(g, x, y));
                assert(common_divisor(g, self@, other@));
                assert forall|d: int| common_divisor(d, self@, other@) implies d <= g by {
                    assert(common_divisor(d, x, y));
                }
            }
        }
        Integer { negative: false, magnitude }
    }

    /// `base` raised to `exponent`, modulo `modulus`.
    pub fn mod_pow(base: &Integer, exponent: &Integer, modulus: &Integer) -> (r: Integer)
        requires
            exponent@ >= 0,
            modulus@ > 0,
        ensures
            r@ == pow(base@, exponent@ as nat) % modulus@,
            !r.negative,
    {
        let residue = base.modulo(modulus);
        proof {
            lemma_pow_mod_noop(base@, exponent@ as nat, modulus@);
        }
        Integer {
            negative: false,
            magnitude: nat_mod_pow(&residue.magnitude, &exponent.magnitude, &modulus.magnitude),
        }
    }

    /// The inverse of `self` modulo `modulus`, in `[0, modulus)`; `None` where
    /// there is none.
    pub fn mod_inv(&self, modulus: &Integer) -> (r: Option<Integer>)
        requires
            modulus@ > 1,
        ensures
            r is Some <==> invertible(self@, modulus@),
            r matches Some(x) ==> x@ == inverse(self@, modulus@) && is_inverse(self@, x@, modulus@) && !x.negative,
    {
        let residue = self.modulo(modulus);
        let found = nat_mod_inv(&residue.magnitude, &modulus.magnitude);
        proof {
            assert forall|x: int| is_inverse(residue@, x, modulus@) == is_inverse(self@, x, modulus@) by {
                lemma_mul_mod_noop_general(self@, x, modulus@);
            }
            if invertible(self@, modulus@) {
                assert(is_inverse(residue@, inverse(self@, modulus@), modulus@));
            }
        }
        match found {
            None => None,
            Some(magnitude) => {
                let x = Integer { negative: false, magnitude };
                proof {
                    assert(is_inverse(self@, x@, modulus@));
                    lemma_inverse_unique(self@, x@, inverse(self@, modulus@), modulus@);
                }
                Some(x)
            },
        }
    }

    /// A value drawn from `[0, upper)`.
    pub fn sample_below(upper: &Integer) -> (r: Integer)
        requires
            upper@ > 0,
        ensures
            0 <= r@ < upper@,
            !r.negative,
    {
        Integer { negative: false, magnitude: nat_sample_below(&upper.magnitude) }
    }

    /// A value drawn from `[lower, upper)`.
    pub fn sample_range(lower: &Integer, upper: &Integer) -> (r: Integer)
        requires
            lower@ < upper@,
        ensures
            lower@ <= r@ < upper@,
    {
        let width = upper.sub(lower);
        lower.add(&Integer::sample_below(&width))
    }

    /// Overwrites the bytes with zeros and leaves the value zero.
    pub fn zeroize(&mut self)
        ensures
            final(self)@ == 0,
            final(self).magnitude@.len() == 0,
            !final(self).negative,
        opens_invariants none
        no_unwind
    {
        wipe_bytes(&mut self.magnitude);
        self.negative = false;
    }
}

impl Integer {
    /// The bytes that stand for this integer in a hashed transcript.
    pub fn encode(&self) -> (r: Vec<u8>)
        ensures
            r@ == encoding(self@),
    {
        let n: usize = self.magnitude.len();
        let mut i: usize = 0;
        while i < n && self.magnitude[i] == 0
            invariant
                i <= n,
                n == self.magnitude@.len(),
                forall|j: int| 0 <= j < i ==> self.magnitude@[j] == 0,
            decreases n - i,
        {
            i = i + 1;
        }
        let ghost rest = self.magnitude@.subrange(i as int, n as int);
        proof {
            lemma_skip_zeros(self.magnitude@, i as int);
        }
        let mut out: Vec<u8> = Vec::new();
        if i == n {
            out.push(0u8);
            assert(rest =~= Seq::<u8>::empty());
            assert(out@ =~= seq![0u8]);
            return out;
        }
        let mut k: usize = i;
        while k < n
            invariant
                i <= k <= n,
                n == self.magnitude@.len(),
                out@ == self.magnitude@.subrange(i as int, k as int),
            decreases n - k,
        {
            out.push(self.magnitude[k]);
            k = k + 1;
            assert(out@ =~= self.magnitude@.subrange(i as int, k as int));
        }
        proof {
            assert(out@ == rest);
            lemma_shortest_form(rest);
        }
        out
    }
}

/// Two canonical inverses of one value are the same number.
pub proof fn lemma_inverse_unique(a: int, x: int, y: int, m: int)
    requires
        m > 1,
        is_inverse(a, x, m),
        is_inverse(a, y, m),
    ensures
        x == y,
{
    lemma_mul_mod_noop_right(x, a * y, m);
    lemma_mul_mod_noop_right(y, a * x, m);
    assert(x * (a * y) == y * (a * x)) by (nonlinear_arith);
    lemma_small_mod(x as nat, m as nat);
    lemma_small_mod(y as nat, m as nat);
    assert(x * 1 == x);
    assert(y * 1 == y);
}

/// Calls `BigInt`'s `+` on two natural numbers. Claims that the bytes of
/// their sum come back.
#[verifier::external_body]
fn nat_add(a: &Vec<u8>, b: &Vec<u8>) -> (r: Vec<u8>)
    ensures
        be_value(r@) == be_value(a@) + be_value(b@),
{
    (BigInt::from_bytes(a) + BigInt::from_bytes(b)).to_bytes()
}

/// Calls `BigInt`'s `-` on two natural numbers of which the first is not the
/// smaller. Claims that the bytes of their difference come back.
#[verifier::external_body]
fn nat_sub(a: &Vec<u8>, b: &Vec<u8>) -> (r: Vec<u8>)
    requires
        be_value(a@) >= be_value(b@),
    ensures
        be_value(r@) == be_value(a@) - be_value(b@),
{
    (BigInt::from_bytes(a) - BigInt::from_bytes(b)).to_bytes()
}

/// Calls `BigInt`'s `*` on two natural numbers. Claims that the bytes of
/// their product come back.
#[verifier::external_body]
fn nat_mul(a: &Vec<u8>, b: &Vec<u8>) -> (r: Vec<u8>)
    ensures
        be_value(r@) == be_value(a@) * be_value(b@),
{
    (BigInt::from_bytes(a) * BigInt::from_bytes(b)).to_bytes()
}

/// Calls `BigInt`'s `%` on two natural numbers; it panics on a zero divisor.
/// Claims that the bytes of the remainder come back.
#[verifier::external_body]
fn nat_rem(a: &Vec<u8>, m: &Vec<u8>) -> (r: Vec<u8>)
    requires
        be_value(m@) > 0,
    ensures
        be_value(r@) == be_value(a@) % be_value(m@),
{
    (BigInt::from_bytes(a) % BigInt::from_bytes(m)).to_bytes()
}

/// Calls `BigInt`'s `/` on two natural numbers; it panics on a zero divisor.
/// Claims that the bytes of the quotient come back.
#[verifier::external_body]
fn nat_div(a: &Vec<u8>, d: &Vec<u8>) -> (r: Vec<u8>)
    requires
        be_value(d@) > 0,
    ensures
        be_value(r@) == be_value(a@) / be_value(d@),
{
    (BigInt::from_bytes(a) / BigInt::from_bytes(d)).to_bytes()
}

/// Calls `BigInt`'s ordering on two natural numbers. Claims that it is the
/// order of the numbers.
#[verifier::external_body]
fn nat_le(a: &Vec<u8>, b: &Vec<u8>) -> (r: bool)
    ensures
        r == (be_value(a@) <= be_value(b@)),
{
    BigInt::from_bytes(a) <= BigInt::from_bytes(b)
}

/// Calls `BasicOps::pow` on a natural number. Claims that the bytes of the
/// power come back.
#[verifier::external_body]
fn nat_pow(a: &Vec<u8>, exponent: u32) -> (r: Vec<u8>)
    ensures
        be_value(r@) == pow(be_value(a@) as int, exponent as nat),
{
    BasicOps::pow(&BigInt::from_bytes(a), exponent).to_bytes()
}

/// Calls `Integer::gcd` of `BigInt` on two natural numbers. Claims that the
/// bytes of their greatest common divisor come back, and those of zero where
/// both are zero.
#[verifier::external_body]
fn nat_gcd(a: &Vec<u8>, b: &Vec<u8>) -> (r: Vec<u8>)
    ensures
        is_gcd(be_value(r@) as int, be_value(a@) as int, be_value(b@) as int),
{
    curv::arithmetic::traits::Integer::gcd(&BigInt::from_bytes(a), &BigInt::from_bytes(b)).to_bytes()
}

/// Calls `Modulo::mod_pow` on natural numbers; it divides by the modulus.
/// Claims that the bytes of the residue of the power come back.
#[verifier::external_body]
fn nat_mod_pow(base: &Vec<u8>, exponent: &Vec<u8>, modulus: &Vec<u8>) -> (r: Vec<u8>)
    requires
        be_value(modulus@) > 0,
    ensures
        be_value(r@) == pow(be_value(base@) as int, be_value(exponent@)) % (be_value(modulus@) as int),
{
    BigInt::mod_pow(&BigInt::from_bytes(base), &BigInt::from_bytes(exponent), &BigInt::from_bytes(modulus)).to_bytes()
}

/// Calls `Modulo::mod_inv` on natural numbers. Claims that it finds the
/// inverse in `[0, m)` exactly when there is one.
#[verifier::external_body]
fn nat_mod_inv(a: &Vec<u8>, modulus: &Vec<u8>) -> (r: Option<Vec<u8>>)
    requires
        be_value(modulus@) > 1,
    ensures
        r is None ==> !invertible(be_value(a@) as int, be_value(modulus@) as int),
        r matches Some(x) ==> is_inverse(be_value(a@) as int, be_value(x@) as int, be_value(modulus@) as int),
{
    let inverse = BigInt::mod_inv(&BigInt::from_bytes(a), &BigInt::from_bytes(modulus))?;
    Some(inverse.to_bytes())
}

/// Calls `Samplable::sample_below`, which panics unless the bound is
/// positive. Claims only the range of what is drawn.
#[verifier::external_body]
fn nat_sample_below(upper: &Vec<u8>) -> (r: Vec<u8>)
    requires
        be_value(upper@) > 0,
    ensures
        be_value(r@) < be_value(upper@),
{
    BigInt::sample_below(&BigInt::from_bytes(upper)).to_bytes()
}

/// Calls `Zeroize::zeroize` on the byte vector. Claims that it is left
/// empty and that the call does not panic; the crate also overwrites the
/// bytes it held.
#[verifier::external_body]
fn wipe_bytes(bytes: &mut Vec<u8>)
    ensures
        final(bytes)@.len() == 0,
    opens_invariants none
    no_unwind
{
    bytes.zeroize();
}

} // verus!
