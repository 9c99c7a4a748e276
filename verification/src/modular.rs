//! Exponentiation in a residue ring with exponents of either sign, and the
//! Fujisaki–Okamoto commitment built from it.
use vstd::prelude::*;
use vstd::arithmetic::power::pow;
use crate::integer::{inverse, invertible, Integer};

verus! {

/// `base` raised to `exponent` modulo `m`, as a residue in `[0, m)`. A
/// negative exponent stands for the inverse of the positive power, and there
/// is no result where that power has no inverse.
pub open spec fn mod_exp(base: int, exponent: int, m: int) -> Option<int> {
    if exponent >= 0 {
        Some(pow(base, exponent as nat) % m)
    } else {
        let p = pow(base, (-exponent) as nat) % m;
        if invertible(p, m) {
            Some(inverse(p, m))
        } else {
            None
        }
    }
}

/// The commitment `h1^x * h2^y mod m` to `x` with blinding `y`.
pub open spec fn commitment(h1: int, x: int, h2: int, y: int, m: int) -> Option<int> {
    match (mod_exp(h1, x, m), mod_exp(h2, y, m)) {
        (Some(a), Some(b)) => Some((a * b) % m),
        _ => None,
    }
}

/// `base` raised to `exponent` modulo `m`; `None` where the exponent is
/// negative and the power has no inverse.
pub fn power_mod(base: &Integer, exponent: &Integer, m: &Integer) -> (r: Option<Integer>)
    requires
        m@ > 1,
    ensures
        r is Some <==> mod_exp(base@, exponent@, m@) is Some,
        r matches Some(x) ==> mod_exp(base@, exponent@, m@) == Some(x@) && 0 <= x@ < m@,
{
    if exponent.is_negative() {
        let zero = Integer::zero();
        let positive = zero.sub(exponent);
        let p = Integer::mod_pow(base, &positive, m);
        p.mod_inv(m)
    } else {
        let p = Integer::mod_pow(base, exponent, m);
        proof {
            vstd::arithmetic::div_mod::lemma_mod_bound(pow(base@, exponent@ as nat), m@);
        }
        Some(p)
    }
}

/// The commitment `h1^x * h2^y mod m`; `None` where a negative exponent
/// meets a base without an inverse.
pub fn commit(h1: &Integer, x: &Integer, h2: &Integer, y: &Integer, m: &Integer) -> (r: Option<
    Integer,
>)
    requires
        m@ > 1,
    ensures
        r is Some <==> commitment(h1@, x@, h2@, y@, m@) is Some,
        r matches Some(c) ==> commitment(h1@, x@, h2@, y@, m@) == Some(c@) && 0 <= c@ < m@,
{
    let a = power_mod(h1, x, m);
    let b = power_mod(h2, y, m);
    match (a, b) {
        (Some(a), Some(b)) => {
            let product = a.mul(&b);
            proof {
                assert(a@ * b@ >= 0) by (nonlinear_arith)
                    requires
                        a@ >= 0,
                        b@ >= 0,
                ;
                vstd::arithmetic::div_mod::lemma_mod_pos_bound(a@ * b@, m@);
            }
            Some(product.reduce(m))
        },
        _ => None,
    }
}

/// The commitment `h1^x * h2^y mod m` for exponents that are not negative.
pub open spec fn plain_commitment(h1: int, x: int, h2: int, y: int, m: int) -> int {
    ((pow(h1, x as nat) % m) * (pow(h2, y as nat) % m)) % m
}

/// The commitment `h1^x * h2^y mod m` for exponents that are not negative.
pub fn commit_plain(h1: &Integer, x: &Integer, h2: &Integer, y: &Integer, m: &Integer) -> (r: Integer)
    requires
        m@ > 1,
        x@ >= 0,
        y@ >= 0,
    ensures
        r@ == plain_commitment(h1@, x@, h2@, y@, m@),
        0 <= r@ < m@,
{
    let a = Integer::mod_pow(h1, x, m);
    let b = Integer::mod_pow(h2, y, m);
    let product = a.mul(&b);
    proof {
        vstd::arithmetic::div_mod::lemma_mod_bound(pow(h1@, x@ as nat), m@);
        vstd::arithmetic::div_mod::lemma_mod_bound(pow(h2@, y@ as nat), m@);
        assert(a@ * b@ >= 0) by (nonlinear_arith)
            requires
                a@ >= 0,
                b@ >= 0,
        ;
        vstd::arithmetic::div_mod::lemma_mod_bound(a@ * b@, m@);
    }
    product.reduce(m)
}

} // verus!
