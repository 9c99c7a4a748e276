//! Facts about powers and products of residues, from which the completeness
//! of the proofs is derived.
use vstd::prelude::*;
use vstd::arithmetic::div_mod::{
    lemma_fundamental_div_mod, lemma_mod_bound, lemma_mul_mod_noop_general, lemma_small_mod,
};
use vstd::arithmetic::power::{
    lemma1_pow, lemma_pow0, lemma_pow_adds, lemma_pow_mod_noop, lemma_pow_multiplies, pow,
};
use crate::integer::{inverse, invertible, is_inverse, lemma_inverse_unique};
use crate::modular::{mod_exp, plain_commitment};

verus! {

/// Powers of one base multiply by adding their exponents.
pub proof fn lemma_pow_sum(g: int, a: int, b: int, m: int)
    requires
        m > 0,
        a >= 0,
        b >= 0,
    ensures
        ((pow(g, a as nat) % m) * (pow(g, b as nat) % m)) % m == pow(g, (a + b) as nat) % m,
{
    lemma_pow_adds(g, a as nat, b as nat);
    lemma_mul_mod_noop_general(pow(g, a as nat), pow(g, b as nat), m);
}

/// The power of a residue of a power is the power to the product of the
/// exponents.
pub proof fn lemma_pow_product(g: int, a: int, b: int, m: int)
    requires
        m > 0,
        a >= 0,
        b >= 0,
    ensures
        a * b >= 0,
        pow(pow(g, a as nat) % m, b as nat) % m == pow(g, (a * b) as nat) % m,
{
    lemma_pow_mod_noop(pow(g, a as nat), b as nat, m);
    lemma_pow_multiplies(g, a as nat, b as nat);
}

/// Where `g` to the power `order` is one, multiples of `order` in the
/// exponent change nothing.
pub proof fn lemma_period(g: int, k: int, j: int, order: int, m: int)
    requires
        m > 1,
        k >= 0,
        j >= 0,
        order >= 0,
        pow(g, order as nat) % m == 1,
    ensures
        k + j * order >= 0,
        pow(g, (k + j * order) as nat) % m == pow(g, k as nat) % m,
{
    lemma_pow_product(g, order, j, m);
    lemma1_pow(j as nat);
    lemma_small_mod(1, m as nat);
    assert(order * j == j * order) by (nonlinear_arith);
    assert(pow(g, (j * order) as nat) % m == 1);
    lemma_pow_sum(g, k, j * order, m);
    lemma_mod_bound(pow(g, k as nat), m);
    lemma_small_mod((pow(g, k as nat) % m) as nat, m as nat);
    assert((pow(g, k as nat) % m) * 1 == pow(g, k as nat) % m);
}

/// Where `g` to the power `order` is one, exponents that are congruent
/// modulo `order` give the same power.
pub proof fn lemma_same_power(g: int, a: int, b: int, order: int, m: int)
    requires
        m > 1,
        order > 0,
        a >= 0,
        b >= 0,
        pow(g, order as nat) % m == 1,
        a % order == b % order,
    ensures
        pow(g, a as nat) % m == pow(g, b as nat) % m,
{
    lemma_fundamental_div_mod(a, order);
    lemma_fundamental_div_mod(b, order);
    lemma_mod_bound(a, order);
    let k = a % order;
    let ja = a / order;
    let jb = b / order;
    assert(ja >= 0 && jb >= 0) by (nonlinear_arith)
        requires
            a == order * ja + k,
            b == order * jb + k,
            0 <= k < order,
            a >= 0,
            b >= 0,
    ;
    assert(order * ja == ja * order && order * jb == jb * order) by (nonlinear_arith);
    lemma_period(g, k, ja, order, m);
    lemma_period(g, k, jb, order, m);
    assert(a == k + ja * order);
    assert(b == k + jb * order);
}

/// A residue `x` with `a x = 1` is the inverse of `a`.
pub proof fn lemma_inverse_is(a: int, x: int, m: int)
    requires
        m > 1,
        0 <= x < m,
        (a * x) % m == 1,
    ensures
        invertible(a, m),
        inverse(a, m) == x,
{
    assert(is_inverse(a, x, m));
    lemma_inverse_unique(a, x, inverse(a, m), m);
}

/// Where `g` to the power `order` is one, the power to an exponent of either
/// sign is the power to any exponent that is not negative and congruent to
/// it.
pub proof fn lemma_power_of_either_sign(g: int, e: int, k: int, order: int, m: int)
    requires
        m > 1,
        order > 0,
        k >= 0,
        pow(g, order as nat) % m == 1,
        (k - e) % order == 0,
    ensures
        mod_exp(g, e, m) == Some(pow(g, k as nat) % m),
{
    lemma_small_mod(0, order as nat);
    if e < 0 {
        let n = -e;
        lemma_pow_sum(g, n, k, m);
        lemma_pow0(g);
        lemma_same_power(g, n + k, 0, order, m);
        lemma_small_mod(1, m as nat);
        let p = pow(g, n as nat) % m;
        let x = pow(g, k as nat) % m;
        lemma_mod_bound(pow(g, k as nat), m);
        assert((p * x) % m == 1);
        lemma_inverse_is(p, x, m);
    } else {
        lemma_fundamental_div_mod(k - e, order);
        let j = (k - e) / order;
        assert(k == e + order * j);
        vstd::arithmetic::div_mod::lemma_mod_multiples_vanish(j, e, order);
        assert((order * j + e) % order == e % order);
        lemma_same_power(g, k, e, order, m);
    }
}

/// `a` and `b` leave the same remainder modulo `m`.
pub open spec fn congruent(a: int, b: int, m: int) -> bool {
    a % m == b % m
}

/// Congruent factors give congruent products.
pub proof fn lemma_congruent_products(a: int, b: int, c: int, d: int, m: int)
    requires
        m > 0,
        congruent(a, b, m),
        congruent(c, d, m),
    ensures
        congruent(a * c, b * d, m),
{
    lemma_mul_mod_noop_general(a, c, m);
    lemma_mul_mod_noop_general(b, d, m);
}

/// Congruent bases give congruent powers.
pub proof fn lemma_congruent_powers(a: int, b: int, k: nat, m: int)
    requires
        m > 0,
        congruent(a, b, m),
    ensures
        congruent(pow(a, k), pow(b, k), m),
{
    lemma_pow_mod_noop(a, k, m);
    lemma_pow_mod_noop(b, k, m);
}

/// A multiple of the modulus changes no remainder.
pub proof fn lemma_congruent_up_to_multiple(a: int, t: int, m: int)
    requires
        m > 0,
    ensures
        congruent(a + t * m, a, m),
{
    vstd::arithmetic::div_mod::lemma_mod_multiples_vanish(t, a, m);
    assert(m * t == t * m) by (nonlinear_arith);
}

/// Numbers that are congruent differ by a multiple of the modulus.
pub proof fn lemma_congruent_difference(a: int, b: int, m: int) -> (k: int)
    requires
        m > 0,
        congruent(a, b, m),
    ensures
        a == b + k * m,
{
    lemma_fundamental_div_mod(a, m);
    lemma_fundamental_div_mod(b, m);
    let k = a / m - b / m;
    assert(a == b + k * m) by (nonlinear_arith)
        requires
            a == m * (a / m) + a % m,
            b == m * (b / m) + b % m,
            a % m == b % m,
            k == a / m - b / m,
    ;
    k
}

/// If `z` times `inv` is one, a product with `z` is undone by `inv`.
pub proof fn lemma_cancel(c: int, z: int, w: int, inv: int, m: int)
    requires
        m > 1,
        congruent(c, z * w, m),
        (z * inv) % m == 1,
        0 <= w < m,
    ensures
        (c * inv) % m == w,
{
    lemma_congruent_products(c, z * w, inv, inv, m);
    assert((z * w) * inv == w * (z * inv)) by (nonlinear_arith);
    lemma_mul_mod_noop_general(w, z * inv, m);
    assert(w * 1 == w);
    lemma_small_mod(w as nat, m as nat);
}

/// Inverses multiply: the product of two numbers is undone by the product
/// of what undoes each.
pub proof fn lemma_inverse_of_product(x: int, xi: int, y: int, yi: int, m: int)
    requires
        m > 1,
        (x * xi) % m == 1,
        (y * yi) % m == 1,
    ensures
        ((x * y) * (xi * yi)) % m == 1,
{
    lemma_mul_mod_noop_general(x * xi, y * yi, m);
    assert((x * y) * (xi * yi) == (x * xi) * (y * yi)) by (nonlinear_arith);
    lemma_small_mod(1, m as nat);
}

/// The inverse of a power is the power of the inverse.
pub proof fn lemma_inverse_of_power(x: int, xi: int, k: nat, m: int)
    requires
        m > 1,
        (x * xi) % m == 1,
    ensures
        (pow(x, k) * pow(xi, k)) % m == 1,
{
    vstd::arithmetic::power::lemma_pow_distributes(x, xi, k);
    lemma_pow_mod_noop(x * xi, k, m);
    lemma1_pow(k);
    lemma_small_mod(1, m as nat);
}

/// What undoes a number undoes every number congruent to it.
pub proof fn lemma_inverse_of_congruent(x: int, y: int, xi: int, m: int)
    requires
        m > 1,
        (x * xi) % m == 1,
        congruent(x, y, m),
    ensures
        (y * xi) % m == 1,
{
    lemma_congruent_products(x, y, xi, xi, m);
}

/// A number that some number undoes has an inverse, which undoes it too.
pub proof fn lemma_has_inverse(x: int, xi: int, m: int)
    requires
        m > 1,
        (x * xi) % m == 1,
    ensures
        invertible(x, m),
        (x * inverse(x, m)) % m == 1,
        0 <= inverse(x, m) < m,
{
    lemma_mod_bound(xi, m);
    lemma_mul_mod_noop_general(x, xi, m);
    assert(is_inverse(x, xi % m, m));
}

/// The power of `base` to `-e`, for `e` that is not negative, undoes the
/// power to `e`, where `bi` undoes the base.
pub proof fn lemma_inverse_power_exists(base: int, bi: int, e: int, m: int)
    requires
        m > 1,
        e >= 0,
        (base * bi) % m == 1,
    ensures
        mod_exp(base, -e, m) is Some,
        0 <= mod_exp(base, -e, m)->0 < m,
        (pow(base, e as nat) * mod_exp(base, -e, m)->0) % m == 1,
{
    lemma_small_mod(1, m as nat);
    if e == 0 {
        lemma_pow0(base);
    } else {
        let p = pow(base, e as nat) % m;
        lemma_inverse_of_power(base, bi, e as nat, m);
        vstd::arithmetic::div_mod::lemma_mod_twice(pow(base, e as nat), m);
        lemma_inverse_of_congruent(pow(base, e as nat), p, pow(bi, e as nat), m);
        lemma_has_inverse(p, pow(bi, e as nat), m);
        lemma_mul_mod_noop_general(pow(base, e as nat), inverse(p, m), m);
    }
}

/// The binomial theorem as far as the square of `n`: the power of `1 + a n`
/// to `e` is `1 + e a n` modulo `n^2`.
pub proof fn lemma_power_of_one_plus_multiple(a: int, n: int, e: nat)
    requires
        n > 0,
    ensures
        congruent(pow(1 + a * n, e), 1 + e * a * n, n * n),
    decreases e,
{
    let nn = n * n;
    assert(nn > 0) by (nonlinear_arith)
        requires
            n > 0,
            nn == n * n,
    ;
    reveal(pow);
    if e == 0 {
        assert(1 + 0 * a * n == 1) by (nonlinear_arith);
    } else {
        let f = (e - 1) as nat;
        lemma_power_of_one_plus_multiple(a, n, f);
        lemma_congruent_products(1 + a * n, 1 + a * n, pow(1 + a * n, f), 1 + f * a * n, nn);
        assert((1 + a * n) * (1 + f * a * n) == (1 + e * a * n) + (f * a * a) * nn) by (nonlinear_arith)
            requires
                e == f + 1,
                nn == n * n,
        ;
        lemma_congruent_up_to_multiple(1 + e * a * n, f * a * a, nn);
    }
}

/// The power of `y + k n` to `j` is `y^j + j k n y^(j-1)` modulo `n^2`.
pub proof fn lemma_power_of_shifted(y: int, k: int, n: int, j: nat)
    requires
        n > 0,
        j > 0,
    ensures
        congruent(pow(y + k * n, j), pow(y, j) + j * k * n * pow(y, (j - 1) as nat), n * n),
    decreases j,
{
    let nn = n * n;
    assert(nn > 0) by (nonlinear_arith)
        requires
            n > 0,
            nn == n * n,
    ;
    reveal(pow);
    if j == 1 {
        lemma_pow0(y);
        lemma_pow0(y + k * n);
        assert(pow(y + k * n, 1) == y + k * n);
        assert(pow(y, 1) == y);
        assert(1 * k * n * 1 == k * n) by (nonlinear_arith);
    } else {
        let i = (j - 1) as nat;
        lemma_power_of_shifted(y, k, n, i);
        let prev = pow(y, (i - 1) as nat);
        let shifted = pow(y, i) + i * k * n * prev;
        lemma_congruent_products(y + k * n, y + k * n, pow(y + k * n, i), shifted, nn);
        assert(pow(y, i) == y * prev);
        assert(pow(y, j) == y * pow(y, i));
        let t = k * n;
        let a = pow(y, i);
        let ghost_i = i as int;
        let b = ghost_i * t * prev;
        assert((y + t) * (a + b) == y * a + y * b + t * a + t * b) by (nonlinear_arith);
        assert(y * b == ghost_i * t * (y * prev)) by (nonlinear_arith)
            requires
                b == ghost_i * t * prev,
        ;
        assert(t * b == ghost_i * (t * t) * prev) by (nonlinear_arith)
            requires
                b == ghost_i * t * prev,
        ;
        assert(t * t == (k * k) * nn) by (nonlinear_arith)
            requires
                t == k * n,
                nn == n * n,
        ;
        assert(ghost_i * (t * t) * prev == (ghost_i * k * k * prev) * nn) by (nonlinear_arith)
            requires
                t * t == (k * k) * nn,
        ;
        assert(ghost_i * t * a + t * a == (ghost_i + 1) * k * n * a) by (nonlinear_arith)
            requires
                t == k * n,
        ;
        assert(ghost_i * k * n * prev == ghost_i * t * prev) by (nonlinear_arith)
            requires
                t == k * n,
        ;
        assert((y + k * n) * shifted == (pow(y, j) + j * k * n * pow(y, i)) + (i * k * k * prev) * nn);
        lemma_congruent_up_to_multiple(pow(y, j) + j * k * n * pow(y, i), i * k * k * prev, nn);
    }
}

/// Numbers that are congruent modulo `n` have `n`-th powers that are
/// congruent modulo `n^2`.
pub proof fn lemma_lifted_power(x: int, y: int, n: int)
    requires
        n > 0,
        congruent(x, y, n),
    ensures
        congruent(pow(x, n as nat), pow(y, n as nat), n * n),
{
    let nn = n * n;
    assert(nn > 0) by (nonlinear_arith)
        requires
            n > 0,
            nn == n * n,
    ;
    let k = lemma_congruent_difference(x, y, n);
    lemma_power_of_shifted(y, k, n, n as nat);
    let prev = pow(y, (n - 1) as nat);
    assert(n * k * n * prev == (k * prev) * nn) by (nonlinear_arith)
        requires
            nn == n * n,
    ;
    lemma_congruent_up_to_multiple(pow(y, n as nat), k * prev, nn);
}

/// What undoes a number modulo `n` gives what undoes it modulo `n^2`.
pub proof fn lemma_lifted_inverse(r: int, ri: int, n: int) -> (lifted: int)
    requires
        n > 1,
        (r * ri) % n == 1,
    ensures
        (r * lifted) % (n * n) == 1,
{
    let nn = n * n;
    assert(nn > 1) by (nonlinear_arith)
        requires
            n > 1,
            nn == n * n,
    ;
    lemma_fundamental_div_mod(r * ri, n);
    let k = (r * ri) / n;
    let lifted = ri * (1 - k * n);
    assert(r * lifted == 1 + (-(k * k)) * nn) by (nonlinear_arith)
        requires
            r * ri == n * k + 1,
            lifted == ri * (1 - k * n),
            nn == n * n,
    ;
    lemma_congruent_up_to_multiple(1, -(k * k), nn);
    lemma_small_mod(1, nn as nat);
    lifted
}

/// A commitment is congruent to the product of the plain powers.
pub proof fn lemma_commitment_is_product(h1: int, x: int, h2: int, y: int, m: int)
    requires
        m > 0,
    ensures
        congruent(plain_commitment(h1, x, h2, y, m), pow(h1, x as nat) * pow(h2, y as nat), m),
        0 <= plain_commitment(h1, x, h2, y, m) < m,
{
    lemma_mul_mod_noop_general(pow(h1, x as nat), pow(h2, y as nat), m);
    vstd::arithmetic::div_mod::lemma_mod_twice(pow(h1, x as nat) * pow(h2, y as nat), m);
    lemma_mod_bound((pow(h1, x as nat) % m) * (pow(h2, y as nat) % m), m);
}

/// Commitments combine as their contents do: the commitment to `e x + a`
/// with blinding `e y + b` is the `e`-th power of the commitment to `x` with
/// blinding `y`, times the commitment to `a` with blinding `b`.
pub proof fn lemma_commitment_combines(h1: int, h2: int, x: int, y: int, a: int, b: int, e: int, m: int)
    requires
        m > 0,
        x >= 0,
        y >= 0,
        a >= 0,
        b >= 0,
        e >= 0,
    ensures
        e * x + a >= 0,
        e * y + b >= 0,
        congruent(
            plain_commitment(h1, e * x + a, h2, e * y + b, m),
            pow(plain_commitment(h1, x, h2, y, m), e as nat) * plain_commitment(h1, a, h2, b, m),
            m,
        ),
{
    assert(e * x >= 0 && e * y >= 0) by (nonlinear_arith)
        requires
            e >= 0,
            x >= 0,
            y >= 0,
    ;
    let z = plain_commitment(h1, x, h2, y, m);
    let w = plain_commitment(h1, a, h2, b, m);
    let px = pow(h1, x as nat);
    let py = pow(h2, y as nat);
    lemma_commitment_is_product(h1, x, h2, y, m);
    lemma_commitment_is_product(h1, a, h2, b, m);
    lemma_commitment_is_product(h1, e * x + a, h2, e * y + b, m);
    // z^e = h1^(x e) h2^(y e)
    lemma_congruent_powers(z, px * py, e as nat, m);
    vstd::arithmetic::power::lemma_pow_distributes(px, py, e as nat);
    lemma_pow_multiplies(h1, x as nat, e as nat);
    lemma_pow_multiplies(h2, y as nat, e as nat);
    assert(x * e == e * x && y * e == e * y) by (nonlinear_arith);
    let pxe = pow(h1, (e * x) as nat);
    let pye = pow(h2, (e * y) as nat);
    let pa = pow(h1, a as nat);
    let pb = pow(h2, b as nat);
    assert(congruent(pow(z, e as nat), pxe * pye, m));
    lemma_congruent_products(pow(z, e as nat), pxe * pye, w, pa * pb, m);
    lemma_pow_adds(h1, (e * x) as nat, a as nat);
    lemma_pow_adds(h2, (e * y) as nat, b as nat);
    assert((pxe * pye) * (pa * pb) == (pxe * pa) * (pye * pb)) by (nonlinear_arith);
}

/// A commitment over bases that can be undone can be undone.
pub proof fn lemma_commitment_inverse(
    h1: int,
    u1: int,
    x: int,
    h2: int,
    u2: int,
    y: int,
    m: int,
) -> (inv: int)
    requires
        m > 1,
        (h1 * u1) % m == 1,
        (h2 * u2) % m == 1,
    ensures
        (plain_commitment(h1, x, h2, y, m) * inv) % m == 1,
{
    lemma_inverse_of_power(h1, u1, x as nat, m);
    lemma_inverse_of_power(h2, u2, y as nat, m);
    let inv = pow(u1, x as nat) * pow(u2, y as nat);
    lemma_inverse_of_product(pow(h1, x as nat), pow(u1, x as nat), pow(h2, y as nat), pow(u2, y as nat), m);
    lemma_commitment_is_product(h1, x, h2, y, m);
    lemma_inverse_of_congruent(pow(h1, x as nat) * pow(h2, y as nat), plain_commitment(h1, x, h2, y, m), inv, m);
    inv
}

/// A product of two products of three factors, regrouped by pairs.
pub proof fn lemma_regroup(a: int, b: int, c: int, d: int, e: int, f: int)
    ensures
        (a * (b * c)) * ((d * e) * f) == (a * d) * ((b * e) * (c * f)),
{
    let bc = b * c;
    let de = d * e;
    let be = b * e;
    let cf = c * f;
    assert((a * bc) * (de * f) == a * (bc * (de * f))) by (nonlinear_arith);
    assert(bc * (de * f) == d * (be * cf)) by {
        assert(bc * (de * f) == (bc * de) * f) by (nonlinear_arith);
        assert(bc * de == d * (be * c)) by (nonlinear_arith)
            requires
                bc == b * c,
                de == d * e,
                be == b * e,
        ;
        assert((d * (be * c)) * f == d * (be * (c * f))) by (nonlinear_arith);
    }
    assert(a * (d * (be * cf)) == (a * d) * (be * cf)) by (nonlinear_arith);
}

} // verus!
