//! What holds of the proofs for every input: an honest prover convinces the
//! verifier.
use vstd::prelude::*;
use vstd::arithmetic::div_mod::{lemma_fundamental_div_mod, lemma_mod_bound, lemma_small_mod};
use vstd::arithmetic::power::{lemma_pow1, pow};
use crate::alice::{
    alice_check, alice_check_u, alice_proof, alice_u, alice_w, alice_z, made_by_alice, AliceInitValues,
};
use crate::bob::{
    bob_check, bob_check_v, bob_check_w, bob_check_with_hash, bob_check_z, bob_commitments, bob_ext_check,
    additive_share, bob_ext_proof, bob_ext_transcript, bob_proof, bob_responses, bob_transcript, carried, ec_binding,
    made_by_bob, made_by_bob_ext, mta_output, BobInitValues, BobProofValues,
};
use crate::alice::AliceProofValues;
use crate::encryption::encryption;
use crate::hashing::challenge_of;
use crate::verification::ProofVerificationError;
use crate::integer::{common_divisor, inverse, invertible, is_inverse, trunc_rem};
use crate::primes::coprime;
use crate::modular::{commitment, mod_exp, plain_commitment};
use crate::residues::{
    congruent, lemma_cancel, lemma_commitment_combines, lemma_commitment_inverse, lemma_commitment_is_product,
    lemma_congruent_powers, lemma_congruent_products, lemma_congruent_up_to_multiple, lemma_inverse_of_congruent,
    lemma_inverse_of_power, lemma_inverse_of_product, lemma_inverse_power_exists, lemma_lifted_inverse,
    lemma_lifted_power, lemma_period, lemma_pow_product, lemma_pow_sum, lemma_power_of_either_sign,
    lemma_power_of_one_plus_multiple, lemma_same_power,
};
use crate::setup::{
    public_setup_check, setup_proof, setup_proof_check, SetupFailure, SetupProofValues, ZkpPublicSetup, ZkpSetup,
};

verus! {

/// A Schnorr proof that is made as prescribed verifies: where `g` to the
/// power `order` is one modulo `n` and `y` is `g` to the power `x`, the proof
/// for `x` from any ephemeral exponent `v` passes both checks.
pub proof fn lemma_schnorr_proof_verifies(n: int, g: int, y: int, x: int, order: int, v: int)
    requires
        n > 1,
        order > 0,
        x >= 0,
        v >= 0,
        pow(g, order as nat) % n == 1,
        y == pow(g, x as nat) % n,
    ensures
        setup_proof_check(n, g, y, setup_proof(n, g, y, x, order, v)) is Ok,
{
    let proof = setup_proof(n, g, y, x, order, v);
    let c = proof.challenge;
    let r = proof.response;
    assert(c >= 0);
    let d = v - x * c;
    assert(x * c >= 0) by (nonlinear_arith)
        requires
            x >= 0,
            c >= 0,
    ;
    // a response that is not negative and congruent to r
    let k: int = if d >= 0 {
        d % order
    } else {
        (order - (-d) % order) % order
    };
    lemma_mod_bound(d, order);
    lemma_mod_bound(-d, order);
    lemma_mod_bound(order - (-d) % order, order);
    assert((k - r) % order == 0 && (k + x * c) % order == v % order) by {
        if d >= 0 {
            assert(r == d % order);
            lemma_small_mod(0, order as nat);
            lemma_fundamental_div_mod(d, order);
            let j = d / order;
            assert(k + x * c == v - order * j);
            vstd::arithmetic::div_mod::lemma_mod_multiples_vanish(-j, v, order);
            assert(order * (-j) == -(order * j)) by (nonlinear_arith);
        } else {
            let t = (-d) % order;
            assert(r == -t);
            lemma_fundamental_div_mod(-d, order);
            let j = (-d) / order;
            if t == 0 {
                lemma_small_mod(0, order as nat);
                vstd::arithmetic::div_mod::lemma_mod_self_0(order);
                assert(k == 0);
                assert(k + x * c == v + order * j);
                vstd::arithmetic::div_mod::lemma_mod_multiples_vanish(j, v, order);
            } else {
                lemma_small_mod((order - t) as nat, order as nat);
                assert(k == order - t);
                assert(k - r == order);
                vstd::arithmetic::div_mod::lemma_mod_self_0(order);
                assert(k + x * c == v + order * (j + 1)) by (nonlinear_arith)
                    requires
                        k == order - t,
                        -d == order * j + t,
                        d == v - x * c,
                ;
                vstd::arithmetic::div_mod::lemma_mod_multiples_vanish(j + 1, v, order);
            }
        }
    }
    lemma_power_of_either_sign(g, r, k, order, n);
    let a = pow(g, k as nat) % n;
    assert(mod_exp(g, r, n) == Some(a));
    // y^c = g^(x c)
    lemma_pow_product(g, x, c, n);
    assert(pow(y, c as nat) % n == pow(g, (x * c) as nat) % n);
    lemma_pow_sum(g, k, x * c, n);
    lemma_same_power(g, k + x * c, v, order, n);
    lemma_mod_bound(pow(g, v as nat), n);
}

/// An honest setup verifies: where the private setup is sound and its secret
/// exponent has an inverse modulo the order, the public setup made from it
/// with any ephemeral exponents passes verification.
pub proof fn lemma_honest_setup_verifies(setup: ZkpSetup, v: int, inv_v: int)
    requires
        setup.is_sound(),
        invertible(setup.alpha@, setup.order@),
        v >= 0,
        inv_v >= 0,
    ensures
        public_setup_check(
            setup.N_tilda@,
            setup.h1@,
            setup.h2@,
            setup_proof(setup.N_tilda@, setup.h1@, setup.h2@, setup.alpha@, setup.order@, v),
            setup_proof(setup.N_tilda@, setup.h2@, setup.h1@, inverse(setup.alpha@, setup.order@), setup.order@, inv_v),
        ) is Ok,
{
    let n = setup.N_tilda@;
    let h1 = setup.h1@;
    let h2 = setup.h2@;
    let alpha = setup.alpha@;
    let order = setup.order@;
    let inv_alpha = inverse(alpha, order);
    assert(n > 1) by (nonlinear_arith)
        requires
            n == setup.p@ * setup.q@,
            setup.p@ > 4,
            setup.q@ > 4,
    ;
    assert(is_inverse(alpha, inv_alpha, order));
    lemma_schnorr_proof_verifies(n, h1, h2, alpha, order, v);
    // h2 to the power order is one
    lemma_pow_product(h1, alpha, order, n);
    vstd::arithmetic::power::lemma_pow0(h1);
    lemma_small_mod(1, n as nat);
    lemma_period(h1, 0, alpha, order, n);
    assert(pow(h2, order as nat) % n == 1);
    // h1 is h2 to the power of the inverse
    lemma_pow_product(h1, alpha, inv_alpha, n);
    assert(alpha * inv_alpha >= 0) by (nonlinear_arith)
        requires
            alpha >= 0,
            inv_alpha >= 0,
    ;
    lemma_small_mod(1, order as nat);
    lemma_same_power(h1, alpha * inv_alpha, 1, order, n);
    lemma_pow1(h1);
    lemma_small_mod(h1 as nat, n as nat);
    assert(h1 == pow(h2, inv_alpha as nat) % n);
    lemma_schnorr_proof_verifies(n, h2, h1, inv_alpha, order, inv_v);
}

/// The bases of a sound setup can be undone modulo its modulus.
pub proof fn lemma_sound_setup_has_units(setup: ZkpSetup) -> (units: (int, int))
    requires
        setup.is_sound(),
    ensures
        setup.N_tilda@ > 1,
        (setup.h1@ * units.0) % setup.N_tilda@ == 1,
        (setup.h2@ * units.1) % setup.N_tilda@ == 1,
{
    let n = setup.N_tilda@;
    let h1 = setup.h1@;
    let order = setup.order@;
    let alpha = setup.alpha@;
    assert(n > 1) by (nonlinear_arith)
        requires
            n == setup.p@ * setup.q@,
            setup.p@ > 4,
            setup.q@ > 4,
    ;
    let u1 = pow(h1, (order - 1) as nat);
    vstd::arithmetic::power::lemma_pow_adds(h1, 1, (order - 1) as nat);
    lemma_pow1(h1);
    assert(h1 * u1 == pow(h1, order as nat));
    lemma_inverse_of_power(h1, u1, alpha as nat, n);
    let u2 = pow(u1, alpha as nat);
    vstd::arithmetic::div_mod::lemma_mod_twice(pow(h1, alpha as nat), n);
    lemma_inverse_of_congruent(pow(h1, alpha as nat), setup.h2@, u2, n);
    (u1, u2)
}

/// A ciphertext of a plaintext that is not negative is congruent to
/// `(1 + m n) r^n`, and lies in `[0, n^2)`.
pub proof fn lemma_encryption_is_product(m: int, r: int, n: int, nn: int)
    requires
        n > 1,
        nn == n * n,
        m >= 0,
    ensures
        nn > 1,
        0 <= encryption(m, r, n, nn) < nn,
        congruent(encryption(m, r, n, nn), (1 + m * n) * pow(r, n as nat), nn),
{
    crate::encryption::lemma_square_positive(n);
    assert(m * n + 1 >= 0) by (nonlinear_arith)
        requires
            m >= 0,
            n > 1,
    ;
    let g = (m * n + 1) % nn;
    let p = pow(r, n as nat) % nn;
    lemma_mod_bound(m * n + 1, nn);
    lemma_mod_bound(pow(r, n as nat), nn);
    assert(g * p >= 0) by (nonlinear_arith)
        requires
            g >= 0,
            p >= 0,
    ;
    lemma_mod_bound(g * p, nn);
    vstd::arithmetic::div_mod::lemma_mul_mod_noop_general(m * n + 1, pow(r, n as nat), nn);
    vstd::arithmetic::div_mod::lemma_mod_twice((m * n + 1) * pow(r, n as nat), nn);
}

/// A ciphertext made with randomness that can be undone modulo `n` can be
/// undone modulo `n^2`.
pub proof fn lemma_encryption_inverse(m: int, r: int, ri: int, n: int, nn: int) -> (inv: int)
    requires
        n > 1,
        nn == n * n,
        m >= 0,
        (r * ri) % n == 1,
    ensures
        (encryption(m, r, n, nn) * inv) % nn == 1,
{
    lemma_encryption_is_product(m, r, n, nn);
    let rl = lemma_lifted_inverse(r, ri, n);
    lemma_inverse_of_power(r, rl, n as nat, nn);
    assert((1 + m * n) * (1 - m * n) == 1 + (-(m * m)) * nn) by (nonlinear_arith)
        requires
            nn == n * n,
    ;
    lemma_congruent_up_to_multiple(1, -(m * m), nn);
    lemma_small_mod(1, nn as nat);
    lemma_inverse_of_product(1 + m * n, 1 - m * n, pow(r, n as nat), pow(rl, n as nat), nn);
    let inv = (1 - m * n) * pow(rl, n as nat);
    lemma_inverse_of_congruent((1 + m * n) * pow(r, n as nat), encryption(m, r, n, nn), inv, nn);
    inv
}

/// The `e`-th power of a ciphertext of `m` is congruent to
/// `(1 + e m n) r^(n e)`.
pub proof fn lemma_encryption_power(m: int, r: int, n: int, nn: int, e: int)
    requires
        n > 1,
        nn == n * n,
        m >= 0,
        e >= 0,
    ensures
        n * e >= 0,
        congruent(pow(encryption(m, r, n, nn), e as nat), (1 + e * m * n) * pow(r, (n * e) as nat), nn),
{
    lemma_encryption_is_product(m, r, n, nn);
    let c = encryption(m, r, n, nn);
    lemma_congruent_powers(c, (1 + m * n) * pow(r, n as nat), e as nat, nn);
    vstd::arithmetic::power::lemma_pow_distributes(1 + m * n, pow(r, n as nat), e as nat);
    vstd::arithmetic::power::lemma_pow_multiplies(r, n as nat, e as nat);
    lemma_power_of_one_plus_multiple(m, n, e as nat);
    let rne = pow(r, (n * e) as nat);
    vstd::arithmetic::div_mod::lemma_mod_twice(rne, nn);
    lemma_congruent_products(pow(1 + m * n, e as nat), 1 + e * m * n, rne, rne, nn);
}

/// The first equation of Alice's verifier holds of an honest proof.
proof fn lemma_alice_w_holds(i: AliceInitValues, u1: int, u2: int, a: int, e: int)
    requires
        i.n_tilda > 1,
        (i.h1 * u1) % i.n_tilda == 1,
        (i.h2 * u2) % i.n_tilda == 1,
        a >= 0,
        e >= 0,
        i.alpha >= 0,
        i.gamma >= 0,
        i.ro >= 0,
    ensures
        mod_exp(alice_z(i, a), -e, i.n_tilda) is Some,
        commitment(i.h1, e * a + i.alpha, i.h2, e * i.ro + i.gamma, i.n_tilda) is Some,
        (commitment(i.h1, e * a + i.alpha, i.h2, e * i.ro + i.gamma, i.n_tilda)->0 * mod_exp(
            alice_z(i, a),
            -e,
            i.n_tilda,
        )->0) % i.n_tilda == alice_w(i),
{
    let m = i.n_tilda;
    let z = alice_z(i, a);
    let w = alice_w(i);
    lemma_commitment_combines(i.h1, i.h2, a, i.ro, i.alpha, i.gamma, e, m);
    let c = plain_commitment(i.h1, e * a + i.alpha, i.h2, e * i.ro + i.gamma, m);
    assert(commitment(i.h1, e * a + i.alpha, i.h2, e * i.ro + i.gamma, m) == Some(c));
    let zi = lemma_commitment_inverse(i.h1, u1, a, i.h2, u2, i.ro, m);
    lemma_inverse_power_exists(z, zi, e, m);
    let inv = mod_exp(z, -e, m)->0;
    lemma_commitment_is_product(i.h1, i.alpha, i.h2, i.gamma, m);
    lemma_cancel(c, pow(z, e as nat), w, inv, m);
}

/// The second equation of Alice's verifier holds of an honest proof.
proof fn lemma_alice_u_holds(i: AliceInitValues, a: int, r: int, ri: int, e: int)
    requires
        i.n > 1,
        i.nn == i.n * i.n,
        (r * ri) % i.n == 1,
        a >= 0,
        e >= 0,
        i.alpha >= 0,
        i.beta >= 0,
    ensures
        mod_exp(encryption(a, r, i.n, i.nn), -e, i.nn) is Some,
        trunc_rem(
            trunc_rem((e * a + i.alpha) * i.n + 1, i.nn) * (pow(((pow(r, e as nat) % i.n) * i.beta) % i.n, i.n as nat)
                % i.nn) * mod_exp(encryption(a, r, i.n, i.nn), -e, i.nn)->0,
            i.nn,
        ) == alice_u(i),
{
    let n = i.n;
    let nn = i.nn;
    let cipher = encryption(a, r, n, nn);
    let s1 = e * a + i.alpha;
    let s = ((pow(r, e as nat) % n) * i.beta) % n;
    let u = alice_u(i);
    let bn = pow(i.beta, n as nat);
    lemma_encryption_is_product(a, r, n, nn);
    let ci = lemma_encryption_inverse(a, r, ri, n, nn);
    lemma_inverse_power_exists(cipher, ci, e, nn);
    let cinv = mod_exp(cipher, -e, nn)->0;
    assert(e * a >= 0) by (nonlinear_arith)
        requires
            e >= 0,
            a >= 0,
    ;
    assert(s1 * n + 1 >= 0 && i.alpha * n + 1 >= 0) by (nonlinear_arith)
        requires
            s1 >= 0,
            i.alpha >= 0,
            n > 1,
    ;
    // the right side: cipher^e u = (1 + s1 n) r^(n e) beta^n
    lemma_encryption_power(a, r, n, nn, e);
    let rne = pow(r, (n * e) as nat);
    vstd::arithmetic::div_mod::lemma_mul_mod_noop_general(i.alpha * n + 1, bn, nn);
    vstd::arithmetic::div_mod::lemma_mod_twice((i.alpha * n + 1) * bn, nn);
    assert(congruent(u, (i.alpha * n + 1) * bn, nn));
    lemma_mod_bound((i.alpha * n + 1) * (bn % nn), nn);
    lemma_congruent_products(pow(cipher, e as nat), (1 + e * a * n) * rne, u, (i.alpha * n + 1) * bn, nn);
    assert(((1 + e * a * n) * rne) * ((i.alpha * n + 1) * bn) == ((1 + e * a * n) * (i.alpha * n + 1)) * (rne * bn))
        by (nonlinear_arith);
    assert((1 + e * a * n) * (i.alpha * n + 1) == (s1 * n + 1) + (e * a * i.alpha) * nn) by (nonlinear_arith)
        requires
            s1 == e * a + i.alpha,
            nn == n * n,
    ;
    lemma_congruent_up_to_multiple(s1 * n + 1, e * a * i.alpha, nn);
    vstd::arithmetic::div_mod::lemma_mod_twice(rne * bn, nn);
    lemma_congruent_products((1 + e * a * n) * (i.alpha * n + 1), s1 * n + 1, rne * bn, rne * bn, nn);
    assert(congruent(pow(cipher, e as nat) * u, (s1 * n + 1) * (rne * bn), nn));
    // the left side: s^n = r^(e n) beta^n
    vstd::arithmetic::div_mod::lemma_mul_mod_noop_general(pow(r, e as nat), i.beta, n);
    vstd::arithmetic::div_mod::lemma_mod_twice(pow(r, e as nat) * i.beta, n);
    lemma_lifted_power(s, pow(r, e as nat) * i.beta, n);
    vstd::arithmetic::power::lemma_pow_distributes(pow(r, e as nat), i.beta, n as nat);
    vstd::arithmetic::power::lemma_pow_multiplies(r, e as nat, n as nat);
    assert(e * n == n * e) by (nonlinear_arith);
    assert(congruent(pow(s, n as nat), rne * bn, nn));
    vstd::arithmetic::div_mod::lemma_mod_twice(s1 * n + 1, nn);
    vstd::arithmetic::div_mod::lemma_mod_twice(pow(s, n as nat), nn);
    let g = (s1 * n + 1) % nn;
    let sn = pow(s, n as nat) % nn;
    lemma_congruent_products(g, s1 * n + 1, sn, rne * bn, nn);
    assert(congruent(g * sn, pow(cipher, e as nat) * u, nn));
    lemma_cancel(g * sn, pow(cipher, e as nat), u, cinv, nn);
    // every factor is a residue, so the remainders are the plain ones
    lemma_mod_bound(s1 * n + 1, nn);
    lemma_mod_bound(pow(s, n as nat), nn);
    assert(g * sn * cinv >= 0) by (nonlinear_arith)
        requires
            g >= 0,
            sn >= 0,
            cinv >= 0,
    ;
}

/// Alice's proof is complete: for a sound setup of Bob, a well-formed key
/// of Alice, a share `a` in `[0, q)`, randomness `r` that is a unit modulo
/// `N`, and ephemeral randomness from the prescribed ranges, the proof that
/// Alice makes for the encryption of `a` under `r` passes every check of
/// the verifier, whatever the nonce, provided that the response `s1` has not
/// left the range `[0, q^3]`.
pub proof fn lemma_alice_proof_verifies(
    setup: ZkpSetup,
    i: AliceInitValues,
    a: int,
    r: int,
    nonce: int,
    q: int,
)
    requires
        setup.is_sound(),
        i.n_tilda == setup.N_tilda@,
        i.h1 == setup.h1@,
        i.h2 == setup.h2@,
        i.in_range(q),
        0 <= a < q,
        invertible(r, i.n),
        alice_proof(i, a, encryption(a, r, i.n, i.nn), r, nonce).s1 <= pow(q, 3),
    ensures
        alice_check(
            alice_proof(i, a, encryption(a, r, i.n, i.nn), r, nonce),
            encryption(a, r, i.n, i.nn),
            i.n,
            i.nn,
            i.n_tilda,
            i.h1,
            i.h2,
            q,
        ) is Ok,
{
    let cipher = encryption(a, r, i.n, i.nn);
    let p = alice_proof(i, a, cipher, r, nonce);
    let e = p.e.0;
    assert(e >= 0);
    let units = lemma_sound_setup_has_units(setup);
    lemma_alice_w_holds(i, units.0, units.1, a, e);
    let ri = inverse(r, i.n);
    assert(is_inverse(r, ri, i.n));
    lemma_alice_u_holds(i, a, r, ri, e);
    assert(alice_check_u(p, cipher, i.n, i.nn) is Ok);
}

/// The `n`-th power of the response `s = r^e beta mod n` is congruent to
/// `r^(n e) beta^n` modulo `n^2`.
pub proof fn lemma_response_power(r: int, e: int, beta: int, n: int, nn: int)
    requires
        n > 1,
        nn == n * n,
        e >= 0,
    ensures
        n * e >= 0,
        congruent(
            pow(((pow(r, e as nat) % n) * beta) % n, n as nat),
            pow(r, (n * e) as nat) * pow(beta, n as nat),
            nn,
        ),
{
    let s = ((pow(r, e as nat) % n) * beta) % n;
    vstd::arithmetic::div_mod::lemma_mul_mod_noop_general(pow(r, e as nat), beta, n);
    vstd::arithmetic::div_mod::lemma_mod_twice(pow(r, e as nat) * beta, n);
    lemma_lifted_power(s, pow(r, e as nat) * beta, n);
    vstd::arithmetic::power::lemma_pow_distributes(pow(r, e as nat), beta, n as nat);
    vstd::arithmetic::power::lemma_pow_multiplies(r, e as nat, n as nat);
    assert(e * n == n * e) by (nonlinear_arith);
}

/// Bob's ciphertext is congruent to `c1^b (1 + beta' n) r^n`, and lies in
/// `[0, n^2)`.
pub proof fn lemma_mta_output_is_product(c1: int, b: int, beta_prim: int, r: int, n: int, nn: int)
    requires
        n > 1,
        nn == n * n,
        b >= 0,
        beta_prim >= 0,
    ensures
        0 <= mta_output(c1, b, beta_prim, r, n, nn) < nn,
        congruent(
            mta_output(c1, b, beta_prim, r, n, nn),
            pow(c1, b as nat) * ((1 + beta_prim * n) * pow(r, n as nat)),
            nn,
        ),
{
    lemma_encryption_is_product(beta_prim, r, n, nn);
    let enc = encryption(beta_prim, r, n, nn);
    let p = pow(c1, b as nat) % nn;
    lemma_mod_bound(pow(c1, b as nat), nn);
    assert(p * enc >= 0) by (nonlinear_arith)
        requires
            p >= 0,
            enc >= 0,
    ;
    lemma_mod_bound(p * enc, nn);
    vstd::arithmetic::div_mod::lemma_mod_twice(pow(c1, b as nat), nn);
    lemma_congruent_products(p, pow(c1, b as nat), enc, (1 + beta_prim * n) * pow(r, n as nat), nn);
    vstd::arithmetic::div_mod::lemma_mod_twice(p * enc, nn);
}

/// The second equation of Bob's verifier holds of honest responses to any
/// challenge.
proof fn lemma_bob_v_holds(i: BobInitValues, c1: int, b: int, beta_prim: int, r: int, e: (int, int))
    requires
        i.usable(),
        i.nn == i.n * i.n,
        b >= 0,
        beta_prim >= 0,
        e.0 >= 0,
    ensures
        bob_check_v(
            bob_responses(i, bob_commitments(i, b, beta_prim, c1), e, b, beta_prim, r),
            e.0,
            c1,
            mta_output(c1, b, beta_prim, r, i.n, i.nn),
            i.n,
            i.nn,
        ) is Ok,
{
    let n = i.n;
    let nn = i.nn;
    let k = bob_commitments(i, b, beta_prim, c1);
    let p = bob_responses(i, k, e, b, beta_prim, r);
    let c2 = mta_output(c1, b, beta_prim, r, n, nn);
    let x = e.0;
    assert(x * b >= 0 && x * beta_prim >= 0) by (nonlinear_arith)
        requires
            x >= 0,
            b >= 0,
            beta_prim >= 0,
    ;
    let s1 = p.s1;
    let t1 = p.t1;
    assert(t1 * n + 1 >= 0 && i.gamma * n + 1 >= 0) by (nonlinear_arith)
        requires
            t1 >= 0,
            i.gamma >= 0,
            n > 1,
    ;
    let cs = pow(c1, s1 as nat) % nn;
    let ce = pow(c2, x as nat) % nn;
    assert(mod_exp(c1, s1, nn) == Some(cs));
    assert(mod_exp(c2, x, nn) == Some(ce));
    let sn = pow(p.s, n as nat) % nn;
    let rne = pow(r, (n * x) as nat);
    let bn = pow(i.beta, n as nat);
    let ca = pow(c1, i.alpha as nat);
    let cb = pow(c1, b as nat);
    let cbe = pow(c1, (b * x) as nat);
    lemma_response_power(r, x, i.beta, n, nn);
    lemma_mta_output_is_product(c1, b, beta_prim, r, n, nn);
    // the right side: c2^e v
    lemma_congruent_powers(c2, cb * ((1 + beta_prim * n) * pow(r, n as nat)), x as nat, nn);
    vstd::arithmetic::power::lemma_pow_distributes(cb, (1 + beta_prim * n) * pow(r, n as nat), x as nat);
    vstd::arithmetic::power::lemma_pow_distributes(1 + beta_prim * n, pow(r, n as nat), x as nat);
    vstd::arithmetic::power::lemma_pow_multiplies(c1, b as nat, x as nat);
    vstd::arithmetic::power::lemma_pow_multiplies(r, n as nat, x as nat);
    lemma_power_of_one_plus_multiple(beta_prim, n, x as nat);
    let one_e = pow(1 + beta_prim * n, x as nat);
    assert(congruent(pow(c2, x as nat), cbe * (one_e * rne), nn));
    vstd::arithmetic::div_mod::lemma_mod_twice(rne, nn);
    vstd::arithmetic::div_mod::lemma_mod_twice(cbe, nn);
    lemma_congruent_products(one_e, 1 + x * beta_prim * n, rne, rne, nn);
    lemma_congruent_products(cbe, cbe, one_e * rne, (1 + x * beta_prim * n) * rne, nn);
    assert(congruent(pow(c2, x as nat), cbe * ((1 + x * beta_prim * n) * rne), nn));
    // v = c1^alpha (1 + gamma n) beta^n
    let v = k.v;
    lemma_mod_bound((ca % nn) * (i.gamma * n + 1) * (bn % nn), nn);
    vstd::arithmetic::div_mod::lemma_mod_twice(ca, nn);
    vstd::arithmetic::div_mod::lemma_mod_twice(bn, nn);
    vstd::arithmetic::div_mod::lemma_mod_twice(i.gamma * n + 1, nn);
    lemma_congruent_products(ca % nn, ca, i.gamma * n + 1, i.gamma * n + 1, nn);
    lemma_congruent_products((ca % nn) * (i.gamma * n + 1), ca * (i.gamma * n + 1), bn % nn, bn, nn);
    vstd::arithmetic::div_mod::lemma_mod_twice((ca % nn) * (i.gamma * n + 1) * (bn % nn), nn);
    assert(congruent(v, ca * (i.gamma * n + 1) * bn, nn));
    vstd::arithmetic::div_mod::lemma_mod_twice(pow(c2, x as nat), nn);
    lemma_congruent_products(ce, cbe * ((1 + x * beta_prim * n) * rne), v, ca * (i.gamma * n + 1) * bn, nn);
    vstd::arithmetic::power::lemma_pow_adds(c1, (b * x) as nat, i.alpha as nat);
    assert(b * x == x * b) by (nonlinear_arith);
    let cs1 = pow(c1, s1 as nat);
    assert(cbe * ca == cs1);
    let both = (1 + x * beta_prim * n) * (i.gamma * n + 1);
    crate::residues::lemma_regroup(cbe, 1 + x * beta_prim * n, rne, ca, i.gamma * n + 1, bn);
    assert(both == (t1 * n + 1) + (x * beta_prim * i.gamma) * nn) by (nonlinear_arith)
        requires
            both == (1 + x * beta_prim * n) * (i.gamma * n + 1),
            t1 == x * beta_prim + i.gamma,
            nn == n * n,
    ;
    lemma_congruent_up_to_multiple(t1 * n + 1, x * beta_prim * i.gamma, nn);
    vstd::arithmetic::div_mod::lemma_mod_twice(rne * bn, nn);
    vstd::arithmetic::div_mod::lemma_mod_twice(cs1, nn);
    lemma_congruent_products(both, t1 * n + 1, rne * bn, rne * bn, nn);
    lemma_congruent_products(cs1, cs1, both * (rne * bn), (t1 * n + 1) * (rne * bn), nn);
    assert(congruent(ce * v, cs1 * ((t1 * n + 1) * (rne * bn)), nn));
    // the left side: c1^s1 s^n (1 + t1 n)
    vstd::arithmetic::div_mod::lemma_mod_twice(pow(p.s, n as nat), nn);
    vstd::arithmetic::div_mod::lemma_mod_twice(t1 * n + 1, nn);
    lemma_congruent_products(cs, cs1, sn, rne * bn, nn);
    lemma_congruent_products(cs * sn, cs1 * (rne * bn), t1 * n + 1, t1 * n + 1, nn);
    assert((cs1 * (rne * bn)) * (t1 * n + 1) == cs1 * ((t1 * n + 1) * (rne * bn))) by (nonlinear_arith);
    assert(congruent(cs * sn * (t1 * n + 1), ce * v, nn));
    // every factor is a residue or positive, so the remainders are the plain ones
    lemma_mod_bound(cs1, nn);
    lemma_mod_bound(pow(c2, x as nat), nn);
    lemma_mod_bound(pow(p.s, n as nat), nn);
    assert(cs * sn * (t1 * n + 1) >= 0) by (nonlinear_arith)
        requires
            cs >= 0,
            sn >= 0,
            t1 * n + 1 >= 0,
    ;
    assert(ce * v >= 0) by (nonlinear_arith)
        requires
            ce >= 0,
            v >= 0,
    ;
}

/// The first and the third equation of Bob's verifier hold of honest
/// responses to any challenge.
proof fn lemma_bob_z_and_w_hold(i: BobInitValues, c1: int, b: int, beta_prim: int, r: int, e: (int, int))
    requires
        i.usable(),
        b >= 0,
        beta_prim >= 0,
        e.0 >= 0,
    ensures
        bob_check_z(
            bob_responses(i, bob_commitments(i, b, beta_prim, c1), e, b, beta_prim, r),
            e.0,
            i.n_tilda,
            i.h1,
            i.h2,
        ) is Ok,
        bob_check_w(
            bob_responses(i, bob_commitments(i, b, beta_prim, c1), e, b, beta_prim, r),
            e.0,
            i.n_tilda,
            i.h1,
            i.h2,
        ) is Ok,
{
    let m = i.n_tilda;
    let k = bob_commitments(i, b, beta_prim, c1);
    let p = bob_responses(i, k, e, b, beta_prim, r);
    let x = e.0;
    lemma_commitment_combines(i.h1, i.h2, b, i.ro, i.alpha, i.ro_prim, x, m);
    lemma_commitment_combines(i.h1, i.h2, beta_prim, i.sigma, i.gamma, i.tau, x, m);
    lemma_commitment_is_product(i.h1, p.s1, i.h2, p.s2, m);
    lemma_commitment_is_product(i.h1, p.t1, i.h2, p.t2, m);
    lemma_commitment_is_product(i.h1, i.alpha, i.h2, i.ro_prim, m);
    lemma_commitment_is_product(i.h1, i.gamma, i.h2, i.tau, m);
    let lz = plain_commitment(i.h1, p.s1, i.h2, p.s2, m);
    let lw = plain_commitment(i.h1, p.t1, i.h2, p.t2, m);
    assert(commitment(i.h1, p.s1, i.h2, p.s2, m) == Some(lz));
    assert(commitment(i.h1, p.t1, i.h2, p.t2, m) == Some(lw));
    let ze = pow(k.z, x as nat) % m;
    let te = pow(k.t, x as nat) % m;
    assert(mod_exp(k.z, x, m) == Some(ze));
    assert(mod_exp(k.t, x, m) == Some(te));
    lemma_mod_bound(pow(k.z, x as nat), m);
    lemma_mod_bound(pow(k.t, x as nat), m);
    vstd::arithmetic::div_mod::lemma_mul_mod_noop_general(pow(k.z, x as nat), k.z_prim, m);
    vstd::arithmetic::div_mod::lemma_mul_mod_noop_general(pow(k.t, x as nat), k.w, m);
    assert(ze * k.z_prim >= 0) by (nonlinear_arith)
        requires
            ze >= 0,
            k.z_prim >= 0,
    ;
    assert(te * k.w >= 0) by (nonlinear_arith)
        requires
            te >= 0,
            k.w >= 0,
    ;
    lemma_small_mod(lz as nat, m as nat);
    lemma_small_mod(lw as nat, m as nat);
}

/// Honest responses to any challenge that is not negative pass the checks
/// that follow the comparison of the challenge, provided that the response
/// `s1` has not left the range `[0, q^3]`.
pub proof fn lemma_bob_responses_verify(
    i: BobInitValues,
    c1: int,
    b: int,
    beta_prim: int,
    r: int,
    e: (int, int),
    q: int,
)
    requires
        i.in_range(q),
        b >= 0,
        beta_prim >= 0,
        e.0 >= 0,
        e.0 * b + i.alpha <= pow(q, 3),
    ensures
        bob_check_with_hash(
            bob_responses(i, bob_commitments(i, b, beta_prim, c1), e, b, beta_prim, r),
            e,
            c1,
            mta_output(c1, b, beta_prim, r, i.n, i.nn),
            i.n,
            i.nn,
            i.n_tilda,
            i.h1,
            i.h2,
            q,
        ) is Ok,
{
    crate::encryption::lemma_square_positive(i.n);
    lemma_bob_z_and_w_hold(i, c1, b, beta_prim, r, e);
    lemma_bob_v_holds(i, c1, b, beta_prim, r, e);
}

/// Bob's plain proof is complete: for a well-formed key and setup of Alice,
/// a share `b` and a plaintext `beta_prim` that are not negative, and
/// ephemeral randomness from the prescribed ranges, the proof that Bob makes
/// for his honestly computed ciphertext passes every check of the verifier,
/// whatever the nonce, provided that the response `s1` has not left the range
/// `[0, q^3]`.
pub proof fn lemma_bob_proof_verifies(
    i: BobInitValues,
    c1: int,
    b: int,
    beta_prim: int,
    r: int,
    nonce: int,
    q: int,
)
    requires
        i.in_range(q),
        b >= 0,
        beta_prim >= 0,
        bob_proof(i, c1, mta_output(c1, b, beta_prim, r, i.n, i.nn), b, beta_prim, r, nonce).s1 <= pow(q, 3),
    ensures
        bob_check(
            bob_proof(i, c1, mta_output(c1, b, beta_prim, r, i.n, i.nn), b, beta_prim, r, nonce),
            c1,
            mta_output(c1, b, beta_prim, r, i.n, i.nn),
            i.n,
            i.nn,
            i.n_tilda,
            i.h1,
            i.h2,
            q,
        ) is Ok,
{
    let c2 = mta_output(c1, b, beta_prim, r, i.n, i.nn);
    let k = bob_commitments(i, b, beta_prim, c1);
    let e = challenge_of(bob_transcript(i.n, c1, c2, k).push(nonce));
    let p = bob_proof(i, c1, c2, b, beta_prim, r, nonce);
    assert(carried(p) == k);
    lemma_bob_responses_verify(i, c1, b, beta_prim, r, (e, nonce), q);
}

/// Bob's extended proof is complete as far as the plain proof inside it
/// goes: under the conditions of the plain proof, the extended proof made for
/// any points `x` and `u` passes every check but the last, so that it is
/// accepted exactly if the response opens `x` with `u`.
pub proof fn lemma_bob_ext_proof_verifies_up_to_binding(
    i: BobInitValues,
    x: (int, int),
    u: (int, int),
    c1: int,
    b: int,
    beta_prim: int,
    r: int,
    nonce: int,
    q: int,
)
    requires
        i.in_range(q),
        b >= 0,
        beta_prim >= 0,
        bob_ext_proof(i, x, u, c1, mta_output(c1, b, beta_prim, r, i.n, i.nn), b, beta_prim, r, nonce).s1 <= pow(q, 3),
    ensures
        ({
            let c2 = mta_output(c1, b, beta_prim, r, i.n, i.nn);
            let p = bob_ext_proof(i, x, u, c1, c2, b, beta_prim, r, nonce);
            bob_ext_check(p, x, u, c1, c2, i.n, i.nn, i.n_tilda, i.h1, i.h2, q) == if ec_binding(x, u, p.s1, p.e.0) {
                Ok::<(), ProofVerificationError>(())
            } else {
                Err::<(), ProofVerificationError>(ProofVerificationError::EcBindingMismatch)
            }
        }),
{
    let c2 = mta_output(c1, b, beta_prim, r, i.n, i.nn);
    let k = bob_commitments(i, b, beta_prim, c1);
    let e = challenge_of(bob_ext_transcript(i.n, x, c1, c2, u, k).push(nonce));
    let p = bob_ext_proof(i, x, u, c1, c2, b, beta_prim, r, nonce);
    assert(carried(p) == k);
    lemma_bob_responses_verify(i, c1, b, beta_prim, r, (e, nonce), q);
}

/// Bézout's identity: two numbers that are not negative have a common
/// divisor that is a combination of them; it is zero only if both are.
pub proof fn lemma_bezout(a: int, b: int) -> (r: (int, int, int))
    requires
        a >= 0,
        b >= 0,
    ensures
        r.0 == a * r.1 + b * r.2,
        r.0 >= 0,
        r.0 == 0 ==> a == 0 && b == 0,
        r.0 > 0 ==> common_divisor(r.0, a, b),
    decreases b,
{
    if b == 0 {
        if a > 0 {
            vstd::arithmetic::div_mod::lemma_mod_self_0(a);
            lemma_small_mod(0, a as nat);
        }
        assert(a == a * 1 + b * 0) by (nonlinear_arith);
        (a, 1, 0)
    } else {
        lemma_mod_bound(a, b);
        lemma_fundamental_div_mod(a, b);
        let (g, x, y) = lemma_bezout(b, a % b);
        let k = a / b;
        assert(g == a * y + b * (x - k * y)) by (nonlinear_arith)
            requires
                g == b * x + (a % b) * y,
                a == b * k + a % b,
        ;
        assert(g > 0);
        // g divides b and a mod b, so it divides a
        lemma_fundamental_div_mod(b, g);
        lemma_fundamental_div_mod(a % b, g);
        let kb = b / g;
        let kr = (a % b) / g;
        assert(a == (k * kb + kr) * g) by (nonlinear_arith)
            requires
                a == b * k + a % b,
                b == g * kb,
                a % b == g * kr,
        ;
        vstd::arithmetic::div_mod::lemma_mod_multiples_basic(k * kb + kr, g);
        (g, y, x - k * y)
    }
}

/// The units modulo `m` are the residues coprime to it: a number in
/// `[0, m)` without a common divisor with `m` has an inverse.
pub proof fn lemma_coprime_has_inverse(a: int, m: int)
    requires
        m > 1,
        a >= 0,
        coprime(a, m),
    ensures
        invertible(a, m),
{
    let (g, x, y) = lemma_bezout(a, m);
    assert(g == 1);
    assert(a * x == 1 + (-y) * m) by (nonlinear_arith)
        requires
            1 == a * x + m * y,
    ;
    crate::residues::lemma_congruent_up_to_multiple(1, -y, m);
    lemma_small_mod(1, m as nat);
    crate::residues::lemma_has_inverse(a, x, m);
}

/// Alice's proof is complete for randomness as it is sampled: a unit `r`
/// found by its greatest common divisor with `N` serves as well as one given
/// by its inverse.
pub proof fn lemma_alice_proof_of_sampled_randomness_verifies(
    setup: ZkpSetup,
    i: AliceInitValues,
    a: int,
    r: int,
    nonce: int,
    q: int,
)
    requires
        setup.is_sound(),
        i.n_tilda == setup.N_tilda@,
        i.h1 == setup.h1@,
        i.h2 == setup.h2@,
        i.in_range(q),
        0 <= a < q,
        0 <= r < i.n,
        coprime(r, i.n),
        alice_proof(i, a, encryption(a, r, i.n, i.nn), r, nonce).s1 <= pow(q, 3),
    ensures
        alice_check(
            alice_proof(i, a, encryption(a, r, i.n, i.nn), r, nonce),
            encryption(a, r, i.n, i.nn),
            i.n,
            i.nn,
            i.n_tilda,
            i.h1,
            i.h2,
            q,
        ) is Ok,
{
    lemma_coprime_has_inverse(r, i.n);
    lemma_alice_proof_verifies(setup, i, a, r, nonce, q);
}

/// The verifier derives the prover's challenge: whoever hashes the same
/// integers with the transmitted nonce obtains the transmitted pair.
pub proof fn lemma_verifier_derives_the_challenge(prover: Seq<int>, verifier: Seq<int>, e: (int, int))
    requires
        prover == verifier,
        e.0 == challenge_of(prover.push(e.1)),
    ensures
        (challenge_of(verifier.push(e.1)), e.1) == e,
{
}

/// A response above the range is never accepted: whatever else Alice's
/// proof holds, with `s1` above `q^3` it is rejected, on the hash or on the
/// range.
pub proof fn lemma_alice_range_is_enforced(
    p: AliceProofValues,
    cipher: int,
    n: int,
    nn: int,
    n_tilda: int,
    h1: int,
    h2: int,
    q: int,
)
    requires
        p.s1 > pow(q, 3),
    ensures
        alice_check(p, cipher, n, nn, n_tilda, h1, h2, q) == Err::<(), ProofVerificationError>(
            ProofVerificationError::HashMismatch,
        ) || alice_check(p, cipher, n, nn, n_tilda, h1, h2, q) == Err::<(), ProofVerificationError>(
            ProofVerificationError::RangeExceeded,
        ),
{
}

/// A response above the range is never accepted: whatever else Bob's proof
/// holds, plain or extended, with `s1` above `q^3` it is rejected, on the
/// hash or on the range.
pub proof fn lemma_bob_range_is_enforced(
    p: BobProofValues,
    x: (int, int),
    u: (int, int),
    c1: int,
    c2: int,
    n: int,
    nn: int,
    n_tilda: int,
    h1: int,
    h2: int,
    q: int,
)
    requires
        p.s1 > pow(q, 3),
    ensures
        bob_check(p, c1, c2, n, nn, n_tilda, h1, h2, q) == Err::<(), ProofVerificationError>(
            ProofVerificationError::HashMismatch,
        ) || bob_check(p, c1, c2, n, nn, n_tilda, h1, h2, q) == Err::<(), ProofVerificationError>(
            ProofVerificationError::RangeExceeded,
        ),
        bob_ext_check(p, x, u, c1, c2, n, nn, n_tilda, h1, h2, q) == Err::<(), ProofVerificationError>(
            ProofVerificationError::HashMismatch,
        ) || bob_ext_check(p, x, u, c1, c2, n, nn, n_tilda, h1, h2, q) == Err::<(), ProofVerificationError>(
            ProofVerificationError::RangeExceeded,
        ),
{
}

/// The conversion is correct on ciphertexts: what Bob answers to the
/// encryption of `a` is the encryption of `a b + beta_prim`, under the
/// randomness `ra^b r`; and his additive share is the negative of
/// `beta_prim` modulo `q`.
pub proof fn lemma_conversion_encrypts_the_sum(
    a: int,
    ra: int,
    b: int,
    beta_prim: int,
    r: int,
    n: int,
    nn: int,
    q: int,
)
    requires
        n > 1,
        nn == n * n,
        q > 0,
        a >= 0,
        b >= 0,
        beta_prim >= 0,
    ensures
        a * b + beta_prim >= 0,
        mta_output(encryption(a, ra, n, nn), b, beta_prim, r, n, nn) == encryption(
            a * b + beta_prim,
            pow(ra, b as nat) * r,
            n,
            nn,
        ),
        0 <= additive_share(beta_prim, q) < q,
        (additive_share(beta_prim, q) + beta_prim) % q == 0,
{
    assert(a * b >= 0) by (nonlinear_arith)
        requires
            a >= 0,
            b >= 0,
    ;
    let c1 = encryption(a, ra, n, nn);
    let sum = a * b + beta_prim;
    let rr = pow(ra, b as nat) * r;
    lemma_mta_output_is_product(c1, b, beta_prim, r, n, nn);
    lemma_encryption_power(a, ra, n, nn, b);
    lemma_encryption_is_product(sum, rr, n, nn);
    let ranb = pow(ra, (n * b) as nat);
    let rn = pow(r, n as nat);
    let mask = (1 + beta_prim * n) * rn;
    vstd::arithmetic::div_mod::lemma_mod_twice(mask, nn);
    lemma_congruent_products(pow(c1, b as nat), (1 + b * a * n) * ranb, mask, mask, nn);
    assert(((1 + b * a * n) * ranb) * mask == ((1 + b * a * n) * (1 + beta_prim * n)) * (ranb * rn)) by (nonlinear_arith)
        requires
            mask == (1 + beta_prim * n) * rn,
    ;
    assert((1 + b * a * n) * (1 + beta_prim * n) == (1 + sum * n) + (b * a * beta_prim) * nn) by (nonlinear_arith)
        requires
            sum == a * b + beta_prim,
            nn == n * n,
    ;
    lemma_congruent_up_to_multiple(1 + sum * n, b * a * beta_prim, nn);
    vstd::arithmetic::div_mod::lemma_mod_twice(ranb * rn, nn);
    lemma_congruent_products((1 + b * a * n) * (1 + beta_prim * n), 1 + sum * n, ranb * rn, ranb * rn, nn);
    // (ra^b r)^n = ra^(n b) r^n
    vstd::arithmetic::power::lemma_pow_distributes(pow(ra, b as nat), r, n as nat);
    vstd::arithmetic::power::lemma_pow_multiplies(ra, b as nat, n as nat);
    assert(b * n == n * b) by (nonlinear_arith);
    assert(pow(rr, n as nat) == ranb * rn);
    let left = mta_output(c1, b, beta_prim, r, n, nn);
    let right = encryption(sum, rr, n, nn);
    assert(congruent(left, right, nn));
    lemma_small_mod(left as nat, nn as nat);
    lemma_small_mod(right as nat, nn as nat);
    // the additive share
    lemma_mod_bound(beta_prim, q);
    lemma_mod_bound(q - beta_prim % q, q);
    let m = beta_prim % q;
    lemma_fundamental_div_mod(beta_prim, q);
    if m == 0 {
        vstd::arithmetic::div_mod::lemma_mod_self_0(q);
        vstd::arithmetic::div_mod::lemma_mod_multiples_vanish(beta_prim / q, 0, q);
        lemma_small_mod(0, q as nat);
    } else {
        lemma_small_mod((q - m) as nat, q as nat);
        assert((q - m) + beta_prim == q * (beta_prim / q + 1) + 0) by (nonlinear_arith)
            requires
                beta_prim == q * (beta_prim / q) + m,
        ;
        vstd::arithmetic::div_mod::lemma_mod_multiples_vanish(beta_prim / q + 1, 0, q);
        lemma_small_mod(0, q as nat);
    }
}

/// What Alice's prover returns, her verifier accepts: a proof made by Alice
/// for the encryption of a share `a` in `[0, q)` under a unit `r`, against a
/// sound setup of Bob, passes every check, provided that the response `s1`
/// has not left the range `[0, q^3]`.
pub proof fn lemma_generated_alice_proof_verifies(
    setup: ZkpSetup,
    p: AliceProofValues,
    a: int,
    r: int,
    n: int,
    nn: int,
    q: int,
)
    requires
        setup.is_sound(),
        0 <= a < q,
        0 <= r < n,
        coprime(r, n),
        made_by_alice(p, a, encryption(a, r, n, nn), r, n, nn, setup.N_tilda@, setup.h1@, setup.h2@, q),
        p.s1 <= pow(q, 3),
    ensures
        alice_check(p, encryption(a, r, n, nn), n, nn, setup.N_tilda@, setup.h1@, setup.h2@, q) is Ok,
{
    let cipher = encryption(a, r, n, nn);
    let i = choose|i: AliceInitValues|
        {
            &&& i.in_range(q)
            &&& i.n == n
            &&& i.nn == nn
            &&& i.n_tilda == setup.N_tilda@
            &&& i.h1 == setup.h1@
            &&& i.h2 == setup.h2@
            &&& p == #[trigger] alice_proof(i, a, cipher, r, p.e.1)
        };
    lemma_alice_proof_of_sampled_randomness_verifies(setup, i, a, r, p.e.1, q);
}

/// What Bob's prover returns, his verifier accepts: a plain proof made by
/// Bob for his honestly computed ciphertext passes every check, provided
/// that the response `s1` has not left the range `[0, q^3]`.
pub proof fn lemma_generated_bob_proof_verifies(
    p: BobProofValues,
    c1: int,
    b: int,
    beta_prim: int,
    r: int,
    n: int,
    nn: int,
    n_tilda: int,
    h1: int,
    h2: int,
    q: int,
)
    requires
        b >= 0,
        beta_prim >= 0,
        made_by_bob(p, c1, mta_output(c1, b, beta_prim, r, n, nn), b, beta_prim, r, n, nn, n_tilda, h1, h2, q),
        p.s1 <= pow(q, 3),
    ensures
        bob_check(p, c1, mta_output(c1, b, beta_prim, r, n, nn), n, nn, n_tilda, h1, h2, q) is Ok,
{
    let c2 = mta_output(c1, b, beta_prim, r, n, nn);
    let i = choose|i: BobInitValues|
        {
            &&& i.in_range(q)
            &&& i.n == n
            &&& i.nn == nn
            &&& i.n_tilda == n_tilda
            &&& i.h1 == h1
            &&& i.h2 == h2
            &&& p == #[trigger] bob_proof(i, c1, c2, b, beta_prim, r, p.e.1)
        };
    lemma_bob_proof_verifies(i, c1, b, beta_prim, r, p.e.1, q);
}

/// What Bob's prover returns for the extended proof, his verifier accepts
/// exactly if the response opens the public point: under the conditions of
/// the plain proof, every check but the last is passed.
pub proof fn lemma_generated_bob_ext_proof_verifies_up_to_binding(
    p: BobProofValues,
    x: (int, int),
    u: (int, int),
    c1: int,
    b: int,
    beta_prim: int,
    r: int,
    n: int,
    nn: int,
    n_tilda: int,
    h1: int,
    h2: int,
    q: int,
)
    requires
        b >= 0,
        beta_prim >= 0,
        made_by_bob_ext(
            p,
            x,
            u,
            c1,
            mta_output(c1, b, beta_prim, r, n, nn),
            b,
            beta_prim,
            r,
            n,
            nn,
            n_tilda,
            h1,
            h2,
            q,
        ),
        p.s1 <= pow(q, 3),
    ensures
        bob_ext_check(p, x, u, c1, mta_output(c1, b, beta_prim, r, n, nn), n, nn, n_tilda, h1, h2, q) == if ec_binding(
            x,
            u,
            p.s1,
            p.e.0,
        ) {
            Ok::<(), ProofVerificationError>(())
        } else {
            Err::<(), ProofVerificationError>(ProofVerificationError::EcBindingMismatch)
        },
{
    let c2 = mta_output(c1, b, beta_prim, r, n, nn);
    let i = choose|i: BobInitValues|
        {
            &&& i.in_range(q)
            &&& i.n == n
            &&& i.nn == nn
            &&& i.n_tilda == n_tilda
            &&& i.h1 == h1
            &&& i.h2 == h2
            &&& Some(x) == crate::curve::generator_multiple(b)
            &&& Some(u) == crate::curve::generator_multiple(i.alpha)
            &&& p == #[trigger] bob_ext_proof(i, x, u, c1, c2, b, beta_prim, r, p.e.1)
        };
    lemma_bob_ext_proof_verifies_up_to_binding(i, x, u, c1, b, beta_prim, r, p.e.1, q);
}

/// What is published from an honest setup verifies: the public setup that
/// carries the bases of a sound private setup and the two proofs made for
/// its secret exponent and the inverse of it passes verification.
pub proof fn lemma_published_setup_verifies(setup: ZkpSetup, published: ZkpPublicSetup)
    requires
        setup.is_sound(),
        invertible(setup.alpha@, setup.order@),
        published.N_tilda@ == setup.N_tilda@,
        published.h1@ == setup.h1@,
        published.h2@ == setup.h2@,
        exists|v: int|
            1 <= v < setup.N_tilda@ - 1 && published.dlog_proof@ == #[trigger] setup_proof(
                setup.N_tilda@,
                setup.h1@,
                setup.h2@,
                setup.alpha@,
                setup.order@,
                v,
            ),
        exists|v: int|
            1 <= v < setup.N_tilda@ - 1 && published.inv_dlog_proof@ == #[trigger] setup_proof(
                setup.N_tilda@,
                setup.h2@,
                setup.h1@,
                inverse(setup.alpha@, setup.order@),
                setup.order@,
                v,
            ),
    ensures
        public_setup_check(
            published.N_tilda@,
            published.h1@,
            published.h2@,
            published.dlog_proof@,
            published.inv_dlog_proof@,
        ) is Ok,
{
    let v = choose|v: int|
        1 <= v < setup.N_tilda@ - 1 && published.dlog_proof@ == #[trigger] setup_proof(
            setup.N_tilda@,
            setup.h1@,
            setup.h2@,
            setup.alpha@,
            setup.order@,
            v,
        );
    let inv_v = choose|v: int|
        1 <= v < setup.N_tilda@ - 1 && published.inv_dlog_proof@ == #[trigger] setup_proof(
            setup.N_tilda@,
            setup.h2@,
            setup.h1@,
            inverse(setup.alpha@, setup.order@),
            setup.order@,
            v,
        );
    lemma_honest_setup_verifies(setup, v, inv_v);
}

/// The power to an exponent raised by one is the power times the base: where
/// both powers exist, for an exponent of either sign.
pub proof fn lemma_power_of_next_exponent(base: int, e: int, n: int)
    requires
        n > 1,
        mod_exp(base, e, n) is Some,
        mod_exp(base, e + 1, n) is Some,
    ensures
        congruent(mod_exp(base, e + 1, n)->0, mod_exp(base, e, n)->0 * base, n),
{
    let a = mod_exp(base, e, n)->0;
    let next = mod_exp(base, e + 1, n)->0;
    if e >= 0 {
        let p = pow(base, e as nat);
        vstd::arithmetic::power::lemma_pow_adds(base, e as nat, 1);
        lemma_pow1(base);
        vstd::arithmetic::div_mod::lemma_mod_twice(p, n);
        vstd::arithmetic::div_mod::lemma_mod_twice(p * base, n);
        lemma_congruent_products(a, p, base, base, n);
    } else if e == -1 {
        lemma_pow1(base);
        vstd::arithmetic::power::lemma_pow0(base);
        lemma_small_mod(1, n as nat);
        let p = pow(base, 1) % n;
        assert(is_inverse(p, a, n));
        vstd::arithmetic::div_mod::lemma_mul_mod_noop_general(base, a, n);
        assert(a * base == base * a) by (nonlinear_arith);
    } else {
        let m = -e;
        let whole = pow(base, m as nat);
        let rest = pow(base, (m - 1) as nat);
        let p = whole % n;
        let q = rest % n;
        assert(is_inverse(p, a, n));
        assert(is_inverse(q, next, n));
        vstd::arithmetic::power::lemma_pow_adds(base, 1, (m - 1) as nat);
        lemma_pow1(base);
        assert(whole == base * rest);
        // rest times (base a) is one, so base a is the inverse of rest
        vstd::arithmetic::div_mod::lemma_mul_mod_noop_general(whole, a, n);
        assert(whole * a == rest * (a * base)) by (nonlinear_arith)
            requires
                whole == base * rest,
        ;
        vstd::arithmetic::div_mod::lemma_mul_mod_noop_general(rest, a * base, n);
        let candidate = (a * base) % n;
        lemma_mod_bound(a * base, n);
        assert(is_inverse(q, candidate, n));
        crate::integer::lemma_inverse_unique(q, next, candidate, n);
        vstd::arithmetic::div_mod::lemma_mod_twice(a * base, n);
    }
}

/// The power of a unit is a unit, for an exponent of either sign.
pub proof fn lemma_power_of_unit_has_inverse(base: int, u: int, e: int, n: int) -> (inv: int)
    requires
        n > 1,
        (base * u) % n == 1,
        mod_exp(base, e, n) is Some,
    ensures
        (mod_exp(base, e, n)->0 * inv) % n == 1,
{
    let a = mod_exp(base, e, n)->0;
    if e >= 0 {
        lemma_inverse_of_power(base, u, e as nat, n);
        vstd::arithmetic::div_mod::lemma_mod_twice(pow(base, e as nat), n);
        lemma_inverse_of_congruent(pow(base, e as nat), a, pow(u, e as nat), n);
        pow(u, e as nat)
    } else {
        let p = pow(base, (-e) as nat) % n;
        assert(is_inverse(p, a, n));
        assert(a * p == p * a) by (nonlinear_arith);
        p
    }
}

/// A tampered response is found out: where a Schnorr proof for bases that
/// are units verifies and the base is not one, the proof with its response
/// raised by one is rejected, on the commitment.
pub proof fn lemma_raised_response_is_rejected(n: int, h1: int, h2: int, p: SetupProofValues)
    requires
        setup_proof_check(n, h1, h2, p) is Ok,
        invertible(h1, n),
        invertible(h2, n),
        h1 % n != 1,
    ensures
        setup_proof_check(
            n,
            h1,
            h2,
            SetupProofValues { commitment: p.commitment, challenge: p.challenge, response: p.response + 1 },
        ) == Err::<(), SetupFailure>(SetupFailure::ProofMismatch),
{
    let r = p.response;
    let c = p.challenge;
    let v = p.commitment;
    let u1 = inverse(h1, n);
    let u2 = inverse(h2, n);
    assert(is_inverse(h1, u1, n));
    assert(is_inverse(h2, u2, n));
    assert(c >= 0);
    let a = mod_exp(h1, r, n)->0;
    let b = pow(h2, c as nat) % n;
    assert((a * b) % n == v);
    if mod_exp(h1, r + 1, n) is Some {
        let next = mod_exp(h1, r + 1, n)->0;
        if (next * b) % n == v {
            // the commitment is a unit
            let ai = lemma_power_of_unit_has_inverse(h1, u1, r, n);
            lemma_inverse_of_power(h2, u2, c as nat, n);
            vstd::arithmetic::div_mod::lemma_mod_twice(pow(h2, c as nat), n);
            lemma_inverse_of_congruent(pow(h2, c as nat), b, pow(u2, c as nat), n);
            let bi = pow(u2, c as nat);
            lemma_inverse_of_product(a, ai, b, bi, n);
            let vi = ai * bi;
            vstd::arithmetic::div_mod::lemma_mod_twice(a * b, n);
            lemma_inverse_of_congruent(a * b, v, vi, n);
            // the new commitment is the old one times the base
            lemma_power_of_next_exponent(h1, r, n);
            vstd::arithmetic::div_mod::lemma_mod_twice(b, n);
            lemma_congruent_products(next, a * h1, b, b, n);
            assert((a * h1) * b == (a * b) * h1) by (nonlinear_arith);
            vstd::arithmetic::div_mod::lemma_mul_mod_noop_general(a * b, h1, n);
            assert(congruent(v * h1, v, n));
            // so the base is one
            lemma_congruent_products(v * h1, v, vi, vi, n);
            assert((v * h1) * vi == h1 * (v * vi)) by (nonlinear_arith);
            vstd::arithmetic::div_mod::lemma_mul_mod_noop_general(h1, v * vi, n);
            assert(h1 * 1 == h1);
            assert(false);
        }
    }
}

/// A tampered response is found out, for bases given by their greatest
/// common divisor with the modulus: the same for bases that are not
/// negative and coprime to it.
pub proof fn lemma_raised_response_of_coprime_bases_is_rejected(n: int, h1: int, h2: int, p: SetupProofValues)
    requires
        setup_proof_check(n, h1, h2, p) is Ok,
        h1 >= 0,
        h2 >= 0,
        coprime(h1, n),
        coprime(h2, n),
        h1 % n != 1,
    ensures
        setup_proof_check(
            n,
            h1,
            h2,
            SetupProofValues { commitment: p.commitment, challenge: p.challenge, response: p.response + 1 },
        ) == Err::<(), SetupFailure>(SetupFailure::ProofMismatch),
{
    lemma_coprime_has_inverse(h1, n);
    lemma_coprime_has_inverse(h2, n);
    lemma_raised_response_is_rejected(n, h1, h2, p);
}

} // verus!
