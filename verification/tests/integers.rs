use zk_range_proofs::integer::Integer;
use zk_range_proofs::modular::{commit, power_mod};
use zk_range_proofs::primes::{are_coprime, generator_from_unit, with_companion};
use zk_range_proofs::sampling::{unit_or_none, SampleFromMultiplicativeGroup};

fn num(n: u64) -> Integer {
    Integer::from_bytes(false, n.to_be_bytes().to_vec())
}

fn neg(n: u64) -> Integer {
    Integer::from_bytes(true, n.to_be_bytes().to_vec())
}

#[test]
fn sum_of_small_integers() {
    let a = Integer::from_u8(200);
    let b = Integer::from_u8(100);
    let c = a.add(&b);
    assert!(c.equals(&Integer::from_bytes(false, vec![1, 44])));
}

#[test]
fn sum_difference_and_product_with_signs() {
    assert!(num(7).add(&neg(10)).equals(&neg(3)));
    assert!(num(7).sub(&num(10)).equals(&neg(3)));
    assert!(neg(7).sub(&neg(10)).equals(&num(3)));
    assert!(neg(7).mul(&num(6)).equals(&neg(42)));
    assert!(neg(7).mul(&neg(6)).equals(&num(42)));
    assert!(num(0xffff_ffff_ffff_ffff).add(&num(1)).equals(&Integer::from_bytes(
        false,
        vec![1, 0, 0, 0, 0, 0, 0, 0, 0]
    )));
}

#[test]
fn leading_zeros_and_negative_zero_do_not_change_the_value() {
    let a = Integer::from_bytes(false, vec![0, 0, 5]);
    assert!(a.equals(&Integer::from_u8(5)));
    let z = Integer::from_bytes(true, vec![0, 0]);
    assert!(z.equals(&Integer::zero()));
    assert!(!z.is_negative());
}

#[test]
fn negation_and_zero() {
    assert!(num(5).negated().equals(&neg(5)));
    assert!(neg(5).negated().equals(&num(5)));
    assert!(num(0).negated().equals(&num(0)));
    assert!(num(0).is_zero() && neg(0).is_zero());
    assert!(Integer::from_bytes(false, vec![]).is_zero());
    assert!(!neg(1).is_zero());
}

#[test]
fn residue_of_either_sign() {
    assert!(num(17).modulo(&num(5)).equals(&num(2)));
    assert!(neg(17).modulo(&num(5)).equals(&num(3)));
    assert!(neg(15).modulo(&num(5)).equals(&num(0)));
    assert!(neg(0).modulo(&num(5)).equals(&num(0)));
}

#[test]
fn order_of_integers() {
    assert!(num(0).le(&neg(0)));
    assert!(!num(1).le(&neg(0)));
    assert!(!num(0).le(&neg(1)));
    assert!(neg(3).lt(&num(2)));
    assert!(neg(3).le(&neg(3)));
    assert!(!num(3).lt(&num(3)));
    assert!(num(3).le(&num(4)));
    assert!(!num(5).le(&num(4)));
    assert!(neg(1).is_negative());
    assert!(!num(0).is_negative());
}

#[test]
fn remainder_keeps_the_sign_of_the_dividend() {
    let a = Integer::from_bytes(true, vec![7]);
    let m = Integer::from_u8(5);
    let r = a.rem(&m).unwrap();
    assert!(r.equals(&Integer::from_bytes(true, vec![2])));
    assert!(num(7).rem(&neg(5)).unwrap().equals(&num(2)));
    assert!(num(7).rem(&num(5)).unwrap().equals(&num(2)));
    assert!(a.rem(&Integer::zero()).is_none());
    assert!(num(17).reduce(&num(5)).equals(&num(2)));
    assert!(neg(17).truncated_rem(&num(5)).equals(&neg(2)));
    assert!(neg(17).truncated_rem(&neg(5)).equals(&neg(2)));
    assert!(num(17).truncated_rem(&neg(5)).equals(&num(2)));
    assert!(neg(15).truncated_rem(&num(5)).equals(&num(0)));
}

#[test]
fn floor_division() {
    assert!(num(17).div_floor(&num(5)).unwrap().equals(&num(3)));
    assert!(num(0).div_floor(&num(5)).unwrap().equals(&num(0)));
    assert!(neg(17).div_floor(&num(5)).is_none());
    assert!(num(17).div_floor(&num(0)).is_none());
    assert!(num(17).div_floor(&neg(5)).is_none());
}

#[test]
fn small_powers() {
    assert!(num(3).pow(4).equals(&num(81)));
    assert!(neg(2).pow(3).equals(&neg(8)));
    assert!(neg(2).pow(4).equals(&num(16)));
    assert!(neg(0).pow(3).equals(&num(0)));
    assert!(num(0).pow(0).equals(&num(1)));
}

#[test]
fn modular_power_and_inverse() {
    assert!(Integer::mod_pow(&num(4), &num(13), &num(497)).equals(&num(445)));
    assert!(Integer::mod_pow(&neg(2), &num(3), &num(5)).equals(&num(2)));
    assert!(num(3).mod_inv(&num(11)).unwrap().equals(&num(4)));
    assert!(num(6).mod_inv(&num(9)).is_none());
    assert!(neg(3).mod_inv(&num(11)).unwrap().equals(&num(7)));
    assert!(Integer::mod_pow(&neg(2), &num(2), &num(5)).equals(&num(4)));
    assert!(Integer::mod_pow(&num(7), &num(0), &num(5)).equals(&num(1)));
    assert!(num(14).mod_inv(&num(11)).unwrap().equals(&num(4)));
}

#[test]
fn power_with_negative_exponent_is_the_inverse_of_the_power() {
    // 3^2 = 9 and 9 * 5 = 45 = 1 mod 11
    assert!(power_mod(&num(3), &neg(2), &num(11)).unwrap().equals(&num(5)));
    assert!(power_mod(&num(3), &num(2), &num(11)).unwrap().equals(&num(9)));
    assert!(power_mod(&num(3), &num(0), &num(11)).unwrap().equals(&num(1)));
    assert!(power_mod(&num(6), &neg(1), &num(9)).is_none());
}

#[test]
fn commitment_of_small_values() {
    // 4^3 * 1024^30 mod 1081
    assert!(commit(&num(4), &num(3), &num(1024), &num(30), &num(1081)).unwrap().equals(&num(880)));
    assert!(commit(&num(3), &neg(1), &num(6), &num(1), &num(9)).is_none());
}

#[test]
fn greatest_common_divisor() {
    assert!(num(12).gcd(&num(18)).equals(&num(6)));
    assert!(neg(12).gcd(&num(18)).equals(&num(6)));
    assert!(num(0).gcd(&num(0)).equals(&num(0)));
    assert!(num(0).gcd(&num(7)).equals(&num(7)));
    assert!(are_coprime(&num(35), &num(12)));
    assert!(!are_coprime(&num(35), &num(14)));
    assert!(!are_coprime(&num(0), &num(0)));
}

#[test]
fn samples_lie_in_their_range() {
    for _ in 0..50 {
        let r = Integer::sample_below(&num(10));
        assert!(!r.is_negative() && r.lt(&num(10)));
        let s = Integer::sample_range(&neg(3), &num(2));
        assert!(neg(3).le(&s) && s.lt(&num(2)));
    }
    assert!(Integer::sample_below(&num(1)).equals(&num(0)));
}

#[test]
fn units_are_sampled_from_the_multiplicative_group() {
    for _ in 0..20 {
        let r = Integer::from_modulo(&num(30)).unwrap();
        assert!(are_coprime(&r, &num(30)));
        assert!(r.lt(&num(30)) && !r.is_negative());
    }
    // 1 is the only modulus whose single residue, zero, counts as coprime to it
    assert!(Integer::from_modulo(&num(1)).unwrap().equals(&num(0)));
    assert!(unit_or_none(num(7), &num(30)).unwrap().equals(&num(7)));
    assert!(unit_or_none(num(6), &num(30)).is_none());
}

#[test]
fn zeroize_leaves_zero_and_no_bytes() {
    let mut a = neg(123456789);
    a.zeroize();
    assert!(a.equals(&num(0)));
    assert!(a.magnitude.is_empty());
    assert!(!a.negative);
}

#[test]
fn encoding_is_the_shortest_magnitude() {
    assert_eq!(Integer::from_bytes(false, vec![0, 0, 1, 2]).encode(), vec![1, 2]);
    assert_eq!(Integer::from_bytes(true, vec![0, 9]).encode(), vec![9]);
    assert_eq!(Integer::zero().encode(), vec![0]);
    assert_eq!(Integer::from_bytes(false, vec![0, 0]).encode(), vec![0]);
    assert_eq!(num(300).encode(), vec![1, 44]);
}

#[test]
fn clone_keeps_sign_and_bytes() {
    let a = Integer::from_bytes(true, vec![0, 3, 4]);
    let b = a.clone();
    assert_eq!(b.negative, true);
    assert_eq!(b.magnitude, vec![0, 3, 4]);
}

#[test]
fn companion_of_an_odd_number() {
    let (p, half) = with_companion(num(23)).unwrap();
    assert!(p.equals(&num(23)) && half.equals(&num(11)));
    assert!(with_companion(num(24)).is_none());
    assert!(with_companion(num(3)).is_none());
    assert!(with_companion(neg(23)).is_none());
    assert!(with_companion(num(5)).unwrap().1.equals(&num(2)));
}

#[test]
fn square_of_a_unit_as_generator() {
    // 2^2 = 4 and gcd(3, 1081) = 1
    assert!(generator_from_unit(&num(2), &num(1081)).unwrap().equals(&num(4)));
    // 1^2 = 1 and gcd(0, 1081) = 1081
    assert!(generator_from_unit(&num(1), &num(1081)).is_none());
    // 24^2 = 576 = 1 mod 23, so 575 shares the factor 23 with 1081
    assert!(generator_from_unit(&num(24), &num(1081)).is_none());
}
