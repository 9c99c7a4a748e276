use zk_range_proofs::curve::{curve_order, same_element, DLogProof, Point};
use zk_range_proofs::encryption::EncryptionKey;
use zk_range_proofs::integer::Integer;

fn num(n: u64) -> Integer {
    Integer::from_bytes(false, n.to_be_bytes().to_vec())
}

fn hex(s: &str) -> Integer {
    let digits: Vec<u8> = s.bytes().map(|c| (c as char).to_digit(16).unwrap() as u8).collect();
    let mut bytes = Vec::new();
    let mut i = digits.len() % 2;
    if i == 1 {
        bytes.push(digits[0]);
    }
    while i < digits.len() {
        bytes.push(digits[i] * 16 + digits[i + 1]);
        i += 2;
    }
    Integer::from_bytes(false, bytes)
}

fn generator() -> Point {
    Point {
        x: hex("79be667ef9dcbbac55a06295ce870b07029bfcdb2dce28d959f2815b16f81798"),
        y: hex("483ada7726a3c4655da4fbfc0e1108a8fd17b448a68554199c47d08ffb10d4b8"),
    }
}

fn twice_the_generator() -> Point {
    Point {
        x: hex("c6047f9441ed7d6d3045406e95c07cd85c778e4b8cef3ca7abac09b95c709ee5"),
        y: hex("1ae168fea63dc339a3c58419466ceaeef7f632653266d0e1236431a950cfe52a"),
    }
}

#[test]
fn order_of_the_group() {
    assert!(curve_order().equals(&hex("fffffffffffffffffffffffffffffffebaaedce6af48a03bbfd25e8cd0364141")));
}

#[test]
fn multiples_of_the_generator() {
    assert!(Point::generator_times(&num(1)).unwrap().equals(&generator()));
    assert!(Point::generator_times(&num(2)).unwrap().equals(&twice_the_generator()));
    assert!(Point::generator_times(&num(0)).is_none());
    assert!(Point::generator_times(&curve_order()).is_none());
    assert!(Point::generator_times(&curve_order().add(&num(2))).unwrap().equals(&twice_the_generator()));
    let minus_one = Point::generator_times(&Integer::from_bytes(true, vec![1])).unwrap();
    assert!(minus_one.x.equals(&generator().x));
    assert!(!minus_one.y.equals(&generator().y));
}

#[test]
fn multiples_and_sums_of_points() {
    let g = generator();
    assert!(g.times(&num(2)).unwrap().equals(&twice_the_generator()));
    assert!(g.plus(&g).unwrap().equals(&twice_the_generator()));
    assert!(g.times(&num(0)).is_none());
    let three = g.plus(&twice_the_generator()).unwrap();
    assert!(three.equals(&Point::generator_times(&num(3)).unwrap()));
    let minus_one = Point::generator_times(&Integer::from_bytes(true, vec![1])).unwrap();
    assert!(g.plus(&minus_one).is_none());
}

#[test]
fn points_on_and_off_the_curve() {
    assert!(generator().is_valid());
    assert!(twice_the_generator().is_valid());
    assert!(!Point { x: num(1), y: num(1) }.is_valid());
    assert!(!Point { x: generator().x, y: generator().y.add(&num(1)) }.is_valid());
    assert!(!Point { x: Integer::from_bytes(true, vec![1]), y: num(1) }.is_valid());
    assert!(!Point { x: num(2).pow(256), y: num(1) }.is_valid());
    assert!(!Point { x: num(1), y: num(2).pow(300) }.is_valid());
}

#[test]
fn equality_of_group_elements() {
    let g = Some(generator());
    let h = Some(twice_the_generator());
    assert!(same_element(&g, &Some(generator())));
    assert!(!same_element(&g, &h));
    assert!(!same_element(&g, &None));
    assert!(!same_element(&None, &h));
    assert!(same_element(&None, &None));
    assert!(generator().clone().equals(&generator()));
}

#[test]
fn discrete_logarithm_proof_carries_the_public_point() {
    let proof = DLogProof::prove(&num(2)).unwrap();
    assert!(proof.pk.equals(&twice_the_generator()));
    assert!(proof.pk.is_valid());
    assert!(proof.pk_t_rand_commitment.is_valid());
    assert!(!proof.challenge_response.is_negative());
    assert!(proof.challenge_response.lt(&curve_order()));
    let copy = proof.clone();
    assert!(copy.pk.equals(&proof.pk));
    assert!(copy.challenge_response.equals(&proof.challenge_response));
    assert!(DLogProof::prove(&num(0)).is_none());
}

#[test]
fn encryption_key_from_its_modulus() {
    let key = EncryptionKey::new(num(77)).unwrap();
    assert!(key.n.equals(&num(77)) && key.nn.equals(&num(5929)));
    assert!(key.is_valid());
    assert!(key.clone().is_valid());
    assert!(EncryptionKey::new(num(1)).is_none());
    assert!(EncryptionKey::new(num(0)).is_none());
    assert!(EncryptionKey::new(Integer::from_bytes(true, vec![77])).is_none());
    assert!(!EncryptionKey { n: num(77), nn: num(5930) }.is_valid());
    assert!(!EncryptionKey { n: num(1), nn: num(1) }.is_valid());
}

#[test]
fn encryption_of_small_values() {
    let key = EncryptionKey::new(num(77)).unwrap();
    // (1 + 3 * 77) * 5^77 mod 77^2
    assert!(key.encrypt(&num(3), &num(5)).equals(&num(2390)));
    // with the randomness 1 the ciphertext is 1 + m n
    assert!(key.encrypt(&num(3), &num(1)).equals(&num(232)));
    assert!(key.encrypt(&num(0), &num(1)).equals(&num(1)));
}

#[test]
fn homomorphic_operations_on_small_ciphertexts() {
    let key = EncryptionKey::new(num(77)).unwrap();
    // 232^2 mod 5929 and 232 * 155 mod 5929
    assert!(key.scale(&num(232), &num(2)).equals(&num(463)));
    assert!(key.scale(&num(232), &num(0)).equals(&num(1)));
    assert!(key.combine(&num(232), &num(155)).equals(&num(386)));
    for _ in 0..20 {
        let r = key.sample_randomness();
        assert!(!r.is_negative() && r.lt(&num(77)));
    }
}
