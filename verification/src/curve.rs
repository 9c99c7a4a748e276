//! The elliptic curve secp256k1, as far as the range proofs need it: points
//! by their affine coordinates, and the group operations done by `curv`.
use vstd::prelude::*;
use vstd::arithmetic::power::pow;
use curv::BigInt;
use curv::arithmetic::traits::Converter;
use curv::elliptic::curves::{Scalar, Secp256k1};
use curv::cryptographic_primitives::proofs::sigma_dlog;
use sha2::Sha256;
use crate::integer::{be_value, Integer};

verus! {

/// The prime of the field over which the curve is defined.
pub open spec fn field_prime() -> int {
    0xFFFFFFFFFFFFFFFFFFFFFFFFFFFFFFFFFFFFFFFFFFFFFFFFFFFFFFFEFFFFFC2Fint
}

/// The order `q` of the curve's group.
pub open spec fn group_order() -> int {
    0xFFFFFFFFFFFFFFFFFFFFFFFFFFFFFFFEBAAEDCE6AF48A03BBFD25E8CD0364141int
}

/// `(x, y)` are the coordinates of a point of the curve `y^2 = x^3 + 7`.
pub open spec fn on_curve(x: int, y: int) -> bool {
    &&& 0 <= x < field_prime()
    &&& 0 <= y < field_prime()
    &&& (y * y) % field_prime() == (x * x * x + 7) % field_prime()
}

/// The generator times the natural number `k`; `None` is the neutral
/// element.
pub uninterp spec fn base_multiple(k: int) -> Option<(int, int)>;

/// The point `p` times the natural number `k`; `None` is the neutral
/// element.
pub uninterp spec fn multiple(p: (int, int), k: int) -> Option<(int, int)>;

/// The generator times the integer `k`, which counts modulo the order of the
/// group.
pub open spec fn generator_multiple(k: int) -> Option<(int, int)> {
    base_multiple(k % group_order())
}

/// The point `p` times the integer `k`, which counts modulo the order of the
/// group.
pub open spec fn point_multiple(p: (int, int), k: int) -> Option<(int, int)> {
    multiple(p, k % group_order())
}

/// The sum of two points; `None` is the neutral element.
pub uninterp spec fn point_sum(p: (int, int), q: (int, int)) -> Option<(int, int)>;

/// The sum of a group element and a point, where the neutral element adds
/// nothing.
pub open spec fn element_plus(p: Option<(int, int)>, q: (int, int)) -> Option<(int, int)> {
    match p {
        None => Some(q),
        Some(p) => point_sum(p, q),
    }
}

/// A point of the curve other than the neutral element, by its affine
/// coordinates.
#[derive(Debug)]
pub struct Point {
    pub x: Integer,
    pub y: Integer,
}

impl View for Point {
    type V = (int, int);

    open spec fn view(&self) -> (int, int) {
        (self.x@, self.y@)
    }
}

impl Clone for Point {
    fn clone(&self) -> (r: Self)
        ensures
            r@ == self@,
    {
        Point { x: self.x.clone(), y: self.y.clone() }
    }
}

/// The coordinates of a group element.
pub open spec fn element_view(p: Option<Point>) -> Option<(int, int)> {
    match p {
        None => None,
        Some(p) => Some(p@),
    }
}

/// The coordinates that big-endian bytes denote.
pub open spec fn bytes_view(p: Option<(Vec<u8>, Vec<u8>)>) -> Option<(int, int)> {
    match p {
        None => None,
        Some((x, y)) => Some((be_value(x@) as int, be_value(y@) as int)),
    }
}

/// `2^256` written out.
pub proof fn lemma_two_to_256()
    ensures
        pow(2, 256) == 0x10000000000000000000000000000000000000000000000000000000000000000int,
{
    vstd::arithmetic::power::lemma_pow_multiplies(2, 64, 4);
    vstd::arithmetic::power2::lemma2_to64();
    vstd::arithmetic::power2::lemma_pow2(64);
    let x = pow(2, 64);
    assert(x == 0x10000000000000000int);
    reveal_with_fuel(pow, 5);
    assert(pow(x, 4) == x * (x * (x * (x * 1))));
    assert(x * (x * (x * (x * 1)))
        == 0x10000000000000000000000000000000000000000000000000000000000000000int)
        by (nonlinear_arith)
        requires
            x == 0x10000000000000000int,
    ;
}

impl Point {
    /// Whether the coordinates are those of a point of the curve.
    pub fn is_valid(&self) -> (r: bool)
        ensures
            r == on_curve(self.x@, self.y@),
    {
        let two = Integer::from_u8(2);
        let bound = two.pow(256);
        proof {
            lemma_two_to_256();
        }
        if self.x.is_negative() || self.y.is_negative() || bound.le(&self.x) || bound.le(&self.y) {
            false
        } else {
            coordinates_on_curve(self)
        }
    }

    /// Whether the two are the same point.
    pub fn equals(&self, other: &Point) -> (r: bool)
        ensures
            r == (self@ == other@),
    {
        self.x.equals(&other.x) && self.y.equals(&other.y)
    }

    /// The generator times `k`; `None` is the neutral element.
    pub fn generator_times(k: &Integer) -> (r: Option<Point>)
        ensures
            element_view(r) == generator_multiple(k@),
            r matches Some(p) ==> on_curve(p.x@, p.y@),
    {
        let reduced = k.modulo(&curve_order());
        Point::from_coordinates(curve_base_mul(&reduced))
    }

    /// This point times `k`; `None` is the neutral element.
    pub fn times(&self, k: &Integer) -> (r: Option<Point>)
        requires
            on_curve(self.x@, self.y@),
        ensures
            element_view(r) == point_multiple(self@, k@),
            r matches Some(p) ==> on_curve(p.x@, p.y@),
    {
        let reduced = k.modulo(&curve_order());
        Point::from_coordinates(curve_mul(self, &reduced))
    }

    /// The sum of the two points; `None` is the neutral element.
    pub fn plus(&self, other: &Point) -> (r: Option<Point>)
        requires
            on_curve(self.x@, self.y@),
            on_curve(other.x@, other.y@),
        ensures
            element_view(r) == point_sum(self@, other@),
            r matches Some(p) ==> on_curve(p.x@, p.y@),
    {
        Point::from_coordinates(curve_add(self, other))
    }

    /// The group element with the given coordinates as big-endian bytes.
    fn from_coordinates(coordinates: Option<(Vec<u8>, Vec<u8>)>) -> (r: Option<Point>)
        ensures
            element_view(r) == bytes_view(coordinates),
    {
        match coordinates {
            None => None,
            Some((x, y)) => Some(Point { x: Integer::from_bytes(false, x), y: Integer::from_bytes(false, y) }),
        }
    }
}

/// The order `q` of the curve's group.
pub fn curve_order() -> (r: Integer)
    ensures
        r@ == group_order(),
{
    scalar_group_order()
}

/// Whether two group elements are the same.
pub fn same_element(a: &Option<Point>, b: &Option<Point>) -> (r: bool)
    ensures
        r == (element_view(*a) == element_view(*b)),
{
    match (a, b) {
        (None, None) => true,
        (Some(p), Some(q)) => p.equals(q),
        _ => false,
    }
}

/// A Schnorr proof of knowledge of a discrete logarithm, as `curv` makes it.
#[derive(Debug)]
pub struct DLogProof {
    pub pk: Point,
    pub pk_t_rand_commitment: Point,
    pub challenge_response: Integer,
}

impl Clone for DLogProof {
    fn clone(&self) -> (r: Self)
        ensures
            r.pk@ == self.pk@,
            r.pk_t_rand_commitment@ == self.pk_t_rand_commitment@,
            r.challenge_response@ == self.challenge_response@,
    {
        DLogProof {
            pk: self.pk.clone(),
            pk_t_rand_commitment: self.pk_t_rand_commitment.clone(),
            challenge_response: self.challenge_response.clone(),
        }
    }
}

impl DLogProof {
    /// Proves knowledge of `secret` for the point `g * secret`. There is no
    /// proof where that point, or the commitment drawn for it, is the neutral
    /// element.
    pub fn prove(secret: &Integer) -> (r: Option<DLogProof>)
        ensures
            r matches Some(p) ==> {
                &&& generator_multiple(secret@) == Some(p.pk@)
                &&& on_curve(p.pk.x@, p.pk.y@)
                &&& on_curve(p.pk_t_rand_commitment.x@, p.pk_t_rand_commitment.y@)
                &&& 0 <= p.challenge_response@ < group_order()
            },
    {
        let reduced = secret.modulo(&curve_order());
        match curve_prove_dlog(&reduced) {
            None => None,
            Some((pk, commitment, response)) => {
                let pk = Point { x: Integer::from_bytes(false, pk.0), y: Integer::from_bytes(false, pk.1) };
                let pk_t_rand_commitment = Point {
                    x: Integer::from_bytes(false, commitment.0),
                    y: Integer::from_bytes(false, commitment.1),
                };
                Some(DLogProof { pk, pk_t_rand_commitment, challenge_response: Integer::from_bytes(false, response) })
            },
        }
    }
}

/// Calls `Scalar::group_order` for secp256k1. Claims the order's value.
#[verifier::external_body]
fn scalar_group_order() -> (r: Integer)
    ensures
        r@ == group_order(),
{
    Integer { negative: false, magnitude: Scalar::<Secp256k1>::group_order().to_bytes() }
}

/// Calls `Point::from_coords`, which panics on a coordinate of more than 32
/// bytes. Claims that it accepts exactly the solutions of the curve equation
/// with both coordinates below the field prime.
#[verifier::external_body]
fn coordinates_on_curve(p: &Point) -> (r: bool)
    requires
        0 <= p.x@ < pow(2, 256),
        0 <= p.y@ < pow(2, 256),
    ensures
        r == on_curve(p.x@, p.y@),
{
    let x = BigInt::from_bytes(&p.x.magnitude);
    let y = BigInt::from_bytes(&p.y.magnitude);
    curv::elliptic::curves::Point::<Secp256k1>::from_coords(&x, &y).is_ok()
}

/// Calls `Generator * Scalar` after `Scalar::from_bigint`, which reduces its
/// argument modulo the group order. Claims that the result depends on `k`
/// alone and, unless neutral, lies on the curve.
#[verifier::external_body]
fn curve_base_mul(k: &Integer) -> (r: Option<(Vec<u8>, Vec<u8>)>)
    requires
        k@ >= 0,
    ensures
        bytes_view(r) == base_multiple(k@),
        bytes_view(r) matches Some(p) ==> on_curve(p.0, p.1),
{
    let scalar = Scalar::<Secp256k1>::from_bigint(&BigInt::from_bytes(&k.magnitude));
    let product = curv::elliptic::curves::Point::<Secp256k1>::generator() * scalar;
    let coordinates = product.coords()?;
    Some((coordinates.x.to_bytes(), coordinates.y.to_bytes()))
}

/// Calls `Point * Scalar` after `Point::from_coords` and
/// `Scalar::from_bigint`. Claims that the result depends on the point and on
/// `k` alone and, unless neutral, lies on the curve.
#[verifier::external_body]
fn curve_mul(p: &Point, k: &Integer) -> (r: Option<(Vec<u8>, Vec<u8>)>)
    requires
        on_curve(p.x@, p.y@),
        k@ >= 0,
    ensures
        bytes_view(r) == multiple(p@, k@),
        bytes_view(r) matches Some(t) ==> on_curve(t.0, t.1),
{
    let x = BigInt::from_bytes(&p.x.magnitude);
    let y = BigInt::from_bytes(&p.y.magnitude);
    let point = curv::elliptic::curves::Point::<Secp256k1>::from_coords(&x, &y).ok()?;
    let product = point * Scalar::<Secp256k1>::from_bigint(&BigInt::from_bytes(&k.magnitude));
    let coordinates = product.coords()?;
    Some((coordinates.x.to_bytes(), coordinates.y.to_bytes()))
}

/// Calls `Point + Point` after `Point::from_coords`. Claims that the result
/// depends on the two points alone and, unless neutral, lies on the curve.
#[verifier::external_body]
fn curve_add(p: &Point, q: &Point) -> (r: Option<(Vec<u8>, Vec<u8>)>)
    requires
        on_curve(p.x@, p.y@),
        on_curve(q.x@, q.y@),
    ensures
        bytes_view(r) == point_sum(p@, q@),
        bytes_view(r) matches Some(t) ==> on_curve(t.0, t.1),
{
    let px = BigInt::from_bytes(&p.x.magnitude);
    let py = BigInt::from_bytes(&p.y.magnitude);
    let qx = BigInt::from_bytes(&q.x.magnitude);
    let qy = BigInt::from_bytes(&q.y.magnitude);
    let a = curv::elliptic::curves::Point::<Secp256k1>::from_coords(&px, &py).ok()?;
    let b = curv::elliptic::curves::Point::<Secp256k1>::from_coords(&qx, &qy).ok()?;
    let coordinates = (a + b).coords()?;
    Some((coordinates.x.to_bytes(), coordinates.y.to_bytes()))
}

/// Calls `DLogProof::prove` with SHA-256 after `Scalar::from_bigint`. The
/// proof is randomised; claims that its public point is the generator times
/// the secret, that this point and the commitment lie on the curve, and that
/// the response is a scalar, below the order of the group. What comes back
/// are the coordinates of the public point and of the commitment, and the
/// response.
#[verifier::external_body]
fn curve_prove_dlog(secret: &Integer) -> (r: Option<((Vec<u8>, Vec<u8>), (Vec<u8>, Vec<u8>), Vec<u8>)>)
    requires
        secret@ >= 0,
    ensures
        r matches Some(p) ==> {
            &&& base_multiple(secret@) == bytes_view(Some(p.0))
            &&& on_curve(be_value(p.0.0@) as int, be_value(p.0.1@) as int)
            &&& on_curve(be_value(p.1.0@) as int, be_value(p.1.1@) as int)
            &&& be_value(p.2@) < group_order()
        },
{
    let scalar = Scalar::<Secp256k1>::from_bigint(&BigInt::from_bytes(&secret.magnitude));
    let proof = sigma_dlog::DLogProof::<Secp256k1, Sha256>::prove(&scalar);
    let pk = proof.pk.coords()?;
    let commitment = proof.pk_t_rand_commitment.coords()?;
    let response = proof.challenge_response.to_bigint().to_bytes();
    Some(((pk.x.to_bytes(), pk.y.to_bytes()), (commitment.x.to_bytes(), commitment.y.to_bytes()), response))
}

} // verus!
