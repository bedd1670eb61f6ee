//! Points of the prime-order group G1 of BLS12-381.
//!
//! G1 is cyclic of prime order `r`: every point is `[k]G` for the standard
//! generator `G` and a unique `k < r`. A `Point` keeps the compressed
//! 48-byte encoding of its point (which is what transcripts absorb) together
//! with that `k` as a ghost value, so that the contracts can speak of group
//! arithmetic as arithmetic modulo `r`. The group operations themselves are
//! done by `ark_ec` in the wrappers at the end of this file.
use crate::field::{fr_modulus, Scalar};
use ark_bls12_381::{Fr, G1Projective};
use ark_ff::{BigInt, PrimeField, UniformRand};
use ark_serialize::{CanonicalDeserialize, CanonicalSerialize};
use ark_std::rand::rngs::StdRng;
use vstd::prelude::*;

verus! {

/// The compressed encoding (`ark_serialize`'s `serialize_compressed`, 48
/// bytes) of the point `[k]G`, where `G` is `G1Projective::generator()`.
pub uninterp spec fn g1_encoding(k: nat) -> Seq<u8>;

/// No `j < r` other than `k` has the encoding `b`. The wrappers below claim
/// this of each encoding they return: `serialize_compressed` writes a
/// point's x-coordinate with flags for the identity and for the larger of
/// the two y-coordinates, which together fix the point, and the `[j]G` for
/// `j < r` are distinct points.
pub closed spec fn encoding_determines(b: Seq<u8>, k: nat) -> bool {
    forall|j: nat| j < fr_modulus() && #[trigger] g1_encoding(j) == b ==> j == k
}

/// The bytes encode some point of G1.
pub open spec fn is_g1_encoding(b: Seq<u8>) -> bool {
    exists|k: nat| #[trigger] g1_encoding(k) == b && k < fr_modulus()
}

/// A point of G1, kept as its compressed encoding.
#[derive(Clone, Copy)]
pub struct Point {
    bytes: [u8; 48],
    log: Ghost<nat>,
}

impl Point {
    /// The `k < r` with `self = [k]G`.
    pub closed spec fn log(&self) -> nat {
        self.log@
    }

    /// The compressed encoding this point carries.
    pub closed spec fn encoding(&self) -> Seq<u8> {
        self.bytes@
    }

    /// The encoding is that of `[log]G`, and of no other point.
    pub open spec fn wf(&self) -> bool {
        &&& self.log() < fr_modulus()
        &&& self.encoding() == g1_encoding(self.log())
        &&& encoding_determines(self.encoding(), self.log())
    }

    /// The identity of the group.
    pub fn zero() -> (p: Point)
        ensures
            p.wf(),
            p.log() == 0,
    {
        Point { bytes: g1_zero(), log: Ghost(0) }
    }

    /// A uniformly random point drawn from `rng`.
    pub fn random(rng: &mut StdRng) -> (p: Point)
        ensures
            p.wf(),
    {
        let bytes = g1_rand(rng);
        let ghost k = choose|k: nat| #[trigger] g1_encoding(k) == bytes@ && k < fr_modulus();
        Point { bytes, log: Ghost(k) }
    }

    /// `self + other`.
    pub fn add(&self, other: &Point) -> (p: Point)
        requires
            self.wf(),
            other.wf(),
        ensures
            p.wf(),
            p.log() == (self.log() + other.log()) % fr_modulus(),
    {
        let bytes = g1_add(self, other);
        Point { bytes, log: Ghost((self.log() + other.log()) % fr_modulus()) }
    }

    /// `self - other`.
    pub fn sub(&self, other: &Point) -> (p: Point)
        requires
            self.wf(),
            other.wf(),
        ensures
            p.wf(),
            p.log() == (self.log() + fr_modulus() - other.log()) % (fr_modulus() as int),
    {
        let bytes = g1_sub(self, other);
        Point {
            bytes,
            log: Ghost(((self.log() + fr_modulus() - other.log()) % (fr_modulus() as int)) as nat),
        }
    }

    /// `[s] self`.
    pub fn mul(&self, s: &Scalar) -> (p: Point)
        requires
            self.wf(),
            s.wf(),
        ensures
            p.wf(),
            p.log() == (self.log() * s.value()) % fr_modulus(),
    {
        let bytes = g1_mul(self, s);
        Point { bytes, log: Ghost((self.log() * s.value()) % fr_modulus()) }
    }

    /// The compressed encoding.
    pub fn to_bytes(&self) -> (b: [u8; 48])
        ensures
            b@ == self.encoding(),
    {
        self.bytes
    }

    /// Whether the two points have the same encoding, that is, whether
    /// they are the same point.
    pub fn equals(&self, other: &Point) -> (b: bool)
        ensures
            b == (self.encoding() == other.encoding()),
            self.wf() && other.wf() ==> (b == (self.log() == other.log())),
    {
        let mut i: usize = 0;
        while i < 48
            invariant
                i <= 48,
                forall|j: int| 0 <= j < i ==> self.bytes[j] == other.bytes[j],
            decreases 48 - i,
        {
            if self.bytes[i] != other.bytes[i] {
                assert(self.encoding()[i as int] != other.encoding()[i as int]);
                return false;
            }
            i = i + 1;
        }
        assert(self.encoding() =~= other.encoding());
        proof {
            if self.wf() && other.wf() {
                assert(g1_encoding(self.log()) == other.encoding());
            }
        }
        true
    }
}

/// `ark_ec`'s `Zero::zero` on `G1Projective`, serialized: the encoding of
/// the identity `[0]G`, which no other point shares.
#[verifier::external_body]
fn g1_zero() -> (r: [u8; 48])
    ensures
        r@ == g1_encoding(0),
        encoding_determines(r@, 0),
{
    let mut out = [0u8; 48];
    <G1Projective as ark_std::Zero>::zero().serialize_compressed(&mut out[..]).unwrap();
    out
}

/// `ark_ec`'s `UniformRand::rand` on `G1Projective`, serialized: a point of
/// the prime-order subgroup, whose encoding no other point shares; which
/// point depends on the generator's state.
#[verifier::external_body]
fn g1_rand(rng: &mut StdRng) -> (out: [u8; 48])
    ensures
        is_g1_encoding(out@),
        forall|k: nat| k < fr_modulus() && #[trigger] g1_encoding(k) == out@ ==> encoding_determines(out@, k),
{
    let mut out = [0u8; 48];
    G1Projective::rand(rng).serialize_compressed(&mut out[..]).unwrap();
    out
}

/// `ark_ec`'s addition of `G1Projective` points, read from and written to
/// compressed encodings: `[a]G + [b]G = [(a + b) mod r]G`, an encoding no
/// other point shares.
#[verifier::external_body]
fn g1_add(a: &Point, b: &Point) -> (r: [u8; 48])
    requires
        a.wf(),
        b.wf(),
    ensures
        r@ == g1_encoding((a.log() + b.log()) % fr_modulus()),
        encoding_determines(r@, (a.log() + b.log()) % fr_modulus()),
{
    let p = G1Projective::deserialize_compressed_unchecked(&a.bytes[..]).unwrap();
    let q = G1Projective::deserialize_compressed_unchecked(&b.bytes[..]).unwrap();
    let mut out = [0u8; 48];
    (p + q).serialize_compressed(&mut out[..]).unwrap();
    out
}

/// `ark_ec`'s subtraction of `G1Projective` points, read from and written
/// to compressed encodings: `[a]G - [b]G = [(a - b) mod r]G`, an encoding no
/// other point shares.
#[verifier::external_body]
fn g1_sub(a: &Point, b: &Point) -> (r: [u8; 48])
    requires
        a.wf(),
        b.wf(),
    ensures
        r@ == g1_encoding(((a.log() + fr_modulus() - b.log()) % (fr_modulus() as int)) as nat),
        encoding_determines(r@, ((a.log() + fr_modulus() - b.log()) % (fr_modulus() as int)) as nat),
{
    let p = G1Projective::deserialize_compressed_unchecked(&a.bytes[..]).unwrap();
    let q = G1Projective::deserialize_compressed_unchecked(&b.bytes[..]).unwrap();
    let mut out = [0u8; 48];
    (p - q).serialize_compressed(&mut out[..]).unwrap();
    out
}

/// `ark_ec`'s scalar multiplication of a `G1Projective` point by an `Fr`,
/// read from and written to compressed encodings: `[s]([a]G) = [(a s) mod r]G`,
/// an encoding no other point shares.
#[verifier::external_body]
fn g1_mul(a: &Point, s: &Scalar) -> (r: [u8; 48])
    requires
        a.wf(),
        s.wf(),
    ensures
        r@ == g1_encoding((a.log() * s.value()) % fr_modulus()),
        encoding_determines(r@, (a.log() * s.value()) % fr_modulus()),
{
    let p = G1Projective::deserialize_compressed_unchecked(&a.bytes[..]).unwrap();
    let x = Fr::from_bigint(BigInt::new(s.limbs)).unwrap();
    let mut out = [0u8; 48];
    (p * x).serialize_compressed(&mut out[..]).unwrap();
    out
}

} // verus!
