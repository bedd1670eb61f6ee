//! Elements of the scalar field of BLS12-381.
//!
//! A `Scalar` holds the canonical little-endian limbs of an integer below the
//! field modulus `r`. The arithmetic itself is done by `ark_ff` (through the
//! wrappers at the end of this file); the contracts describe it as arithmetic
//! on integers modulo `r`.
use ark_bls12_381::Fr;
use ark_ff::{BigInt, Field, PrimeField, UniformRand};
use ark_std::rand::rngs::StdRng;
use vstd::arithmetic::div_mod::*;
use vstd::prelude::*;

verus! {

/// The order `r` of the BLS12-381 scalar field (a prime).
pub open spec fn fr_modulus() -> nat {
    0x73eda753299d7d483339d80809a1d80553bda402fffe5bfeffffffff00000001nat
}

/// The integer that four little-endian 64-bit limbs spell.
pub open spec fn limbs_value(l: [u64; 4]) -> nat {
    l[0] as nat + l[1] as nat * 0x1_0000_0000_0000_0000nat + l[2] as nat
        * 0x1_0000_0000_0000_0000_0000_0000_0000_0000nat + l[3] as nat
        * 0x1_0000_0000_0000_0000_0000_0000_0000_0000_0000_0000_0000_0000nat
}

/// The integer that a little-endian byte string spells.
pub open spec fn le_bytes_value(b: Seq<u8>) -> nat
    decreases b.len(),
{
    if b.len() == 0 {
        0
    } else {
        b[0] as nat + 256 * le_bytes_value(b.skip(1))
    }
}

/// Whether `x` has a multiplicative inverse modulo `r`.
pub open spec fn invertible(x: nat) -> bool {
    exists|y: nat| y < fr_modulus() && #[trigger] ((x * y) % fr_modulus()) == 1
}

/// The inverse of `x` modulo `r` (unique, as `r` is prime).
pub open spec fn field_inv(x: nat) -> nat {
    choose|y: nat| y < fr_modulus() && #[trigger] ((x * y) % fr_modulus()) == 1
}

/// The external type of the random number generator that draws blinding
/// factors and parameters.
#[verifier::external_type_specification]
#[verifier::external_body]
pub struct ExStdRng(StdRng);

/// An element of the scalar field, stored as canonical little-endian limbs.
#[derive(Clone, Copy, Debug, PartialEq, Eq)]
pub struct Scalar {
    pub(crate) limbs: [u64; 4],
}

impl Scalar {
    /// The integer this element stands for.
    pub closed spec fn value(&self) -> nat {
        limbs_value(self.limbs)
    }

    /// The representation is canonical: the integer is below `r`.
    pub open spec fn wf(&self) -> bool {
        self.value() < fr_modulus()
    }

    /// The element `x mod r` of a machine integer (all of which are below `r`).
    pub fn from_u64(x: u64) -> (s: Scalar)
        ensures
            s.wf(),
            s.value() == x,
    {
        Scalar { limbs: [x, 0, 0, 0] }
    }

    pub fn zero() -> (s: Scalar)
        ensures
            s.wf(),
            s.value() == 0,
    {
        Scalar::from_u64(0)
    }

    pub fn one() -> (s: Scalar)
        ensures
            s.wf(),
            s.value() == 1,
    {
        Scalar::from_u64(1)
    }

    /// The little-endian limbs of the canonical representative.
    pub fn to_limbs(&self) -> (l: [u64; 4])
        ensures
            limbs_value(l) == self.value(),
    {
        self.limbs
    }

    /// Builds an element from little-endian limbs; `None` where they spell
    /// an integer that is not below `r`.
    pub fn from_limbs(l: [u64; 4]) -> (s: Option<Scalar>)
        ensures
            match s {
                Some(v) => v.wf() && v.value() == limbs_value(l),
                None => limbs_value(l) >= fr_modulus(),
            },
    {
        let m: [u64; 4] = [
            0xffffffff00000001,
            0x53bda402fffe5bfe,
            0x3339d80809a1d805,
            0x73eda753299d7d48,
        ];
        assert(limbs_value(m) == fr_modulus());
        // Compare from the most significant limb down.
        let mut i: usize = 4;
        while i > 0
            invariant
                i <= 4,
                limbs_value(m) == fr_modulus(),
                forall|j: int| i <= j < 4 ==> l[j] == m[j],
            decreases i,
        {
            let k = i - 1;
            if l[k] < m[k] {
                proof { lemma_limbs_lt(l, m, k as int); }
                return Some(Scalar { limbs: l });
            }
            if l[k] > m[k] {
                proof { lemma_limbs_lt(m, l, k as int); }
                return None;
            }
            i = k;
        }
        proof { assert(limbs_value(l) == limbs_value(m)); }
        None
    }

    /// Whether the limbs spell an integer below `r`.
    pub fn is_canonical(&self) -> (b: bool)
        ensures
            b == self.wf(),
    {
        Scalar::from_limbs(self.limbs).is_some()
    }

    /// Field equality.
    pub fn equals(&self, other: &Scalar) -> (b: bool)
        ensures
            b == (self.value() == other.value()),
    {
        let r = self.limbs[0] == other.limbs[0] && self.limbs[1] == other.limbs[1]
            && self.limbs[2] == other.limbs[2] && self.limbs[3] == other.limbs[3];
        proof {
            if !r {
                lemma_limbs_injective(self.limbs, other.limbs);
            }
        }
        r
    }

    pub fn is_zero(&self) -> (b: bool)
        ensures
            b == (self.value() == 0),
    {
        let z = Scalar::zero();
        self.equals(&z)
    }

    /// `self + other mod r`.
    pub fn add(&self, other: &Scalar) -> (s: Scalar)
        requires
            self.wf(),
            other.wf(),
        ensures
            s.wf(),
            s.value() == (self.value() + other.value()) % fr_modulus(),
    {
        fr_add(self, other)
    }

    /// `self - other mod r`.
    pub fn sub(&self, other: &Scalar) -> (s: Scalar)
        requires
            self.wf(),
            other.wf(),
        ensures
            s.wf(),
            s.value() == (self.value() + fr_modulus() - other.value()) % (fr_modulus() as int),
    {
        fr_sub(self, other)
    }

    /// `self * other mod r`.
    pub fn mul(&self, other: &Scalar) -> (s: Scalar)
        requires
            self.wf(),
            other.wf(),
        ensures
            s.wf(),
            s.value() == (self.value() * other.value()) % fr_modulus(),
    {
        fr_mul(self, other)
    }

    /// `-self mod r`.
    pub fn neg(&self) -> (s: Scalar)
        requires
            self.wf(),
        ensures
            s.wf(),
            s.value() == (fr_modulus() - self.value()) % (fr_modulus() as int),
    {
        fr_neg(self)
    }

    /// The multiplicative inverse; `None` for zero.
    pub fn inverse(&self) -> (s: Option<Scalar>)
        requires
            self.wf(),
        ensures
            s is None <==> self.value() == 0,
            s matches Some(y) ==> y.wf() && (self.value() * y.value()) % fr_modulus() == 1
                && y.value() == field_inv(self.value()) && invertible(self.value()),
    {
        fr_inverse(self)
    }

    /// Reads little-endian bytes as an integer and reduces it modulo `r`.
    pub fn from_le_bytes_mod_order(bytes: &[u8]) -> (s: Scalar)
        ensures
            s.wf(),
            s.value() == le_bytes_value(bytes@) % fr_modulus(),
    {
        fr_from_le_bytes_mod_order(bytes)
    }

    /// A uniformly random element drawn from `rng`.
    pub fn random(rng: &mut StdRng) -> (s: Scalar)
        ensures
            s.wf(),
    {
        fr_rand(rng)
    }
}

proof fn lemma_limbs_lt(a: [u64; 4], b: [u64; 4], k: int)
    requires
        0 <= k < 4,
        a[k] < b[k],
        forall|j: int| k < j < 4 ==> a[j] == b[j],
    ensures
        limbs_value(a) < limbs_value(b),
{
    let (a0, a1, a2, a3) = (a[0] as int, a[1] as int, a[2] as int, a[3] as int);
    let (b0, b1, b2, b3) = (b[0] as int, b[1] as int, b[2] as int, b[3] as int);
    let w: int = 0x1_0000_0000_0000_0000int;
    assert(limbs_value(a) == a0 + w * (a1 + w * (a2 + w * a3))) by (nonlinear_arith)
        requires
            w == 0x1_0000_0000_0000_0000int,
            a0 == a[0] as int,
            a1 == a[1] as int,
            a2 == a[2] as int,
            a3 == a[3] as int,
    ;
    assert(limbs_value(b) == b0 + w * (b1 + w * (b2 + w * b3))) by (nonlinear_arith)
        requires
            w == 0x1_0000_0000_0000_0000int,
            b0 == b[0] as int,
            b1 == b[1] as int,
            b2 == b[2] as int,
            b3 == b[3] as int,
    ;
    assert(0 <= a0 < w && 0 <= a1 < w && 0 <= a2 < w && 0 <= a3 < w);
    assert(0 <= b0 < w && 0 <= b1 < w && 0 <= b2 < w && 0 <= b3 < w);
    if k == 3 {
        assert(a0 + w * (a1 + w * (a2 + w * a3)) < b0 + w * (b1 + w * (b2 + w * b3)))
            by (nonlinear_arith)
            requires
                0 <= a0 < w,
                0 <= a1 < w,
                0 <= a2 < w,
                0 <= b0 < w,
                0 <= b1 < w,
                0 <= b2 < w,
                a3 < b3,
                w > 0,
        ;
    } else if k == 2 {
        assert(a0 + w * (a1 + w * (a2 + w * a3)) < b0 + w * (b1 + w * (b2 + w * b3)))
            by (nonlinear_arith)
            requires
                0 <= a0 < w,
                0 <= a1 < w,
                0 <= b0 < w,
                0 <= b1 < w,
                a2 < b2,
                a3 == b3,
                w > 0,
        ;
    } else if k == 1 {
        assert(a0 + w * (a1 + w * (a2 + w * a3)) < b0 + w * (b1 + w * (b2 + w * b3)))
            by (nonlinear_arith)
            requires
                0 <= a0 < w,
                0 <= b0 < w,
                a1 < b1,
                a2 == b2,
                a3 == b3,
                w > 0,
        ;
    } else {
        assert(a0 + w * (a1 + w * (a2 + w * a3)) < b0 + w * (b1 + w * (b2 + w * b3)))
            by (nonlinear_arith)
            requires
                a0 < b0,
                a1 == b1,
                a2 == b2,
                a3 == b3,
        ;
    }
}

proof fn lemma_limbs_injective(a: [u64; 4], b: [u64; 4])
    requires
        a[0] != b[0] || a[1] != b[1] || a[2] != b[2] || a[3] != b[3],
    ensures
        limbs_value(a) != limbs_value(b),
{
    let k: int = if a[3] != b[3] {
        3
    } else if a[2] != b[2] {
        2
    } else if a[1] != b[1] {
        1
    } else {
        0
    };
    if a[k] < b[k] {
        lemma_limbs_lt(a, b, k);
    } else {
        lemma_limbs_lt(b, a, k);
    }
}

/// Adds two elements with `ark_ff`'s `Fr` addition: `(a + b) mod r`.
#[verifier::external_body]
fn fr_add(a: &Scalar, b: &Scalar) -> (s: Scalar)
    requires
        a.wf(),
        b.wf(),
    ensures
        s.wf(),
        s.value() == (a.value() + b.value()) % fr_modulus(),
{
    let x = Fr::from_bigint(BigInt::new(a.limbs)).unwrap();
    let y = Fr::from_bigint(BigInt::new(b.limbs)).unwrap();
    Scalar { limbs: (x + y).into_bigint().0 }
}

/// Subtracts with `ark_ff`'s `Fr` subtraction: `(a - b) mod r`.
#[verifier::external_body]
fn fr_sub(a: &Scalar, b: &Scalar) -> (s: Scalar)
    requires
        a.wf(),
        b.wf(),
    ensures
        s.wf(),
        s.value() == (a.value() + fr_modulus() - b.value()) % (fr_modulus() as int),
{
    let x = Fr::from_bigint(BigInt::new(a.limbs)).unwrap();
    let y = Fr::from_bigint(BigInt::new(b.limbs)).unwrap();
    Scalar { limbs: (x - y).into_bigint().0 }
}

/// Multiplies with `ark_ff`'s `Fr` multiplication: `(a * b) mod r`.
#[verifier::external_body]
fn fr_mul(a: &Scalar, b: &Scalar) -> (s: Scalar)
    requires
        a.wf(),
        b.wf(),
    ensures
        s.wf(),
        s.value() == (a.value() * b.value()) % fr_modulus(),
{
    let x = Fr::from_bigint(BigInt::new(a.limbs)).unwrap();
    let y = Fr::from_bigint(BigInt::new(b.limbs)).unwrap();
    Scalar { limbs: (x * y).into_bigint().0 }
}

/// Negates with `ark_ff`'s `Fr` negation: `(r - a) mod r`.
#[verifier::external_body]
fn fr_neg(a: &Scalar) -> (s: Scalar)
    requires
        a.wf(),
    ensures
        s.wf(),
        s.value() == (fr_modulus() - a.value()) % (fr_modulus() as int),
{
    let x = Fr::from_bigint(BigInt::new(a.limbs)).unwrap();
    Scalar { limbs: (-x).into_bigint().0 }
}

/// `ark_ff`'s `Field::inverse` on `Fr`: `None` for zero, else the unique
/// `y < r` with `a * y = 1 mod r`.
#[verifier::external_body]
fn fr_inverse(a: &Scalar) -> (s: Option<Scalar>)
    requires
        a.wf(),
    ensures
        s is None <==> a.value() == 0,
        s matches Some(y) ==> y.wf() && (a.value() * y.value()) % fr_modulus() == 1
            && y.value() == field_inv(a.value()) && invertible(a.value()),
{
    let x = Fr::from_bigint(BigInt::new(a.limbs)).unwrap();
    match x.inverse() {
        Some(y) => Some(Scalar { limbs: y.into_bigint().0 }),
        None => None,
    }
}

/// `ark_ff`'s `PrimeField::from_le_bytes_mod_order` on `Fr`: the
/// little-endian integer of the bytes, reduced modulo `r`.
#[verifier::external_body]
fn fr_from_le_bytes_mod_order(bytes: &[u8]) -> (s: Scalar)
    ensures
        s.wf(),
        s.value() == le_bytes_value(bytes@) % fr_modulus(),
{
    Scalar { limbs: Fr::from_le_bytes_mod_order(bytes).into_bigint().0 }
}

/// `ark_ff`'s `UniformRand::rand` on `Fr`: some element below `r`; which
/// one depends on the generator's state and is not stated.
#[verifier::external_body]
fn fr_rand(rng: &mut StdRng) -> (s: Scalar)
    ensures
        s.wf(),
{
    Scalar { limbs: Fr::rand(rng).into_bigint().0 }
}

} // verus!
