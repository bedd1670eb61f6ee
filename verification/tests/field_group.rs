use ark_std::rand::rngs::StdRng;
use ark_std::rand::SeedableRng;
use r1cs_ipa::field::Scalar;
use r1cs_ipa::group::Point;

const MODULUS_LIMBS: [u64; 4] = [
    0xffffffff00000001,
    0x53bda402fffe5bfe,
    0x3339d80809a1d805,
    0x73eda753299d7d48,
];

fn s(x: u64) -> Scalar {
    Scalar::from_u64(x)
}

#[test]
fn scalar_arithmetic_on_small_values() {
    assert_eq!(s(3).add(&s(5)), s(8));
    assert_eq!(s(3).mul(&s(5)), s(15));
    assert_eq!(s(9).sub(&s(4)), s(5));
    assert_eq!(s(0).neg(), s(0));
    assert!(s(0).is_zero());
    assert!(!s(7).is_zero());
}

#[test]
fn scalar_wraps_around_the_modulus() {
    // 0 - 1 is r - 1.
    let minus_one = s(0).sub(&s(1));
    let mut expected = MODULUS_LIMBS;
    expected[0] -= 1;
    assert_eq!(minus_one.to_limbs(), expected);
    assert_eq!(minus_one, s(1).neg());
    assert_eq!(minus_one.add(&s(1)), s(0));
    assert_eq!(minus_one.mul(&minus_one), s(1));
}

#[test]
fn scalar_inverse() {
    assert!(s(0).inverse().is_none());
    let inv2 = s(2).inverse().unwrap();
    assert_eq!(inv2.mul(&s(2)), s(1));
    assert_ne!(inv2, s(2));
    let inv = s(123456789).inverse().unwrap();
    assert_eq!(inv.mul(&s(123456789)), s(1));
}

#[test]
fn scalar_from_limbs_checks_the_modulus() {
    assert!(Scalar::from_limbs(MODULUS_LIMBS).is_none());
    let mut below = MODULUS_LIMBS;
    below[0] -= 1;
    assert_eq!(Scalar::from_limbs(below).unwrap(), s(1).neg());
    assert_eq!(Scalar::from_limbs([42, 0, 0, 0]).unwrap(), s(42));
    assert!(Scalar::from_limbs([0, 0, 0, u64::MAX]).is_none());
    assert!(s(5).is_canonical());
}

#[test]
fn scalar_from_le_bytes_reduces() {
    let mut bytes = [0u8; 32];
    bytes[0] = 1;
    bytes[1] = 2;
    assert_eq!(Scalar::from_le_bytes_mod_order(&bytes), s(0x0201));
    // The modulus itself reduces to zero; the modulus plus 5 to 5.
    let mut m = [0u8; 32];
    for (i, limb) in MODULUS_LIMBS.iter().enumerate() {
        m[8 * i..8 * i + 8].copy_from_slice(&limb.to_le_bytes());
    }
    assert_eq!(Scalar::from_le_bytes_mod_order(&m), s(0));
    m[0] += 5;
    assert_eq!(Scalar::from_le_bytes_mod_order(&m), s(5));
}

#[test]
fn scalar_random_values_differ() {
    let mut rng = StdRng::seed_from_u64(7);
    let a = Scalar::random(&mut rng);
    let b = Scalar::random(&mut rng);
    assert_ne!(a, b);
    assert!(a.is_canonical() && b.is_canonical());
}

#[test]
fn point_group_laws_on_examples() {
    let mut rng = StdRng::seed_from_u64(1);
    let p = Point::random(&mut rng);
    let q = Point::random(&mut rng);
    assert!(!p.equals(&q));
    // p + p = [2] p
    assert!(p.add(&p).equals(&p.mul(&s(2))));
    // p - p = 0, p + 0 = p, [0] p = 0, [1] p = p
    assert!(p.sub(&p).equals(&Point::zero()));
    assert!(p.add(&Point::zero()).equals(&p));
    assert!(p.mul(&s(0)).equals(&Point::zero()));
    assert!(p.mul(&s(1)).equals(&p));
    // p + q = q + p, (p + q) - q = p
    assert!(p.add(&q).equals(&q.add(&p)));
    assert!(p.add(&q).sub(&q).equals(&p));
    // [3]p + [4]p = [7]p and [3]([4]p) = [12]p
    assert!(p.mul(&s(3)).add(&p.mul(&s(4))).equals(&p.mul(&s(7))));
    assert!(p.mul(&s(4)).mul(&s(3)).equals(&p.mul(&s(12))));
    // [r - 1] p = -p
    assert!(p.mul(&s(1).neg()).add(&p).equals(&Point::zero()));
}

#[test]
fn point_zero_encoding() {
    // The compressed encoding of the identity: the compression and infinity
    // flags, then zeros.
    let z = Point::zero().to_bytes();
    assert_eq!(z[0], 0xc0);
    assert!(z[1..].iter().all(|b| *b == 0));
    let mut rng = StdRng::seed_from_u64(3);
    let p = Point::random(&mut rng).to_bytes();
    assert_eq!(p[0] & 0x80, 0x80);
    assert_ne!(p, z);
}
