use ark_std::rand::rngs::StdRng;
use ark_std::rand::SeedableRng;
use r1cs_ipa::field::Scalar;
use r1cs_ipa::group::Point;
use r1cs_ipa::linalg::{
    hadamard, inner_product, pad_zero, pedersen_vec, pedersen_with_ip, powers_of, sparse_matvec,
};

fn s(x: u64) -> Scalar {
    Scalar::from_u64(x)
}

fn sv(xs: &[u64]) -> Vec<Scalar> {
    xs.iter().map(|x| s(*x)).collect()
}

#[test]
fn inner_product_of_small_vectors() {
    assert_eq!(inner_product(&sv(&[1, 2, 3]), &sv(&[4, 5, 6])), s(32));
    // Zipping stops at the shorter vector.
    assert_eq!(inner_product(&sv(&[1, 2, 3]), &sv(&[4, 5])), s(14));
    assert_eq!(inner_product(&[], &sv(&[4, 5])), s(0));
}

#[test]
fn hadamard_of_small_vectors() {
    assert_eq!(hadamard(&sv(&[1, 2, 3]), &sv(&[4, 5, 6])), sv(&[4, 10, 18]));
    assert_eq!(hadamard(&sv(&[1, 2, 3]), &sv(&[7])), sv(&[7]));
}

#[test]
fn powers_of_two() {
    assert_eq!(powers_of(s(2), 5), sv(&[1, 2, 4, 8, 16]));
    assert_eq!(powers_of(s(9), 0), sv(&[]));
    assert_eq!(powers_of(s(0), 3), sv(&[1, 0, 0]));
}

#[test]
fn sparse_matvec_examples() {
    // [[2 at col 0, 3 at col 2], [], [1 at col 1]] times [5, 7, 11]
    let m = vec![
        vec![(s(2), 0usize), (s(3), 2usize)],
        vec![],
        vec![(s(1), 1usize)],
    ];
    let z = sv(&[5, 7, 11]);
    assert_eq!(sparse_matvec(&m, &z, 3), sv(&[43, 0, 7]));
    // Fewer rows requested; more rows than the matrix has give zeros.
    assert_eq!(sparse_matvec(&m, &z, 1), sv(&[43]));
    assert_eq!(sparse_matvec(&m, &z, 5), sv(&[43, 0, 7, 0, 0]));
}

#[test]
fn pad_zero_pads_and_cuts() {
    assert_eq!(pad_zero(sv(&[1, 2]), 4), sv(&[1, 2, 0, 0]));
    assert_eq!(pad_zero(sv(&[1, 2, 3]), 2), sv(&[1, 2]));
    assert_eq!(pad_zero(sv(&[]), 0), sv(&[]));
}

#[test]
fn pedersen_commitments_match_their_definition() {
    let mut rng = StdRng::seed_from_u64(11);
    let g: Vec<Point> = (0..3).map(|_| Point::random(&mut rng)).collect();
    let h: Vec<Point> = (0..3).map(|_| Point::random(&mut rng)).collect();
    let u = Point::random(&mut rng);
    let a = sv(&[1, 2, 3]);
    let b = sv(&[4, 5, 6]);
    let expected = g[0].mul(&s(1)).add(&g[1].mul(&s(2))).add(&g[2].mul(&s(3)));
    let pa = pedersen_vec(&a, &g);
    assert!(pa.equals(&expected));
    assert!(pedersen_vec(&[], &[]).equals(&Point::zero()));
    let pb = pedersen_vec(&b, &h);
    let full = pedersen_with_ip(&a, &b, &g, &h, u);
    assert!(full.equals(&pa.add(&pb).add(&u.mul(&s(32)))));
}

#[test]
fn pedersen_commitment_is_linear() {
    let mut rng = StdRng::seed_from_u64(11);
    let g: Vec<Point> = (0..4).map(|_| Point::random(&mut rng)).collect();
    let a = sv(&[1, 2, 3, 4]);
    let b = sv(&[10, 20, 30, 40]);
    let sum: Vec<Scalar> = a.iter().zip(b.iter()).map(|(x, y)| x.add(y)).collect();
    let ca = pedersen_vec(&a, &g);
    let cb = pedersen_vec(&b, &g);
    assert!(pedersen_vec(&sum, &g).equals(&ca.add(&cb)));
    let c = s(9);
    let scaled: Vec<Scalar> = a.iter().map(|x| x.mul(&c)).collect();
    assert!(pedersen_vec(&scaled, &g).equals(&ca.mul(&c)));
    assert!(!pedersen_vec(&scaled, &g).equals(&ca));
}
