use ark_std::rand::rngs::StdRng;
use ark_std::rand::SeedableRng;
use merlin::Transcript;
use r1cs_ipa::circuit::{ConstraintSystemHandle, CubicCircuit, PowerCircuit, Sha256Circuit};
use r1cs_ipa::field::Scalar;
use r1cs_ipa::group::Point;
use r1cs_ipa::ipa::{prove_ipa, verify_ipa, IpaProof};
use r1cs_ipa::linalg::pedersen_with_ip;
use r1cs_ipa::r1cs::{padded_size, prove_r1cs, setup, verify_r1cs, R1csInstance, R1csIpaProof};
use r1cs_ipa::transcript::TranscriptProtocol;

fn s(x: u64) -> Scalar {
    Scalar::from_u64(x)
}

fn rng() -> StdRng {
    StdRng::seed_from_u64(2024)
}

struct IpaSetup {
    a: Vec<Scalar>,
    b: Vec<Scalar>,
    g: Vec<Point>,
    h: Vec<Point>,
    u: Point,
}

fn ipa_setup(n: usize, rng: &mut StdRng) -> IpaSetup {
    IpaSetup {
        a: (0..n).map(|_| Scalar::random(rng)).collect(),
        b: (0..n).map(|_| Scalar::random(rng)).collect(),
        g: (0..n).map(|_| Point::random(rng)).collect(),
        h: (0..n).map(|_| Point::random(rng)).collect(),
        u: Point::random(rng),
    }
}

fn run_ipa(n: usize) -> (IpaSetup, Point, IpaProof) {
    let mut rng = rng();
    let st = ipa_setup(n, &mut rng);
    let initial = pedersen_with_ip(&st.a, &st.b, &st.g, &st.h, st.u);
    let mut t_p = Transcript::new(b"unit-ipa");
    t_p.dom_sep(n as u64);
    let proof = prove_ipa(&mut t_p, st.a.clone(), st.b.clone(), st.g.clone(), st.h.clone(), st.u)
        .unwrap();
    (st, initial, proof)
}

fn check_ipa(st: &IpaSetup, commitment: Point, proof: &IpaProof) -> bool {
    let mut t_v = Transcript::new(b"unit-ipa");
    t_v.dom_sep(st.g.len() as u64);
    verify_ipa(&mut t_v, proof, commitment, st.g.clone(), st.h.clone(), st.u)
}

#[test]
fn transcripts_with_the_same_messages_agree() {
    let mut rng = rng();
    let p = Point::random(&mut rng);
    let mut t1 = Transcript::new(b"unit-ipa");
    let mut t2 = Transcript::new(b"unit-ipa");
    t1.dom_sep(4);
    t2.dom_sep(4);
    t1.append_point(b"L", &p);
    t2.append_point(b"L", &p);
    let c1 = t1.get_challenge(b"x");
    let c2 = t2.get_challenge(b"x");
    assert_eq!(c1, c2);
    // A second draw differs from the first; another label gives another value.
    assert_ne!(t1.get_challenge(b"x"), c1);
    let mut t3 = Transcript::new(b"unit-ipa");
    t3.dom_sep(4);
    t3.append_point(b"R", &p);
    assert_ne!(t3.get_challenge(b"x"), c1);
}

#[test]
fn ipa_honest_proof_verifies() {
    let (st, initial, proof) = run_ipa(4);
    assert_eq!(proof.l_vec.len(), 2);
    assert_eq!(proof.r_vec.len(), 2);
    assert!(check_ipa(&st, initial, &proof));
}

#[test]
fn ipa_single_element_and_larger_vectors() {
    let (st, initial, proof) = run_ipa(1);
    assert!(proof.l_vec.is_empty());
    assert_eq!(proof.a_final, st.a[0]);
    assert_eq!(proof.b_final, st.b[0]);
    assert!(check_ipa(&st, initial, &proof));
    let (st, initial, proof) = run_ipa(8);
    assert_eq!(proof.l_vec.len(), 3);
    assert!(check_ipa(&st, initial, &proof));
}

#[test]
fn ipa_tampered_proof_is_rejected() {
    let (st, initial, proof) = run_ipa(4);
    let bad = IpaProof {
        l_vec: proof.l_vec.clone(),
        r_vec: proof.r_vec.clone(),
        a_final: proof.a_final.add(&s(1)),
        b_final: proof.b_final,
    };
    assert!(!check_ipa(&st, initial, &bad));
    // A commitment to other vectors is rejected too.
    assert!(!check_ipa(&st, initial.add(&st.u), &proof));
    // So is a proof with a round too few.
    let short = IpaProof {
        l_vec: proof.l_vec[..1].to_vec(),
        r_vec: proof.r_vec[..1].to_vec(),
        a_final: proof.a_final,
        b_final: proof.b_final,
    };
    assert!(!check_ipa(&st, initial, &short));
    // And a proof with more rounds than the generators can be halved.
    let mut l_vec = proof.l_vec.clone();
    let mut r_vec = proof.r_vec.clone();
    l_vec.push(proof.l_vec[0]);
    r_vec.push(proof.r_vec[0]);
    let long = IpaProof { l_vec, r_vec, a_final: proof.a_final, b_final: proof.b_final };
    assert!(!check_ipa(&st, initial, &long));
}

fn cubic_instance(x: u64, out: u64) -> R1csInstance {
    let mut cs = ConstraintSystemHandle::new();
    CubicCircuit { x: Some(s(x)), out: s(out) }.generate_constraints(&mut cs).unwrap();
    cs.to_instance()
}

#[test]
fn cubic_circuit_shape_and_satisfaction() {
    let inst = cubic_instance(3, 35);
    assert!(inst.is_well_formed());
    assert_eq!(inst.num_constraints, 3);
    assert_eq!(inst.instance_assignment, vec![s(1), s(35)]);
    assert_eq!(inst.witness_assignment, vec![s(3), s(9), s(27)]);
    assert!(inst.is_satisfied());
    let bad = cubic_instance(4, 35);
    assert!(bad.is_well_formed());
    assert!(!bad.is_satisfied());
    // An absent x counts as zero: 0 + 0 + 5 = 5.
    let mut cs = ConstraintSystemHandle::new();
    CubicCircuit { x: None, out: s(5) }.generate_constraints(&mut cs).unwrap();
    assert!(cs.to_instance().is_satisfied());
}

#[test]
fn power_circuit_satisfaction() {
    let build = |x: u64, y: u64, k: usize| {
        let mut cs = ConstraintSystemHandle::new();
        PowerCircuit { x: Some(s(x)), y: s(y), num_mults: k }.generate_constraints(&mut cs).unwrap();
        cs.to_instance()
    };
    let inst = build(2, 16, 3);
    assert_eq!(inst.num_constraints, 3);
    assert_eq!(inst.witness_assignment, vec![s(2), s(4), s(8)]);
    assert!(inst.is_well_formed());
    assert!(inst.is_satisfied());
    assert!(!build(2, 15, 3).is_satisfied());
    assert!(build(3, 9, 1).is_satisfied());
    // Without multiplications nothing is constrained.
    let none = build(2, 7, 0);
    assert_eq!(none.num_constraints, 0);
    assert!(none.is_satisfied());
}

#[test]
fn sha256_circuit_satisfaction() {
    // SHA-256("abc").
    let digest: Vec<u8> = vec![
        0xba, 0x78, 0x16, 0xbf, 0x8f, 0x01, 0xcf, 0xea, 0x41, 0x41, 0x40, 0xde, 0x5d, 0xae,
        0x22, 0x23, 0xb0, 0x03, 0x61, 0xa3, 0x96, 0x17, 0x7a, 0x9c, 0xb4, 0x10, 0xff, 0x61,
        0xf2, 0x00, 0x15, 0xad,
    ];
    let mut cs = ConstraintSystemHandle::new();
    Sha256Circuit { preimage: b"abc".to_vec(), expected_hash: digest.clone() }
        .generate_constraints(&mut cs)
        .unwrap();
    let inst = cs.to_instance();
    assert!(inst.is_well_formed());
    assert!(inst.num_constraints > 0);
    assert!(inst.is_satisfied());
    let mut wrong = digest;
    wrong[0] ^= 1;
    let mut cs = ConstraintSystemHandle::new();
    Sha256Circuit { preimage: b"abc".to_vec(), expected_hash: wrong }
        .generate_constraints(&mut cs)
        .unwrap();
    assert!(!cs.to_instance().is_satisfied());
}

#[test]
fn setup_draws_parameters_of_the_right_size() {
    let mut rng = rng();
    let params = setup(4, &mut rng);
    assert_eq!(params.n_pad, 4);
    assert_eq!(params.g_vec.len(), 8);
    assert_eq!(params.h_vec.len(), 8);
    assert!(!params.u.equals(&params.h_b));
}

fn tampered(proof: &R1csIpaProof) -> R1csIpaProof {
    R1csIpaProof {
        v_a: proof.v_a,
        v_b: proof.v_b,
        v_c: proof.v_c,
        s: proof.s,
        t1_commit: proof.t1_commit,
        t2_commit: proof.t2_commit,
        t_hat: proof.t_hat,
        tau_x: proof.tau_x,
        mu: proof.mu,
        ipa: IpaProof {
            l_vec: proof.ipa.l_vec.clone(),
            r_vec: proof.ipa.r_vec.clone(),
            a_final: proof.ipa.a_final.add(&s(1)),
            b_final: proof.ipa.b_final,
        },
    }
}

#[test]
fn r1cs_honest_proof_verifies_and_tampered_is_rejected() {
    let mut rng = rng();
    let inst = cubic_instance(3, 35);
    let params = setup(4, &mut rng);
    let proof = prove_r1cs(&inst, &params, &mut rng).unwrap();
    assert_eq!(proof.ipa.l_vec.len(), 3);
    assert!(verify_r1cs(&params, &proof));
    assert!(!verify_r1cs(&params, &tampered(&proof)));
    let mut bad_t = tampered(&proof);
    bad_t.ipa.a_final = proof.ipa.a_final;
    bad_t.t_hat = proof.t_hat.add(&s(1));
    assert!(!verify_r1cs(&params, &bad_t));
}

#[test]
fn r1cs_proofs_are_randomized() {
    let mut rng = rng();
    let inst = cubic_instance(3, 35);
    let params = setup(4, &mut rng);
    let p1 = prove_r1cs(&inst, &params, &mut rng).unwrap();
    let p2 = prove_r1cs(&inst, &params, &mut rng).unwrap();
    assert!(!p1.v_a.equals(&p2.v_a));
    assert_ne!(p1.t_hat, p2.t_hat);
    assert!(!p1.s.equals(&p2.s));
    assert!(!p1.t1_commit.equals(&p2.t1_commit));
    assert!(verify_r1cs(&params, &p1));
    assert!(verify_r1cs(&params, &p2));
}

#[test]
fn r1cs_bad_witness_proof_is_rejected() {
    let mut rng = rng();
    let inst = cubic_instance(4, 35);
    let params = setup(4, &mut rng);
    let proof = prove_r1cs(&inst, &params, &mut rng).unwrap();
    assert!(!verify_r1cs(&params, &proof));
}

#[test]
fn r1cs_power_circuit_proof_verifies() {
    let mut rng = rng();
    let mut cs = ConstraintSystemHandle::new();
    PowerCircuit { x: Some(s(3)), y: s(81), num_mults: 3 }.generate_constraints(&mut cs).unwrap();
    let inst = cs.to_instance();
    let params = setup(4, &mut rng);
    let proof = prove_r1cs(&inst, &params, &mut rng).unwrap();
    assert!(verify_r1cs(&params, &proof));
}

#[test]
fn padded_size_examples() {
    assert_eq!(padded_size(0), Some(2));
    assert_eq!(padded_size(1), Some(2));
    assert_eq!(padded_size(2), Some(2));
    assert_eq!(padded_size(3), Some(4));
    assert_eq!(padded_size(4), Some(4));
    assert_eq!(padded_size(5), Some(8));
    assert_eq!(padded_size(1000), Some(1024));
    assert_eq!(padded_size(usize::MAX / 2 + 1), Some(usize::MAX / 2 + 1));
    assert_eq!(padded_size(usize::MAX / 2 + 2), None);
}

#[test]
fn domain_separation_binds_the_length() {
    let mut t1 = Transcript::new(b"unit-ipa");
    let mut t2 = Transcript::new(b"unit-ipa");
    t1.dom_sep(4);
    t2.dom_sep(8);
    assert_ne!(t1.get_challenge(b"x"), t2.get_challenge(b"x"));
    let mut t3 = Transcript::new(b"other");
    t3.dom_sep(4);
    let mut t4 = Transcript::new(b"unit-ipa");
    t4.dom_sep(4);
    assert_ne!(t3.get_challenge(b"x"), t4.get_challenge(b"x"));
}

#[test]
fn ipa_opening_checks_the_final_equation_exactly() {
    let mut rng = rng();
    let base = Point::random(&mut rng);
    let proof = IpaProof { l_vec: vec![], r_vec: vec![], a_final: s(2), b_final: s(3) };
    let check = |commitment: Point, h: Vec<Point>| {
        let mut t = Transcript::new(b"unit-ipa");
        verify_ipa(&mut t, &proof, commitment, vec![base], h, base.mul(&s(7)))
    };
    // [2] G + [3] [5]G + [2 * 3] [7]G = [59] G.
    assert!(!check(base.mul(&s(58)), vec![base.mul(&s(5))]));
    assert!(check(base.mul(&s(59)), vec![base.mul(&s(5))]));
    // More `h` generators than `g` generators: only the first is used.
    assert!(check(base.mul(&s(59)), vec![base.mul(&s(5)), base.mul(&s(11))]));
    // No `h` generator left: rejected.
    assert!(!check(base.mul(&s(59)), vec![]));
}

#[test]
fn ipa_proof_binds_one_commitment() {
    let (st, initial, proof) = run_ipa(8);
    assert!(check_ipa(&st, initial, &proof));
    let mut rng = StdRng::seed_from_u64(7);
    for _ in 0..3 {
        let other = initial.add(&Point::random(&mut rng));
        assert!(!check_ipa(&st, other, &proof));
    }
}

#[test]
fn sha256_circuit_with_empty_preimage() {
    // SHA-256 of the empty message.
    let digest: Vec<u8> = vec![
        0xe3, 0xb0, 0xc4, 0x42, 0x98, 0xfc, 0x1c, 0x14, 0x9a, 0xfb, 0xf4, 0xc8, 0x99, 0x6f, 0xb9,
        0x24, 0x27, 0xae, 0x41, 0xe4, 0x64, 0x9b, 0x93, 0x4c, 0xa4, 0x95, 0x99, 0x1b, 0x78, 0x52,
        0xb8, 0x55,
    ];
    let mut cs = ConstraintSystemHandle::new();
    assert!(Sha256Circuit { preimage: vec![], expected_hash: digest.clone() }
        .generate_constraints(&mut cs)
        .is_ok());
    assert!(cs.to_instance().is_satisfied());
    let mut wrong = digest;
    wrong[31] ^= 1;
    let mut cs = ConstraintSystemHandle::new();
    assert!(Sha256Circuit { preimage: vec![], expected_hash: wrong }.generate_constraints(&mut cs).is_ok());
    assert!(!cs.to_instance().is_satisfied());
}
