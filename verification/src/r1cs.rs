//! A zero-knowledge argument that a witness satisfies a rank-one constraint
//! system `(A z) * (B z) = C z`, reduced to one inner-product argument.
//!
//! The prover commits to `A z`, `B z`, `C z` with blinding, draws `y` and
//! folds the element-wise check into one inner product
//! `<A z || C z, y^n * B z || -y^n>`, which is zero exactly on satisfying
//! witnesses (for all but few `y`); it then blinds both vectors with
//! random `s_l`, `s_r`, commits to the coefficients of the inner product as
//! a polynomial in `x`, and runs the inner-product argument on the vectors
//! evaluated at a challenge `x`.
use crate::algebra::{eqm, lin, lemma_eqm_add, lemma_eqm_mod, lemma_eqm_mul, lemma_eqm_small};
use crate::field::{field_inv, fr_modulus, invertible, Scalar};
use crate::group::Point;
use crate::ipa::{
    ipa_prove_spec, ipa_verify_spec, is_pow2, lemma_ipa_shapes_equal, lemma_logs_split, prove_ipa,
    verify_ipa,
    IpaProof, IpaProofModel,
};
use crate::linalg::{
    columns_below, dot, dot_prefix, hadamard, hadamard_spec, inner_product, lemma_add_mod, lemma_mul_mod,
    logs, matrix_wf, matvec_spec, min_len, pad_spec, pad_zero, pedersen_vec, points_wf,
    powers_of, powers_spec, scalars_wf, sparse_matvec, values, Matrix,
};
use crate::transcript::{
    challenge_value, label_r1cs_ipa, label_s, label_t_1, label_t_2, label_v_a, label_v_b,
    label_v_c, label_x, label_y, r1cs_ipa_label, s_label, t_1_label, t_2_label, transcript_new, v_a_label, v_b_label, v_c_label, with_challenge, with_dom_sep, with_point,
    x_label, y_label, dom_sep_label, Entry, TranscriptProtocol,
};
use ark_std::rand::rngs::StdRng;
use vstd::prelude::*;

verus! {

/// What the prover reads of a constraint system: the three matrices, the
/// number of constraints, and the assignment (the instance part starts with
/// the constant one).
pub struct R1csInstance {
    pub a: Matrix,
    pub b: Matrix,
    pub c: Matrix,
    pub num_constraints: usize,
    pub instance_assignment: Vec<Scalar>,
    pub witness_assignment: Vec<Scalar>,
}

/// The public parameters: `2 n_pad` generators in each of `g_vec` and
/// `h_vec`, and the generators `u` and `h_b`.
pub struct R1csIpaParams {
    pub g_vec: Vec<Point>,
    pub h_vec: Vec<Point>,
    pub u: Point,
    pub h_b: Point,
    pub n_pad: usize,
}

/// A proof.
pub struct R1csIpaProof {
    pub v_a: Point,
    pub v_b: Point,
    pub v_c: Point,
    pub s: Point,
    pub t1_commit: Point,
    pub t2_commit: Point,
    pub t_hat: Scalar,
    pub tau_x: Scalar,
    pub mu: Scalar,
    pub ipa: IpaProof,
}

/// The prover's random choices: blinding factors for the commitments and
/// the blinding vectors `s_l`, `s_r` of length `2 n_pad`.
pub struct ProverRandomness {
    pub alpha: Scalar,
    pub beta: Scalar,
    pub gamma: Scalar,
    pub s_l: Vec<Scalar>,
    pub s_r: Vec<Scalar>,
    pub rho: Scalar,
    pub tau_1: Scalar,
    pub tau_2: Scalar,
}

pub struct R1csModel {
    pub a: Seq<Vec<(Scalar, usize)>>,
    pub b: Seq<Vec<(Scalar, usize)>>,
    pub c: Seq<Vec<(Scalar, usize)>>,
    pub m: nat,
    pub z: Seq<nat>,
}

pub struct ParamsModel {
    pub g: Seq<nat>,
    pub h: Seq<nat>,
    pub u: nat,
    pub h_b: nat,
    pub n: nat,
}

pub struct RandomnessModel {
    pub alpha: nat,
    pub beta: nat,
    pub gamma: nat,
    pub s_l: Seq<nat>,
    pub s_r: Seq<nat>,
    pub rho: nat,
    pub tau_1: nat,
    pub tau_2: nat,
}

pub struct R1csProofModel {
    pub v_a: nat,
    pub v_b: nat,
    pub v_c: nat,
    pub s: nat,
    pub t1: nat,
    pub t2: nat,
    pub t_hat: nat,
    pub tau_x: nat,
    pub mu: nat,
    pub ipa: IpaProofModel,
}

impl R1csInstance {
    /// The full assignment `z`: instance then witness.
    pub open spec fn z(&self) -> Seq<Scalar> {
        self.instance_assignment@ + self.witness_assignment@
    }

    pub open spec fn wf(&self) -> bool {
        &&& matrix_wf(self.a@)
        &&& matrix_wf(self.b@)
        &&& matrix_wf(self.c@)
        &&& scalars_wf(self.z())
        &&& columns_below(self.a@, self.num_constraints as nat, self.z().len())
        &&& columns_below(self.b@, self.num_constraints as nat, self.z().len())
        &&& columns_below(self.c@, self.num_constraints as nat, self.z().len())
    }

    pub open spec fn model(&self) -> R1csModel {
        R1csModel {
            a: self.a@,
            b: self.b@,
            c: self.c@,
            m: self.num_constraints as nat,
            z: values(self.z()),
        }
    }
}

impl R1csIpaParams {
    pub open spec fn wf(&self) -> bool {
        &&& self.g_vec@.len() == 2 * self.n_pad
        &&& self.h_vec@.len() == 2 * self.n_pad
        &&& points_wf(self.g_vec@)
        &&& points_wf(self.h_vec@)
        &&& self.u.wf()
        &&& self.h_b.wf()
    }

    pub open spec fn model(&self) -> ParamsModel {
        ParamsModel {
            g: logs(self.g_vec@),
            h: logs(self.h_vec@),
            u: self.u.log(),
            h_b: self.h_b.log(),
            n: self.n_pad as nat,
        }
    }
}

impl ProverRandomness {
    pub open spec fn wf(&self, n_pad: nat) -> bool {
        &&& self.alpha.wf()
        &&& self.beta.wf()
        &&& self.gamma.wf()
        &&& self.rho.wf()
        &&& self.tau_1.wf()
        &&& self.tau_2.wf()
        &&& scalars_wf(self.s_l@)
        &&& scalars_wf(self.s_r@)
        &&& self.s_l@.len() == 2 * n_pad
        &&& self.s_r@.len() == 2 * n_pad
    }

    pub open spec fn model(&self) -> RandomnessModel {
        RandomnessModel {
            alpha: self.alpha.value(),
            beta: self.beta.value(),
            gamma: self.gamma.value(),
            s_l: values(self.s_l@),
            s_r: values(self.s_r@),
            rho: self.rho.value(),
            tau_1: self.tau_1.value(),
            tau_2: self.tau_2.value(),
        }
    }
}

impl R1csIpaProof {
    pub open spec fn wf(&self) -> bool {
        &&& self.v_a.wf()
        &&& self.v_b.wf()
        &&& self.v_c.wf()
        &&& self.s.wf()
        &&& self.t1_commit.wf()
        &&& self.t2_commit.wf()
        &&& self.t_hat.wf()
        &&& self.tau_x.wf()
        &&& self.mu.wf()
        &&& self.ipa.wf()
    }

    pub open spec fn model(&self) -> R1csProofModel {
        R1csProofModel {
            v_a: self.v_a.log(),
            v_b: self.v_b.log(),
            v_c: self.v_c.log(),
            s: self.s.log(),
            t1: self.t1_commit.log(),
            t2: self.t2_commit.log(),
            t_hat: self.t_hat.value(),
            tau_x: self.tau_x.value(),
            mu: self.mu.value(),
            ipa: self.ipa.model(),
        }
    }
}

/// `-v mod r` for each entry.
pub open spec fn neg_spec(v: Seq<nat>) -> Seq<nat> {
    Seq::new(v.len(), |i: int| ((fr_modulus() - v[i]) % (fr_modulus() as int)) as nat)
}

/// `(A z, B z, C z)`, cut or padded to length `n`.
pub open spec fn r1cs_products(inst: R1csModel, n: nat) -> (Seq<nat>, Seq<nat>, Seq<nat>) {
    (
        pad_spec(matvec_spec(inst.a, inst.z, inst.m), n),
        pad_spec(matvec_spec(inst.b, inst.z, inst.m), n),
        pad_spec(matvec_spec(inst.c, inst.z, inst.m), n),
    )
}

/// The transcript after the three commitments to `A z`, `B z`, `C z`.
pub open spec fn r1cs_log_commitments(n: nat, v_a: nat, v_b: nat, v_c: nat) -> Seq<Entry> {
    let log0 = with_dom_sep(
        seq![Entry::Message { label: dom_sep_label(), data: r1cs_ipa_label() }],
        (2 * n) as u64,
    );
    with_point(with_point(with_point(log0, v_a_label(), v_a), v_b_label(), v_b), v_c_label(), v_c)
}

/// The generators `h` rebased by `y^-i` on the first half.
pub open spec fn h_prime_spec(h: Seq<nat>, n: nat, yi: nat) -> Seq<nat> {
    hadamard_spec(h.take(n as int), powers_spec(yi, n)) + h.skip(n as int)
}

/// `y^n * B z || -y^n`.
pub open spec fn b_full_spec(bz: Seq<nat>, n: nat, y: nat) -> Seq<nat> {
    hadamard_spec(powers_spec(y, n), bz) + neg_spec(powers_spec(y, n))
}

/// What the prover sends; `None` where a challenge is not invertible.
#[verifier::opaque]
pub open spec fn r1cs_prove_spec(inst: R1csModel, p: ParamsModel, rnd: RandomnessModel) -> Option<
    R1csProofModel,
> {
    let n = p.n;
    let m = fr_modulus();
    let (az, bz, cz) = r1cs_products(inst, n);
    let v_a = (dot(az, p.g.take(n as int)) + p.h_b * rnd.alpha) % m;
    let v_c = (dot(cz, p.g.skip(n as int)) + p.h_b * rnd.gamma) % m;
    let v_b = (dot(bz, p.h.take(n as int)) + p.h_b * rnd.beta) % m;
    let log1 = r1cs_log_commitments(n, v_a, v_b, v_c);
    let y = challenge_value(log1, y_label());
    let log2 = with_challenge(log1, y_label());
    if !invertible(y) {
        None
    } else {
        let yi = field_inv(y);
        let a_full = az + cz;
        let b_full = b_full_spec(bz, n, y);
        let h_prime = h_prime_spec(p.h, n, yi);
        let s = (dot(rnd.s_l, p.g) + dot(rnd.s_r, h_prime) + p.h_b * rnd.rho) % m;
        let log3 = with_point(log2, s_label(), s);
        let t1 = (dot(a_full, rnd.s_r) + dot(rnd.s_l, b_full)) % m;
        let t2 = dot(rnd.s_l, rnd.s_r) % m;
        let t1c = (p.u * t1 + p.h_b * rnd.tau_1) % m;
        let t2c = (p.u * t2 + p.h_b * rnd.tau_2) % m;
        let log4 = with_point(with_point(log3, t_1_label(), t1c), t_2_label(), t2c);
        let x = challenge_value(log4, x_label());
        let log5 = with_challenge(log4, x_label());
        let l = lin(a_full, rnd.s_l, x);
        let r = lin(b_full, rnd.s_r, x);
        let t_hat = dot(l, r) % m;
        let tau_x = (rnd.tau_1 * x + rnd.tau_2 * x * x) % m;
        let mu = (rnd.alpha + rnd.beta + rnd.gamma + rnd.rho * x) % m;
        match ipa_prove_spec(log5, l, r, p.g, h_prime, p.u).0 {
            Some(ipa) => Some(
                R1csProofModel {
                    v_a,
                    v_b,
                    v_c,
                    s,
                    t1: t1c,
                    t2: t2c,
                    t_hat,
                    tau_x,
                    mu,
                    ipa,
                },
            ),
            None => None,
        }
    }
}

/// The verifier's verdict.
#[verifier::opaque]
pub open spec fn r1cs_verify_spec(p: ParamsModel, pf: R1csProofModel) -> bool {
    let n = p.n;
    let m = fr_modulus();
    let log1 = r1cs_log_commitments(n, pf.v_a, pf.v_b, pf.v_c);
    let y = challenge_value(log1, y_label());
    let log2 = with_challenge(log1, y_label());
    if !invertible(y) {
        false
    } else {
        let yi = field_inv(y);
        let h_prime = h_prime_spec(p.h, n, yi);
        let hneg = dot(neg_spec(powers_spec(y, n)), p.h.skip(n as int)) % m;
        let log3 = with_point(with_point(with_point(log2, s_label(), pf.s), t_1_label(), pf.t1), t_2_label(), pf.t2);
        let x = challenge_value(log3, x_label());
        let log4 = with_challenge(log3, x_label());
        let lhs = (p.u * pf.t_hat + p.h_b * pf.tau_x) % m;
        let rhs = (pf.t1 * x + pf.t2 * ((x * x) % m)) % m;
        if lhs != rhs {
            false
        } else {
            let p_initial = (((pf.v_a + pf.v_c + pf.v_b + hneg + pf.s * x + p.u * pf.t_hat) as int - (p.h_b * pf.mu) as int) % (m as int)) as nat;
            ipa_verify_spec(log4, pf.ipa.ls, pf.ipa.rs, pf.ipa.a, pf.ipa.b, p_initial, p.g, h_prime, p.u).0
        }
    }
}

/// A copy of `p`.
fn copied<T: Copy>(p: &[T]) -> (v: Vec<T>)
    ensures
        v@ == p@,
{
    let mut out: Vec<T> = Vec::new();
    let mut i: usize = 0;
    while i < p.len()
        invariant
            i <= p@.len(),
            out@ == p@.take(i as int),
        decreases p@.len() - i,
    {
        out.push(p[i]);
        i = i + 1;
        assert(out@ =~= p@.take(i as int));
    }
    assert(p@.take(p@.len() as int) =~= p@);
    out
}

/// `p || q`.
fn concat<T: Copy>(p: &[T], q: &[T]) -> (v: Vec<T>)
    ensures
        v@ == p@ + q@,
{
    let mut out = copied(p);
    let mut j: usize = 0;
    while j < q.len()
        invariant
            j <= q@.len(),
            out@ == p@ + q@.take(j as int),
        decreases q@.len() - j,
    {
        out.push(q[j]);
        j = j + 1;
        assert(out@ =~= p@ + q@.take(j as int));
    }
    assert(p@ + q@.take(q@.len() as int) =~= p@ + q@);
    out
}

/// `-v[i]` for each entry.
fn negate_all(v: &[Scalar]) -> (w: Vec<Scalar>)
    requires
        scalars_wf(v@),
    ensures
        scalars_wf(w@),
        values(w@) == neg_spec(values(v@)),
{
    let mut out: Vec<Scalar> = Vec::new();
    let mut i: usize = 0;
    while i < v.len()
        invariant
            i <= v@.len(),
            scalars_wf(v@),
            scalars_wf(out@),
            out@.len() == i,
            forall|j: int| 0 <= j < i ==> #[trigger] out@[j].value() == neg_spec(values(v@))[j],
        decreases v@.len() - i,
    {
        out.push(v[i].neg());
        i = i + 1;
    }
    assert(values(out@) =~= neg_spec(values(v@)));
    out
}

/// `[s[i]] h[i]` over the common length.
fn scale_points(h: &[Point], s: &[Scalar]) -> (v: Vec<Point>)
    requires
        points_wf(h@),
        scalars_wf(s@),
    ensures
        points_wf(v@),
        logs(v@) == hadamard_spec(logs(h@), values(s@)),
{
    let n = if h.len() <= s.len() {
        h.len()
    } else {
        s.len()
    };
    let mut out: Vec<Point> = Vec::new();
    let mut i: usize = 0;
    while i < n
        invariant
            n == min_len(h@.len(), s@.len()),
            i <= n,
            points_wf(h@),
            scalars_wf(s@),
            points_wf(out@),
            out@.len() == i,
            forall|j: int|
                0 <= j < i ==> #[trigger] out@[j].log() == (h@[j].log() * s@[j].value())
                    % fr_modulus(),
        decreases n - i,
    {
        out.push(h[i].mul(&s[i]));
        i = i + 1;
    }
    assert(logs(out@) =~= hadamard_spec(logs(h@), values(s@)));
    out
}

/// `(p[i] + s[i] x)` over the common length.
fn lin_comb(p: &[Scalar], s: &[Scalar], x: &Scalar) -> (v: Vec<Scalar>)
    requires
        scalars_wf(p@),
        scalars_wf(s@),
        x.wf(),
    ensures
        scalars_wf(v@),
        values(v@) == lin(values(p@), values(s@), x.value()),
{
    let n = if p.len() <= s.len() {
        p.len()
    } else {
        s.len()
    };
    let mut out: Vec<Scalar> = Vec::new();
    let mut i: usize = 0;
    while i < n
        invariant
            n == min_len(p@.len(), s@.len()),
            i <= n,
            scalars_wf(p@),
            scalars_wf(s@),
            x.wf(),
            scalars_wf(out@),
            out@.len() == i,
            forall|j: int|
                0 <= j < i ==> #[trigger] out@[j].value() == (p@[j].value() + s@[j].value()
                    * x.value()) % fr_modulus(),
        decreases n - i,
    {
        let t = p[i].add(&s[i].mul(x));
        proof {
            let (pv, sv) = (p@[i as int].value(), s@[i as int].value());
            assert(p@[i as int].wf());
            vstd::arithmetic::div_mod::lemma_small_mod(pv, fr_modulus());
            lemma_add_mod(pv, sv * x.value());
        }
        out.push(t);
        i = i + 1;
    }
    assert(values(out@) =~= lin(values(p@), values(s@), x.value()));
    out
}

pub proof fn lemma_values_concat(p: Seq<Scalar>, q: Seq<Scalar>)
    ensures
        values(p + q) == values(p) + values(q),
{
    assert(values(p + q) =~= values(p) + values(q));
}

proof fn lemma_logs_concat(p: Seq<Point>, q: Seq<Point>)
    ensures
        logs(p + q) == logs(p) + logs(q),
{
    assert(logs(p + q) =~= logs(p) + logs(q));
}

/// Proves that the instance's assignment satisfies its constraints, with the
/// prover's random choices given. Returns `None` where a challenge drawn
/// from the transcript is zero.
pub fn prove_r1cs_with_randomness(
    inst: &R1csInstance,
    params: &R1csIpaParams,
    rnd: &ProverRandomness,
) -> (res: Option<R1csIpaProof>)
    requires
        inst.wf(),
        params.wf(),
        is_pow2(params.n_pad as nat),
        rnd.wf(params.n_pad as nat),
        inst.num_constraints <= params.n_pad,
    ensures
        match res {
            Some(p) => p.wf() && r1cs_prove_spec(inst.model(), params.model(), rnd.model()) == Some(
                p.model(),
            ),
            None => r1cs_prove_spec(inst.model(), params.model(), rnd.model()) is None,
        },
{
    reveal(r1cs_prove_spec);
    let ghost mm = fr_modulus();
    let m = inst.num_constraints;
    let n = params.n_pad;
    let z = concat(&inst.instance_assignment, &inst.witness_assignment);
    let az = pad_zero(sparse_matvec(&inst.a, &z, m), n);
    let bz = pad_zero(sparse_matvec(&inst.b, &z, m), n);
    let cz = pad_zero(sparse_matvec(&inst.c, &z, m), n);
    let (g_lo, g_hi) = params.g_vec.as_slice().split_at(n);
    let (h_lo, h_hi) = params.h_vec.as_slice().split_at(n);
    proof {
        lemma_logs_split(params.g_vec@, n as int);
        lemma_logs_split(params.h_vec@, n as int);
    }
    let v_a = pedersen_vec(&az, g_lo).add(&params.h_b.mul(&rnd.alpha));
    let v_c = pedersen_vec(&cz, g_hi).add(&params.h_b.mul(&rnd.gamma));
    let v_b = pedersen_vec(&bz, h_lo).add(&params.h_b.mul(&rnd.beta));
    proof {
        let hb = params.h_b.log();
        lemma_add_mod(dot(values(az@), logs(g_lo@)), hb * rnd.alpha.value());
        lemma_add_mod(dot(values(cz@), logs(g_hi@)), hb * rnd.gamma.value());
        lemma_add_mod(dot(values(bz@), logs(h_lo@)), hb * rnd.beta.value());
        vstd::arithmetic::div_mod::lemma_mod_twice(dot(values(az@), logs(g_lo@)) as int, mm as int);
        vstd::arithmetic::div_mod::lemma_mod_twice(dot(values(cz@), logs(g_hi@)) as int, mm as int);
        vstd::arithmetic::div_mod::lemma_mod_twice(dot(values(bz@), logs(h_lo@)) as int, mm as int);
        vstd::arithmetic::div_mod::lemma_mod_twice((hb * rnd.alpha.value()) as int, mm as int);
        vstd::arithmetic::div_mod::lemma_mod_twice((hb * rnd.gamma.value()) as int, mm as int);
        vstd::arithmetic::div_mod::lemma_mod_twice((hb * rnd.beta.value()) as int, mm as int);
    }
    let mut transcript = transcript_new(label_r1cs_ipa());
    let two_n = params.g_vec.len();
    transcript.dom_sep(two_n as u64);
    transcript.append_point(label_v_a(), &v_a);
    transcript.append_point(label_v_b(), &v_b);
    transcript.append_point(label_v_c(), &v_c);
    let y = transcript.get_challenge(label_y());
    let y_pow = powers_of(y, n);
    let y_inv = match y.inverse() {
        Some(v) => v,
        None => {
            proof {
                crate::ipa::lemma_zero_not_invertible();
            }
            return None;
        },
    };
    let y_pow_inv = powers_of(y_inv, n);
    let a_full = concat(&az, &cz);
    let b_lo = hadamard(&y_pow, &bz);
    let b_hi = negate_all(&y_pow);
    let b_full = concat(&b_lo, &b_hi);
    let h_lo_rebased = scale_points(h_lo, &y_pow_inv);
    let h_prime = concat(&h_lo_rebased, h_hi);
    proof {
        lemma_values_concat(az@, cz@);
        lemma_values_concat(b_lo@, b_hi@);
        lemma_logs_concat(h_lo_rebased@, h_hi@);
        assert(points_wf(h_prime@));
    }
    let s_commit = pedersen_vec(&rnd.s_l, &params.g_vec).add(&pedersen_vec(&rnd.s_r, &h_prime)).add(
        &params.h_b.mul(&rnd.rho),
    );
    proof {
        let d1 = dot(values(rnd.s_l@), logs(params.g_vec@));
        let d2 = dot(values(rnd.s_r@), logs(h_prime@));
        let e = params.h_b.log() * rnd.rho.value();
        lemma_add_mod(d1, d2);
        lemma_add_mod(d1 + d2, e);
        vstd::arithmetic::div_mod::lemma_mod_twice((d1 + d2) as int, mm as int);
        vstd::arithmetic::div_mod::lemma_mod_twice(e as int, mm as int);
    }
    transcript.append_point(label_s(), &s_commit);
    let t_1 = inner_product(&a_full, &rnd.s_r).add(&inner_product(&rnd.s_l, &b_full));
    let t_2 = inner_product(&rnd.s_l, &rnd.s_r);
    proof {
        let d1 = dot(values(a_full@), values(rnd.s_r@));
        let d2 = dot(values(rnd.s_l@), values(b_full@));
        lemma_add_mod(d1, d2);
    }
    let t1_commit = params.u.mul(&t_1).add(&params.h_b.mul(&rnd.tau_1));
    let t2_commit = params.u.mul(&t_2).add(&params.h_b.mul(&rnd.tau_2));
    proof {
        let e1 = params.h_b.log() * rnd.tau_1.value();
        let e2 = params.h_b.log() * rnd.tau_2.value();
        lemma_add_mod(params.u.log() * t_1.value(), e1);
        lemma_add_mod(params.u.log() * t_2.value(), e2);
        vstd::arithmetic::div_mod::lemma_mod_twice((params.u.log() * t_1.value()) as int, mm as int);
        vstd::arithmetic::div_mod::lemma_mod_twice((params.u.log() * t_2.value()) as int, mm as int);
        vstd::arithmetic::div_mod::lemma_mod_twice(e1 as int, mm as int);
        vstd::arithmetic::div_mod::lemma_mod_twice(e2 as int, mm as int);
    }
    transcript.append_point(label_t_1(), &t1_commit);
    transcript.append_point(label_t_2(), &t2_commit);
    let x = transcript.get_challenge(label_x());
    let l_eval = lin_comb(&a_full, &rnd.s_l, &x);
    let r_eval = lin_comb(&b_full, &rnd.s_r, &x);
    let t_hat = inner_product(&l_eval, &r_eval);
    let tau_x = rnd.tau_1.mul(&x).add(&rnd.tau_2.mul(&x).mul(&x));
    let mu = rnd.alpha.add(&rnd.beta).add(&rnd.gamma).add(&rnd.rho.mul(&x));
    proof {
        let (t1v, t2v, xv) = (rnd.tau_1.value(), rnd.tau_2.value(), x.value());
        lemma_mul_mod(t2v * xv, xv);
        lemma_add_mod(t1v * xv, t2v * xv * xv);
        vstd::arithmetic::div_mod::lemma_mod_twice((t1v * xv) as int, mm as int);
        let (a, b, c, r) = (rnd.alpha.value(), rnd.beta.value(), rnd.gamma.value(), rnd.rho.value());
        lemma_add_mod(a, b);
        lemma_add_mod(a + b, c);
        lemma_add_mod(a + b + c, r * xv);
        vstd::arithmetic::div_mod::lemma_small_mod(a, mm);
        vstd::arithmetic::div_mod::lemma_small_mod(b, mm);
        vstd::arithmetic::div_mod::lemma_small_mod(c, mm);
        vstd::arithmetic::div_mod::lemma_mod_twice((a + b) as int, mm as int);
        vstd::arithmetic::div_mod::lemma_mod_twice((a + b + c) as int, mm as int);
        vstd::arithmetic::div_mod::lemma_mod_twice((r * xv) as int, mm as int);
        assert(is_pow2((2 * n) as nat));
    }
    let g_copy = copied(params.g_vec.as_slice());
    let ipa = match prove_ipa(&mut transcript, l_eval, r_eval, g_copy, h_prime, params.u) {
        Some(p) => p,
        None => {
            return None;
        },
    };
    Some(
        R1csIpaProof {
            v_a,
            v_b,
            v_c,
            s: s_commit,
            t1_commit,
            t2_commit,
            t_hat,
            tau_x,
            mu,
            ipa,
        },
    )
}

/// The verifier's chain of group operations for the initial commitment of
/// the inner-product argument computes `va + vc + vb + hn + sx + ut - hm`.
proof fn lemma_p_initial(va: int, vc: int, vb: int, hn: int, sx: int, hm: int, ut: int)
    requires
        0 <= va,
        0 <= vc,
        0 <= vb,
        0 <= hn,
        0 <= sx,
        0 <= hm,
        0 <= ut,
    ensures
        ({
            let mm = fr_modulus() as int;
            let p1 = (va + vc) % mm;
            let p2 = (p1 + vb) % mm;
            let p3 = (p2 + hn) % mm;
            let p4 = (p3 + sx % mm) % mm;
            let p5 = (p4 + mm - hm % mm) % mm;
            (p5 + ut % mm) % mm == (va + vc + vb + hn + sx + ut - hm) % mm
        }),
{
    let mm = fr_modulus() as int;
    let p1 = (va + vc) % mm;
    let p2 = (p1 + vb) % mm;
    let p3 = (p2 + hn) % mm;
    let p4 = (p3 + sx % mm) % mm;
    let p5 = (p4 + mm - hm % mm) % mm;
    let p6 = (p5 + ut % mm) % mm;
    crate::algebra::lemma_eqm_mod(va + vc);
    crate::algebra::lemma_eqm_add(p1, va + vc, vb, vb);
    crate::algebra::lemma_eqm_mod(p1 + vb);
    crate::algebra::lemma_eqm_add(p2, va + vc + vb, hn, hn);
    crate::algebra::lemma_eqm_mod(p2 + hn);
    crate::algebra::lemma_eqm_mod(sx);
    crate::algebra::lemma_eqm_add(p3, va + vc + vb + hn, sx % mm, sx);
    crate::algebra::lemma_eqm_mod(p3 + sx % mm);
    crate::algebra::lemma_eqm_mod(hm);
    assert(crate::algebra::eqm(mm - hm % mm, -hm)) by {
        vstd::arithmetic::div_mod::lemma_mod_self_0(mm);
        assert(crate::algebra::eqm(mm, 0));
        crate::algebra::lemma_eqm_mul(-1, -1, hm % mm, hm);
        crate::algebra::lemma_eqm_add(mm, 0, -1 * (hm % mm), -1 * hm);
    }
    crate::algebra::lemma_eqm_add(p4, va + vc + vb + hn + sx, mm - hm % mm, -hm);
    crate::algebra::lemma_eqm_mod(p4 + mm - hm % mm);
    crate::algebra::lemma_eqm_mod(ut);
    crate::algebra::lemma_eqm_add(p5, va + vc + vb + hn + sx - hm, ut % mm, ut);
    crate::algebra::lemma_eqm_mod(p5 + ut % mm);
    let target = va + vc + vb + hn + sx + ut - hm;
    assert(crate::algebra::eqm(p6, target));
    vstd::arithmetic::div_mod::lemma_mod_bound(p5 + ut % mm, mm);
    vstd::arithmetic::div_mod::lemma_mod_bound(target, mm);
    crate::algebra::lemma_eqm_mod(target);
    crate::algebra::lemma_eqm_small(p6, target % mm);
}

/// Checks a proof against the parameters. Returns `false` where a
/// challenge drawn from the transcript is zero.
pub fn verify_r1cs(params: &R1csIpaParams, proof: &R1csIpaProof) -> (ok: bool)
    requires
        params.wf(),
        proof.wf(),
    ensures
        ok == r1cs_verify_spec(params.model(), proof.model()),
{
    reveal(r1cs_verify_spec);
    let ghost mm = fr_modulus() as int;
    let n = params.n_pad;
    let mut transcript = transcript_new(label_r1cs_ipa());
    let two_n = params.g_vec.len();
    transcript.dom_sep(two_n as u64);
    transcript.append_point(label_v_a(), &proof.v_a);
    transcript.append_point(label_v_b(), &proof.v_b);
    transcript.append_point(label_v_c(), &proof.v_c);
    let y = transcript.get_challenge(label_y());
    let y_pow = powers_of(y, n);
    let y_inv = match y.inverse() {
        Some(v) => v,
        None => {
            proof {
                crate::ipa::lemma_zero_not_invertible();
            }
            return false;
        },
    };
    let y_pow_inv = powers_of(y_inv, n);
    let (h_lo, h_hi) = params.h_vec.as_slice().split_at(n);
    proof {
        lemma_logs_split(params.h_vec@, n as int);
    }
    let h_lo_rebased = scale_points(h_lo, &y_pow_inv);
    let h_prime = concat(&h_lo_rebased, h_hi);
    proof {
        lemma_logs_concat(h_lo_rebased@, h_hi@);
        assert(points_wf(h_prime@));
    }
    let neg_y_pow = negate_all(&y_pow);
    let h_hi_neg_y_pow = pedersen_vec(&neg_y_pow, h_hi);
    transcript.append_point(label_s(), &proof.s);
    transcript.append_point(label_t_1(), &proof.t1_commit);
    transcript.append_point(label_t_2(), &proof.t2_commit);
    let x = transcript.get_challenge(label_x());
    let check_a_lhs = params.u.mul(&proof.t_hat).add(&params.h_b.mul(&proof.tau_x));
    let x_sq = x.mul(&x);
    let check_a_rhs = proof.t1_commit.mul(&x).add(&proof.t2_commit.mul(&x_sq));
    proof {
        let e1 = params.u.log() * proof.t_hat.value();
        let e2 = params.h_b.log() * proof.tau_x.value();
        lemma_add_mod(e1, e2);
        vstd::arithmetic::div_mod::lemma_mod_twice(e1 as int, mm);
        vstd::arithmetic::div_mod::lemma_mod_twice(e2 as int, mm);
        let f1 = proof.t1_commit.log() * x.value();
        let f2 = proof.t2_commit.log() * x_sq.value();
        lemma_add_mod(f1, f2);
        vstd::arithmetic::div_mod::lemma_mod_twice(f1 as int, mm);
        vstd::arithmetic::div_mod::lemma_mod_twice(f2 as int, mm);
    }
    if !check_a_lhs.equals(&check_a_rhs) {
        return false;
    }
    let s_x = proof.s.mul(&x);
    let hb_mu = params.h_b.mul(&proof.mu);
    let p_base = proof.v_a.add(&proof.v_c).add(&proof.v_b).add(&h_hi_neg_y_pow).add(&s_x).sub(&hb_mu);
    let u_t = params.u.mul(&proof.t_hat);
    let p_initial = p_base.add(&u_t);
    proof {
        lemma_p_initial(
            proof.v_a.log() as int,
            proof.v_c.log() as int,
            proof.v_b.log() as int,
            h_hi_neg_y_pow.log() as int,
            (proof.s.log() * x.value()) as int,
            (params.h_b.log() * proof.mu.value()) as int,
            (params.u.log() * proof.t_hat.value()) as int,
        );
    }
    let g_copy = copied(params.g_vec.as_slice());
    proof {
        lemma_ipa_shapes_equal(
            crate::linalg::min_len(proof.ipa.l_vec@.len(), proof.ipa.r_vec@.len()),
            g_copy@.len(),
        );
    }
    verify_ipa(&mut transcript, &proof.ipa, p_initial, g_copy, h_prime, params.u)
}

/// Every constraint holds: `(A z)_i (B z)_i = (C z)_i` modulo `r`.
pub open spec fn r1cs_satisfied(inst: R1csModel) -> bool {
    forall|i: int|
        0 <= i < inst.m ==> (#[trigger] matvec_spec(inst.a, inst.z, inst.m)[i] * matvec_spec(
            inst.b,
            inst.z,
            inst.m,
        )[i]) % fr_modulus() == matvec_spec(inst.c, inst.z, inst.m)[i]
}

/// The inner product `<A z || C z, y^n * B z || -y^n>` of a satisfied
/// system vanishes.
proof fn lemma_constraint_product_zero(az: Seq<nat>, bz: Seq<nat>, cz: Seq<nat>, yp: Seq<nat>, k: nat)
    requires
        az.len() == bz.len(),
        az.len() == cz.len(),
        az.len() == yp.len(),
        k <= az.len(),
        forall|i: int| 0 <= i < az.len() ==> eqm((#[trigger] az[i] * bz[i]) as int, cz[i] as int),
    ensures
        eqm(
            (dot_prefix(az, hadamard_spec(yp, bz), k) + dot_prefix(cz, neg_spec(yp), k)) as int,
            0,
        ),
    decreases k,
{
    let m = fr_modulus() as int;
    if k > 0 {
        let j = (k - 1) as nat;
        lemma_constraint_product_zero(az, bz, cz, yp, j);
        let (a, b, c, y) = (az[j as int] as int, bz[j as int] as int, cz[j as int] as int, yp[j as int] as int);
        let hh = hadamard_spec(yp, bz);
        let nn = neg_spec(yp);
        assert(hh[j as int] == (y * b) % m);
        assert(nn[j as int] == (m - y) % m);
        lemma_eqm_mod(y * b);
        lemma_eqm_mul(a, a, (y * b) % m, y * b);
        lemma_eqm_mod(m - y);
        assert(eqm(m - y, -y)) by {
            vstd::arithmetic::div_mod::lemma_mod_add_multiples_vanish(-y, m);
        }
        lemma_eqm_mul(c, c, (m - y) % m, -y);
        assert(eqm(a * b, c));
        lemma_eqm_mul(y, y, a * b, c);
        assert(a * (y * b) + c * (-y) == y * (a * b) - y * c) by (nonlinear_arith);
        lemma_eqm_add(a * ((y * b) % m), a * (y * b), c * ((m - y) % m), c * (-y));
        assert(eqm(y * (a * b) - y * c, 0)) by {
            lemma_eqm_add(y * (a * b), y * c, -(y * c), -(y * c));
        }
        let prev = dot_prefix(az, hh, j) + dot_prefix(cz, nn, j);
        lemma_eqm_add(prev as int, 0, a * hh[j as int] + c * nn[j as int], 0);
        assert(dot_prefix(az, hh, k) == dot_prefix(az, hh, j) + a * hh[j as int]);
        assert(dot_prefix(cz, nn, k) == dot_prefix(cz, nn, j) + c * nn[j as int]);
    }
}

/// The check on `t_hat`: with `<l, r> = D0 + x A + x^2 B` and `D0 = 0`,
/// `[t_hat] u + [tau_x] h_b = [x] T_1 + [x^2] T_2`.
proof fn lemma_check_t(u: nat, hb: nat, tau1: nat, tau2: nat, x: nat, d0: int, a: nat, b: nat, lr: nat)
    requires
        eqm(d0, 0),
        eqm(lr as int, d0 + x * a + (x * x) * b),
    ensures
        ({
            let m = fr_modulus();
            let t_hat = lr % m;
            let tau_x = (tau1 * x + tau2 * x * x) % m;
            let t1c = (u * (a % m) + hb * tau1) % m;
            let t2c = (u * (b % m) + hb * tau2) % m;
            (u * t_hat + hb * tau_x) % m == (t1c * x + t2c * ((x * x) % m)) % m
        }),
{
    let m = fr_modulus() as int;
    let (ui, hbi, t1, t2, xi, ai, bi) = (u as int, hb as int, tau1 as int, tau2 as int, x as int, a as int, b as int);
    let xx = xi * xi;
    let t_hat = (lr as int) % m;
    let tau_x = (t1 * xi + t2 * xi * xi) % m;
    let t1c = (ui * (ai % m) + hbi * t1) % m;
    let t2c = (ui * (bi % m) + hbi * t2) % m;
    // The left side.
    lemma_eqm_mod(lr as int);
    lemma_eqm_add(d0, 0, xi * ai + xx * bi, xi * ai + xx * bi);
    assert(eqm(t_hat, xi * ai + xx * bi));
    lemma_eqm_mod(t1 * xi + t2 * xi * xi);
    lemma_eqm_mul(ui, ui, t_hat, xi * ai + xx * bi);
    lemma_eqm_mul(hbi, hbi, tau_x, t1 * xi + t2 * xi * xi);
    lemma_eqm_add(ui * t_hat, ui * (xi * ai + xx * bi), hbi * tau_x, hbi * (t1 * xi + t2 * xi * xi));
    let lhs = ui * t_hat + hbi * tau_x;
    let lhs_e = ui * (xi * ai + xx * bi) + hbi * (t1 * xi + t2 * xi * xi);
    // The right side.
    lemma_eqm_mod(ai);
    lemma_eqm_mod(bi);
    lemma_eqm_mul(ui, ui, ai % m, ai);
    lemma_eqm_mul(ui, ui, bi % m, bi);
    lemma_eqm_add(ui * (ai % m), ui * ai, hbi * t1, hbi * t1);
    lemma_eqm_add(ui * (bi % m), ui * bi, hbi * t2, hbi * t2);
    lemma_eqm_mod(ui * (ai % m) + hbi * t1);
    lemma_eqm_mod(ui * (bi % m) + hbi * t2);
    lemma_eqm_mod(xx);
    lemma_eqm_mul(t1c, ui * ai + hbi * t1, xi, xi);
    lemma_eqm_mul(t2c, ui * bi + hbi * t2, xx % m, xx);
    lemma_eqm_add(t1c * xi, (ui * ai + hbi * t1) * xi, t2c * (xx % m), (ui * bi + hbi * t2) * xx);
    let rhs = t1c * xi + t2c * (xx % m);
    let rhs_e = (ui * ai + hbi * t1) * xi + (ui * bi + hbi * t2) * xx;
    assert(ui * (xi * ai + xx * bi) == (ui * ai) * xi + (ui * bi) * xx) by (nonlinear_arith);
    assert(hbi * (t1 * xi + t2 * xi * xi) == (hbi * t1) * xi + (hbi * t2) * xx) by (nonlinear_arith)
        requires
            xx == xi * xi,
    ;
    assert((ui * ai + hbi * t1) * xi == (ui * ai) * xi + (hbi * t1) * xi) by (nonlinear_arith);
    assert((ui * bi + hbi * t2) * xx == (ui * bi) * xx + (hbi * t2) * xx) by (nonlinear_arith);
    assert(lhs_e == rhs_e);
    assert(eqm(lhs, rhs));
    vstd::arithmetic::div_mod::lemma_mod_bound(lhs, m);
    vstd::arithmetic::div_mod::lemma_mod_bound(rhs, m);
    lemma_eqm_mod(lhs);
    lemma_eqm_mod(rhs);
    lemma_eqm_small(lhs % m, rhs % m);
}

/// The verifier's initial commitment for the inner-product argument is the
/// commitment to the prover's vectors `l`, `r`: the blinding terms in
/// `h_b` cancel.
proof fn lemma_initial_commitment(
    dag: nat,
    dcg: nat,
    dbh: nat,
    hneg: nat,
    dslg: nat,
    dsrh: nat,
    hb: nat,
    alpha: nat,
    beta: nat,
    gamma: nat,
    rho: nat,
    x: nat,
    u: nat,
    lr: nat,
    lg: nat,
    rh: nat,
)
    requires
        eqm(lg as int, (dag + dcg + x * dslg) as int),
        eqm(rh as int, (dbh + hneg + x * dsrh) as int),
    ensures
        ({
            let m = fr_modulus();
            let v_a = (dag + hb * alpha) % m;
            let v_c = (dcg + hb * gamma) % m;
            let v_b = (dbh + hb * beta) % m;
            let s = (dslg + dsrh + hb * rho) % m;
            let mu = (alpha + beta + gamma + rho * x) % m;
            let t_hat = lr % m;
            (((v_a + v_c + v_b + hneg % m + s * x + u * t_hat) as int - (hb * mu) as int) % (m as int))
                as nat == (lg + rh + u * lr) % m
        }),
{
    let m = fr_modulus() as int;
    let (hbi, xi, ui) = (hb as int, x as int, u as int);
    let e_a = dag + hbi * alpha;
    let e_c = dcg + hbi * gamma;
    let e_b = dbh + hbi * beta;
    let e_s = dslg + dsrh + hbi * rho;
    let e_mu = alpha + beta + gamma + rho * xi;
    lemma_eqm_mod(e_a);
    lemma_eqm_mod(e_c);
    lemma_eqm_mod(e_b);
    lemma_eqm_mod(hneg as int);
    lemma_eqm_mod(e_s);
    lemma_eqm_mod(e_mu);
    lemma_eqm_mod(lr as int);
    lemma_eqm_mul(e_s % m, e_s, xi, xi);
    lemma_eqm_mul(ui, ui, (lr as int) % m, lr as int);
    lemma_eqm_mul(hbi, hbi, e_mu % m, e_mu);
    lemma_eqm_add(e_a % m, e_a, e_c % m, e_c);
    lemma_eqm_add(e_a % m + e_c % m, e_a + e_c, e_b % m, e_b);
    lemma_eqm_add(e_a % m + e_c % m + e_b % m, e_a + e_c + e_b, (hneg as int) % m, hneg as int);
    lemma_eqm_add(
        e_a % m + e_c % m + e_b % m + (hneg as int) % m,
        e_a + e_c + e_b + hneg,
        (e_s % m) * xi,
        e_s * xi,
    );
    lemma_eqm_add(
        e_a % m + e_c % m + e_b % m + (hneg as int) % m + (e_s % m) * xi,
        e_a + e_c + e_b + hneg + e_s * xi,
        ui * ((lr as int) % m),
        ui * lr,
    );
    lemma_eqm_mul(-1, -1, hbi * (e_mu % m), hbi * e_mu);
    let sum_p = e_a % m + e_c % m + e_b % m + (hneg as int) % m + (e_s % m) * xi + ui * ((lr as int) % m);
    let sum_e = e_a + e_c + e_b + hneg + e_s * xi + ui * lr;
    lemma_eqm_add(sum_p, sum_e, -1 * (hbi * (e_mu % m)), -1 * (hbi * e_mu));
    let total_e = sum_e - hbi * e_mu;
    assert(e_s * xi == xi * dslg + xi * dsrh + hbi * (rho * xi)) by (nonlinear_arith)
        requires
            e_s == dslg + dsrh + hbi * rho,
    ;
    assert(hbi * e_mu == hbi * alpha + hbi * beta + hbi * gamma + hbi * (rho * xi)) by (nonlinear_arith)
        requires
            e_mu == alpha + beta + gamma + rho * xi,
    ;
    assert(total_e == (dag + dcg + xi * dslg) + (dbh + hneg + xi * dsrh) + ui * lr);
    lemma_eqm_add(lg as int, (dag + dcg + x * dslg) as int, rh as int, (dbh + hneg + x * dsrh) as int);
    lemma_eqm_add((lg + rh) as int, ((dag + dcg + x * dslg) + (dbh + hneg + x * dsrh)) as int, ui * lr, ui * lr);
    let lhs = sum_p - hbi * (e_mu % m);
    assert(eqm(lhs, (lg + rh + u * lr) as int));
    vstd::arithmetic::div_mod::lemma_mod_bound(lhs, m);
    lemma_eqm_mod(lhs);
    lemma_eqm_mod((lg + rh + u * lr) as int);
    lemma_eqm_small(lhs % m, ((lg + rh + u * lr) as int) % m);
}

/// Completeness of the argument: for parameters with `2 n_pad` generators
/// per vector (`n_pad` a power of two), a constraint system with at most
/// `n_pad` constraints whose assignment satisfies every constraint, and any
/// random choices of the prover, whenever the prover gets through (no
/// challenge is zero), the verifier accepts its proof.
pub proof fn lemma_r1cs_completeness(inst: R1csModel, p: ParamsModel, rnd: RandomnessModel)
    requires
        p.g.len() == 2 * p.n,
        p.h.len() == 2 * p.n,
        is_pow2(p.n),
        rnd.s_l.len() == 2 * p.n,
        rnd.s_r.len() == 2 * p.n,
        inst.m <= p.n,
        r1cs_satisfied(inst),
    ensures
        r1cs_prove_spec(inst, p, rnd) matches Some(pf) ==> r1cs_verify_spec(p, pf),
{
    reveal(r1cs_prove_spec);
    reveal(r1cs_verify_spec);
    let n = p.n;
    let ni = n as int;
    let m = fr_modulus();
    let (az, bz, cz) = r1cs_products(inst, n);
    let (g_lo, g_hi, h_lo, h_hi) = (p.g.take(ni), p.g.skip(ni), p.h.take(ni), p.h.skip(ni));
    let v_a = (dot(az, g_lo) + p.h_b * rnd.alpha) % m;
    let v_c = (dot(cz, g_hi) + p.h_b * rnd.gamma) % m;
    let v_b = (dot(bz, h_lo) + p.h_b * rnd.beta) % m;
    let log1 = r1cs_log_commitments(n, v_a, v_b, v_c);
    let y = challenge_value(log1, y_label());
    let log2 = with_challenge(log1, y_label());
    if invertible(y) {
        let yi = field_inv(y);
        assert((y * yi) % m == 1);
        let yp = powers_spec(y, n);
        let ypi = powers_spec(yi, n);
        let a_full = az + cz;
        let hh = hadamard_spec(yp, bz);
        let nn = neg_spec(yp);
        let b_full = hh + nn;
        let h_prime = h_prime_spec(p.h, n, yi);
        let s = (dot(rnd.s_l, p.g) + dot(rnd.s_r, h_prime) + p.h_b * rnd.rho) % m;
        let log3 = with_point(log2, s_label(), s);
        let ta = dot(a_full, rnd.s_r) + dot(rnd.s_l, b_full);
        let tb = dot(rnd.s_l, rnd.s_r);
        let t1c = (p.u * (ta % m) + p.h_b * rnd.tau_1) % m;
        let t2c = (p.u * (tb % m) + p.h_b * rnd.tau_2) % m;
        let log4 = with_point(with_point(log3, t_1_label(), t1c), t_2_label(), t2c);
        let x = challenge_value(log4, x_label());
        let log5 = with_challenge(log4, x_label());
        let l = lin(a_full, rnd.s_l, x);
        let r = lin(b_full, rnd.s_r, x);
        if let Some(ipa) = ipa_prove_spec(log5, l, r, p.g, h_prime, p.u).0 {
            // The constraint product vanishes.
            assert forall|i: int| 0 <= i < az.len() implies eqm((#[trigger] az[i] * bz[i]) as int, cz[i] as int) by {
                if i < inst.m {
                    let (a_i, b_i, c_i) = (matvec_spec(inst.a, inst.z, inst.m)[i], matvec_spec(inst.b, inst.z, inst.m)[i], matvec_spec(inst.c, inst.z, inst.m)[i]);
                    assert(az[i] == a_i && bz[i] == b_i && cz[i] == c_i);
                    assert((a_i * b_i) % m == c_i);
                    lemma_eqm_mod((a_i * b_i) as int);
                } else {
                    assert(az[i] == 0 && cz[i] == 0);
                    assert(az[i] * bz[i] == 0);
                }
            }
            lemma_constraint_product_zero(az, bz, cz, yp, n);
            crate::algebra::lemma_dot_concat(az, cz, hh, nn);
            let d0 = dot(a_full, b_full);
            assert(eqm(d0 as int, 0));
            // The inner product as a polynomial in x, and the check on t_hat.
            crate::algebra::lemma_dot_lin_both(a_full, rnd.s_l, b_full, rnd.s_r, x);
            lemma_check_t(p.u, p.h_b, rnd.tau_1, rnd.tau_2, x, d0 as int, ta, tb, dot(l, r));
            // The initial commitment.
            crate::algebra::lemma_dot_lin_left(a_full, rnd.s_l, x, p.g);
            assert(p.g =~= g_lo + g_hi);
            crate::algebra::lemma_dot_concat(az, cz, g_lo, g_hi);
            crate::algebra::lemma_dot_lin_left(b_full, rnd.s_r, x, h_prime);
            let hr = hadamard_spec(h_lo, ypi);
            crate::algebra::lemma_dot_concat(hh, nn, hr, h_hi);
            assert forall|i: int| 0 <= i < yp.len() implies eqm((#[trigger] yp[i] * ypi[i]) as int, 1) by {
                crate::algebra::lemma_pow_mod_inverse(y, yi, i as nat);
            }
            lemma_dot_rescale_full(yp, bz, h_lo, ypi);
            let dsrh = dot(rnd.s_r, h_prime);
            let hneg_e = dot(nn, h_hi);
            assert(eqm(dot(b_full, h_prime) as int, (dot(bz, h_lo) + hneg_e) as int)) by {
                lemma_eqm_add(dot(hh, hr) as int, dot(bz, h_lo) as int, hneg_e as int, hneg_e as int);
            }
            lemma_eqm_add(dot(b_full, h_prime) as int, (dot(bz, h_lo) + hneg_e) as int, (x * dsrh) as int, (x * dsrh) as int);
            lemma_initial_commitment(
                dot(az, g_lo),
                dot(cz, g_hi),
                dot(bz, h_lo),
                hneg_e,
                dot(rnd.s_l, p.g),
                dsrh,
                p.h_b,
                rnd.alpha,
                rnd.beta,
                rnd.gamma,
                rnd.rho,
                x,
                p.u,
                dot(l, r),
                dot(l, p.g),
                dot(r, h_prime),
            );
            // The inner-product argument.
            assert(is_pow2(2 * n));
            crate::ipa::lemma_ipa_completeness(log5, l, r, p.g, h_prime, p.u);
        }
    }
}

/// `sum_{i < k} yp[i] ((az[i] bz[i]) - cz[i])`: the residues of the
/// constraints, weighted by `yp`.
pub open spec fn weighted_residue(az: Seq<nat>, bz: Seq<nat>, cz: Seq<nat>, yp: Seq<nat>, k: nat) -> int
    decreases k,
{
    if k == 0 {
        0
    } else {
        weighted_residue(az, bz, cz, yp, (k - 1) as nat) + yp[k - 1] * (az[k - 1] * bz[k - 1]
            - cz[k - 1])
    }
}

/// `D(y) = sum_{i < n} y^i ((A z)_i (B z)_i - (C z)_i)` over the system's
/// constraints (padded with zero rows to `n`): zero for every `y` exactly
/// when each constraint holds, and otherwise a nonzero polynomial in `y` of
/// degree below `n`.
pub open spec fn constraint_residue(inst: R1csModel, n: nat, y: nat) -> int {
    let (az, bz, cz) = r1cs_products(inst, n);
    weighted_residue(az, bz, cz, powers_spec(y, n), n)
}

/// The challenge `y` that the verifier draws for the proof `pf`: from the
/// transcript that has absorbed the length and the commitments to `A z`,
/// `B z`, `C z`.
pub open spec fn r1cs_challenge_y(p: ParamsModel, pf: R1csProofModel) -> nat {
    challenge_value(r1cs_log_commitments(p.n, pf.v_a, pf.v_b, pf.v_c), y_label())
}

/// The prover's inner product `<A z || C z, y^n * B z || -y^n>` is the
/// weighted residue of the constraints, modulo `r`.
proof fn lemma_constraint_product_residue(az: Seq<nat>, bz: Seq<nat>, cz: Seq<nat>, yp: Seq<nat>, k: nat)
    requires
        az.len() == bz.len(),
        az.len() == cz.len(),
        az.len() == yp.len(),
        k <= az.len(),
    ensures
        eqm(
            (dot_prefix(az, hadamard_spec(yp, bz), k) + dot_prefix(cz, neg_spec(yp), k)) as int,
            weighted_residue(az, bz, cz, yp, k),
        ),
    decreases k,
{
    let m = fr_modulus() as int;
    if k > 0 {
        let j = (k - 1) as nat;
        lemma_constraint_product_residue(az, bz, cz, yp, j);
        let (a, b, c, y) = (az[j as int] as int, bz[j as int] as int, cz[j as int] as int, yp[j as int] as int);
        let hh = hadamard_spec(yp, bz);
        let nn = neg_spec(yp);
        assert(hh[j as int] == (y * b) % m);
        assert(nn[j as int] == (m - y) % m);
        lemma_eqm_mod(y * b);
        lemma_eqm_mul(a, a, (y * b) % m, y * b);
        lemma_eqm_mod(m - y);
        assert(eqm(m - y, -y)) by {
            vstd::arithmetic::div_mod::lemma_mod_add_multiples_vanish(-y, m);
        }
        lemma_eqm_mul(c, c, (m - y) % m, -y);
        assert(a * (y * b) + c * (-y) == y * (a * b - c)) by (nonlinear_arith);
        lemma_eqm_add(a * ((y * b) % m), a * (y * b), c * ((m - y) % m), c * (-y));
        let prev = dot_prefix(az, hh, j) + dot_prefix(cz, nn, j);
        lemma_eqm_add(
            prev as int,
            weighted_residue(az, bz, cz, yp, j),
            a * hh[j as int] + c * nn[j as int],
            y * (a * b - c),
        );
        assert(dot_prefix(az, hh, k) == dot_prefix(az, hh, j) + a * hh[j as int]);
        assert(dot_prefix(cz, nn, k) == dot_prefix(cz, nn, j) + c * nn[j as int]);
    }
}

/// The check on `t_hat`, for any `<l, r> = D0 + x A + x^2 B`: its two sides
/// differ by `[D0] u`.
proof fn lemma_check_t_residue(u: nat, hb: nat, tau1: nat, tau2: nat, x: nat, d0: int, a: nat, b: nat, lr: nat)
    requires
        eqm(lr as int, d0 + x * a + (x * x) * b),
    ensures
        ({
            let m = fr_modulus();
            let t_hat = lr % m;
            let tau_x = (tau1 * x + tau2 * x * x) % m;
            let t1c = (u * (a % m) + hb * tau1) % m;
            let t2c = (u * (b % m) + hb * tau2) % m;
            eqm((u * t_hat + hb * tau_x) as int, (t1c * x + t2c * ((x * x) % m)) as int + u * d0)
        }),
{
    let m = fr_modulus() as int;
    let (ui, hbi, t1, t2, xi, ai, bi) = (u as int, hb as int, tau1 as int, tau2 as int, x as int, a as int, b as int);
    let xx = xi * xi;
    let t_hat = (lr as int) % m;
    let tau_x = (t1 * xi + t2 * xi * xi) % m;
    let t1c = (ui * (ai % m) + hbi * t1) % m;
    let t2c = (ui * (bi % m) + hbi * t2) % m;
    lemma_eqm_mod(lr as int);
    assert(eqm(t_hat, d0 + xi * ai + xx * bi));
    lemma_eqm_mod(t1 * xi + t2 * xi * xi);
    lemma_eqm_mul(ui, ui, t_hat, d0 + xi * ai + xx * bi);
    lemma_eqm_mul(hbi, hbi, tau_x, t1 * xi + t2 * xi * xi);
    lemma_eqm_add(ui * t_hat, ui * (d0 + xi * ai + xx * bi), hbi * tau_x, hbi * (t1 * xi + t2 * xi * xi));
    let lhs = ui * t_hat + hbi * tau_x;
    let lhs_e = ui * (d0 + xi * ai + xx * bi) + hbi * (t1 * xi + t2 * xi * xi);
    lemma_eqm_mod(ai);
    lemma_eqm_mod(bi);
    lemma_eqm_mul(ui, ui, ai % m, ai);
    lemma_eqm_mul(ui, ui, bi % m, bi);
    lemma_eqm_add(ui * (ai % m), ui * ai, hbi * t1, hbi * t1);
    lemma_eqm_add(ui * (bi % m), ui * bi, hbi * t2, hbi * t2);
    lemma_eqm_mod(ui * (ai % m) + hbi * t1);
    lemma_eqm_mod(ui * (bi % m) + hbi * t2);
    lemma_eqm_mod(xx);
    lemma_eqm_mul(t1c, ui * ai + hbi * t1, xi, xi);
    lemma_eqm_mul(t2c, ui * bi + hbi * t2, xx % m, xx);
    lemma_eqm_add(t1c * xi, (ui * ai + hbi * t1) * xi, t2c * (xx % m), (ui * bi + hbi * t2) * xx);
    let rhs = t1c * xi + t2c * (xx % m);
    let rhs_e = (ui * ai + hbi * t1) * xi + (ui * bi + hbi * t2) * xx;
    lemma_eqm_add(rhs, rhs_e, ui * d0, ui * d0);
    assert(ui * (d0 + xi * ai + xx * bi) == ui * d0 + (ui * ai) * xi + (ui * bi) * xx) by (nonlinear_arith);
    assert(hbi * (t1 * xi + t2 * xi * xi) == (hbi * t1) * xi + (hbi * t2) * xx) by (nonlinear_arith)
        requires
            xx == xi * xi,
    ;
    assert((ui * ai + hbi * t1) * xi == (ui * ai) * xi + (hbi * t1) * xi) by (nonlinear_arith);
    assert((ui * bi + hbi * t2) * xx == (ui * bi) * xx + (hbi * t2) * xx) by (nonlinear_arith);
    assert(lhs_e == rhs_e + ui * d0);
    assert(eqm(lhs, rhs + ui * d0));
}

/// Soundness against a wrong assignment, for the proofs that an honest
/// prover makes: whenever the verifier accepts the proof made for an
/// assignment, `[D(y)] u` is the identity, where `D` is the weighted
/// residue of the constraints (`constraint_residue`) and `y` the
/// verifier's challenge. For an assignment that breaks a constraint `D` is
/// a nonzero polynomial of degree below `n`, so the verifier rejects unless
/// `y` is one of its roots or `u` is the identity.
pub proof fn lemma_r1cs_honest_soundness(inst: R1csModel, p: ParamsModel, rnd: RandomnessModel)
    requires
        rnd.s_l.len() == 2 * p.n,
        rnd.s_r.len() == 2 * p.n,
    ensures
        r1cs_prove_spec(inst, p, rnd) matches Some(pf) ==> (r1cs_verify_spec(p, pf) ==> eqm(
            p.u * constraint_residue(inst, p.n, r1cs_challenge_y(p, pf)),
            0,
        )),
{
    reveal(r1cs_prove_spec);
    reveal(r1cs_verify_spec);
    let n = p.n;
    let ni = n as int;
    let m = fr_modulus();
    let (az, bz, cz) = r1cs_products(inst, n);
    let v_a = (dot(az, p.g.take(ni)) + p.h_b * rnd.alpha) % m;
    let v_c = (dot(cz, p.g.skip(ni)) + p.h_b * rnd.gamma) % m;
    let v_b = (dot(bz, p.h.take(ni)) + p.h_b * rnd.beta) % m;
    let log1 = r1cs_log_commitments(n, v_a, v_b, v_c);
    let y = challenge_value(log1, y_label());
    let log2 = with_challenge(log1, y_label());
    if invertible(y) {
        let yi = field_inv(y);
        let yp = powers_spec(y, n);
        let a_full = az + cz;
        let hh = hadamard_spec(yp, bz);
        let nn = neg_spec(yp);
        let b_full = hh + nn;
        let h_prime = h_prime_spec(p.h, n, yi);
        let s = (dot(rnd.s_l, p.g) + dot(rnd.s_r, h_prime) + p.h_b * rnd.rho) % m;
        let log3 = with_point(log2, s_label(), s);
        let ta = dot(a_full, rnd.s_r) + dot(rnd.s_l, b_full);
        let tb = dot(rnd.s_l, rnd.s_r);
        let t1c = (p.u * (ta % m) + p.h_b * rnd.tau_1) % m;
        let t2c = (p.u * (tb % m) + p.h_b * rnd.tau_2) % m;
        let log4 = with_point(with_point(log3, t_1_label(), t1c), t_2_label(), t2c);
        let x = challenge_value(log4, x_label());
        let log5 = with_challenge(log4, x_label());
        let l = lin(a_full, rnd.s_l, x);
        let r = lin(b_full, rnd.s_r, x);
        if let Some(ipa) = ipa_prove_spec(log5, l, r, p.g, h_prime, p.u).0 {
            let pf = r1cs_prove_spec(inst, p, rnd)->0;
            if r1cs_verify_spec(p, pf) {
                assert(r1cs_challenge_y(p, pf) == y);
                let t_hat = dot(l, r) % m;
                let tau_x = (rnd.tau_1 * x + rnd.tau_2 * x * x) % m;
                assert((p.u * t_hat + p.h_b * tau_x) % m == (t1c * x + t2c * ((x * x) % m)) % m);
                // <l, r> as a polynomial in x.
                crate::algebra::lemma_dot_lin_both(a_full, rnd.s_l, b_full, rnd.s_r, x);
                let d0 = dot(a_full, b_full);
                lemma_check_t_residue(p.u, p.h_b, rnd.tau_1, rnd.tau_2, x, d0 as int, ta, tb, dot(l, r));
                let lhs = (p.u * t_hat + p.h_b * tau_x) as int;
                let rhs = (t1c * x + t2c * ((x * x) % m)) as int;
                assert(eqm(lhs, rhs));
                assert(eqm((p.u * d0) as int, 0)) by {
                    lemma_eqm_add(lhs, rhs + p.u * d0, -rhs, -rhs);
                    lemma_eqm_add(lhs, rhs, -rhs, -rhs);
                }
                // D0 is the weighted residue.
                crate::algebra::lemma_dot_concat(az, cz, hh, nn);
                lemma_constraint_product_residue(az, bz, cz, yp, n);
                let res = weighted_residue(az, bz, cz, yp, n);
                assert(eqm(d0 as int, res));
                lemma_eqm_mul(p.u as int, p.u as int, d0 as int, res);
                assert(constraint_residue(inst, n, y) == res);
            }
        }
    }
}

proof fn lemma_dot_rescale_full(v: Seq<nat>, b: Seq<nat>, h: Seq<nat>, w: Seq<nat>)
    requires
        v.len() == b.len(),
        v.len() == h.len(),
        v.len() == w.len(),
        forall|i: int| 0 <= i < v.len() ==> eqm((#[trigger] v[i] * w[i]) as int, 1),
    ensures
        eqm(dot(hadamard_spec(v, b), hadamard_spec(h, w)) as int, dot(b, h) as int),
{
    crate::algebra::lemma_dot_rescale(v, b, h, w, v.len());
}

/// Checks that every coefficient is canonical and every column among the
/// first `num_rows` rows is below `width`.
fn matrix_ok(m: &Matrix, num_rows: usize, width: usize) -> (b: bool)
    ensures
        b == (matrix_wf(m@) && columns_below(m@, num_rows as nat, width as nat)),
{
    let mut i: usize = 0;
    while i < m.len()
        invariant
            i <= m@.len(),
            forall|r: int, k: int| 0 <= r < i && 0 <= k < m@[r]@.len() ==> (#[trigger] m@[r]@[k]).0.wf(),
            forall|r: int, k: int|
                0 <= r < i && r < num_rows && 0 <= k < m@[r]@.len() ==> (#[trigger] m@[r]@[k]).1 < width,
        decreases m@.len() - i,
    {
        let row = &m[i];
        let mut k: usize = 0;
        while k < row.len()
            invariant
                i < m@.len(),
                row == &m@[i as int],
                k <= row@.len(),
                forall|j: int| 0 <= j < k ==> (#[trigger] row@[j]).0.wf(),
                forall|j: int| 0 <= j < k && i < num_rows ==> (#[trigger] row@[j]).1 < width,
            decreases row@.len() - k,
        {
            let (coeff, col) = row[k];
            if !coeff.is_canonical() {
                assert(!m@[i as int]@[k as int].0.wf());
                return false;
            }
            if i < num_rows && col >= width {
                assert(m@[i as int]@[k as int].1 >= width);
                return false;
            }
            k = k + 1;
        }
        i = i + 1;
    }
    true
}

/// Checks that every entry of the vector is canonical.
fn scalars_ok(v: &[Scalar]) -> (b: bool)
    ensures
        b == scalars_wf(v@),
{
    let mut i: usize = 0;
    while i < v.len()
        invariant
            i <= v@.len(),
            forall|j: int| 0 <= j < i ==> (#[trigger] v@[j]).wf(),
        decreases v@.len() - i,
    {
        if !v[i].is_canonical() {
            return false;
        }
        i = i + 1;
    }
    true
}

impl R1csInstance {
    /// Whether the matrices only name columns of the assignment and all
    /// values are canonical (what proving needs).
    pub fn is_well_formed(&self) -> (b: bool)
        ensures
            b == self.wf(),
    {
        let z = concat(&self.instance_assignment, &self.witness_assignment);
        let w = z.len();
        scalars_ok(&z) && matrix_ok(&self.a, self.num_constraints, w) && matrix_ok(
            &self.b,
            self.num_constraints,
            w,
        ) && matrix_ok(&self.c, self.num_constraints, w)
    }

    /// Whether the assignment satisfies every constraint.
    pub fn is_satisfied(&self) -> (b: bool)
        requires
            self.wf(),
        ensures
            b == r1cs_satisfied(self.model()),
    {
        let m = self.num_constraints;
        let z = concat(&self.instance_assignment, &self.witness_assignment);
        let az = sparse_matvec(&self.a, &z, m);
        let bz = sparse_matvec(&self.b, &z, m);
        let cz = sparse_matvec(&self.c, &z, m);
        let ghost model = self.model();
        assert(values(az@).len() == az@.len());
        assert(values(bz@).len() == bz@.len());
        assert(values(cz@).len() == cz@.len());
        let mut i: usize = 0;
        while i < m
            invariant
                i <= m,
                m == model.m,
                model == self.model(),
                az@.len() == m,
                bz@.len() == m,
                cz@.len() == m,
                scalars_wf(az@),
                scalars_wf(bz@),
                scalars_wf(cz@),
                values(az@) == matvec_spec(model.a, model.z, model.m),
                values(bz@) == matvec_spec(model.b, model.z, model.m),
                values(cz@) == matvec_spec(model.c, model.z, model.m),
                forall|j: int|
                    0 <= j < i ==> (#[trigger] matvec_spec(model.a, model.z, model.m)[j] * matvec_spec(
                        model.b,
                        model.z,
                        model.m,
                    )[j]) % fr_modulus() == matvec_spec(model.c, model.z, model.m)[j],
            decreases m - i,
        {
            let p = az[i].mul(&bz[i]);
            assert(values(az@)[i as int] == az@[i as int].value());
            assert(values(bz@)[i as int] == bz@[i as int].value());
            assert(values(cz@)[i as int] == cz@[i as int].value());
            if !p.equals(&cz[i]) {
                assert(!((matvec_spec(model.a, model.z, model.m)[i as int] * matvec_spec(
                    model.b,
                    model.z,
                    model.m,
                )[i as int]) % fr_modulus() == matvec_spec(model.c, model.z, model.m)[i as int]));
                return false;
            }
            i = i + 1;
        }
        true
    }
}

impl RandomnessModel {
    /// The sizes that a prover with `n_pad` uses, and canonical values.
    pub open spec fn wf(&self, n_pad: nat) -> bool {
        &&& self.alpha < fr_modulus()
        &&& self.beta < fr_modulus()
        &&& self.gamma < fr_modulus()
        &&& self.rho < fr_modulus()
        &&& self.tau_1 < fr_modulus()
        &&& self.tau_2 < fr_modulus()
        &&& self.s_l.len() == 2 * n_pad
        &&& self.s_r.len() == 2 * n_pad
    }
}

/// `n` random field elements.
fn random_scalars(rng: &mut StdRng, n: usize) -> (v: Vec<Scalar>)
    ensures
        v@.len() == n,
        scalars_wf(v@),
{
    let mut out: Vec<Scalar> = Vec::new();
    let mut i: usize = 0;
    while i < n
        invariant
            i <= n,
            out@.len() == i,
            scalars_wf(out@),
        decreases n - i,
    {
        out.push(Scalar::random(rng));
        i = i + 1;
    }
    out
}

impl ProverRandomness {
    /// Draws the prover's random choices, in the order `alpha`, `beta`,
    /// `gamma`, `s_l`, `s_r`, `rho`, `tau_1`, `tau_2`.
    pub fn sample(rng: &mut StdRng, n_pad: usize) -> (r: ProverRandomness)
        requires
            2 * n_pad <= usize::MAX,
        ensures
            r.wf(n_pad as nat),
    {
        let alpha = Scalar::random(rng);
        let beta = Scalar::random(rng);
        let gamma = Scalar::random(rng);
        let s_l = random_scalars(rng, 2 * n_pad);
        let s_r = random_scalars(rng, 2 * n_pad);
        let rho = Scalar::random(rng);
        let tau_1 = Scalar::random(rng);
        let tau_2 = Scalar::random(rng);
        ProverRandomness { alpha, beta, gamma, s_l, s_r, rho, tau_1, tau_2 }
    }
}

/// `n` random points.
fn random_points(rng: &mut StdRng, n: usize) -> (v: Vec<Point>)
    ensures
        v@.len() == n,
        points_wf(v@),
{
    let mut out: Vec<Point> = Vec::new();
    let mut i: usize = 0;
    while i < n
        invariant
            i <= n,
            out@.len() == i,
            points_wf(out@),
        decreases n - i,
    {
        out.push(Point::random(rng));
        i = i + 1;
    }
    out
}

/// Draws the public parameters for systems of at most `n_pad` constraints:
/// `2 n_pad` random generators in each of `g_vec`, `h_vec`, then `u`, then
/// `h_b`.
pub fn setup(n_pad: usize, rng: &mut StdRng) -> (params: R1csIpaParams)
    requires
        is_pow2(n_pad as nat),
        2 * n_pad <= usize::MAX,
    ensures
        params.wf(),
        params.n_pad == n_pad,
{
    let two_n = 2 * n_pad;
    let g_vec = random_points(rng, two_n);
    let h_vec = random_points(rng, two_n);
    let u = Point::random(rng);
    let h_b = Point::random(rng);
    R1csIpaParams { g_vec, h_vec, u, h_b, n_pad }
}

/// Proves that the instance's assignment satisfies its constraints, drawing
/// the prover's random choices from `rng`. Returns `None` where a challenge
/// drawn from the transcript is zero.
pub fn prove_r1cs(inst: &R1csInstance, params: &R1csIpaParams, rng: &mut StdRng) -> (res: Option<
    R1csIpaProof,
>)
    requires
        inst.wf(),
        params.wf(),
        is_pow2(params.n_pad as nat),
        inst.num_constraints <= params.n_pad,
    ensures
        match res {
            Some(p) => p.wf() && exists|rnd: RandomnessModel|
                rnd.wf(params.n_pad as nat) && #[trigger] r1cs_prove_spec(
                    inst.model(),
                    params.model(),
                    rnd,
                ) == Some(p.model()),
            None => exists|rnd: RandomnessModel|
                rnd.wf(params.n_pad as nat) && (#[trigger] r1cs_prove_spec(
                    inst.model(),
                    params.model(),
                    rnd,
                )) is None,
        },
{
    let two_n = params.g_vec.len();
    assert(two_n == 2 * params.n_pad);
    let rnd = ProverRandomness::sample(rng, params.n_pad);
    let res = prove_r1cs_with_randomness(inst, params, &rnd);
    proof {
        let m = rnd.model();
        assert(m.wf(params.n_pad as nat));
        assert(r1cs_prove_spec(inst.model(), params.model(), m) == r1cs_prove_spec(
            inst.model(),
            params.model(),
            rnd.model(),
        ));
    }
    res
}

/// The number of constraints to pad a system of `m` constraints to: the
/// least power of two that is at least `m` and at least two. `None` where
/// that power does not fit in a `usize`.
pub fn padded_size(m: usize) -> (r: Option<usize>)
    ensures
        match r {
            Some(p) => is_pow2(p as nat) && p >= m && p >= 2 && (p == 2 || p / 2 < m),
            None => m > usize::MAX / 2 + 1,
        },
{
    let mut p: usize = 2;
    assert(is_pow2(1));
    assert(is_pow2(2));
    while p < m
        invariant
            is_pow2(p as nat),
            p >= 2,
            p == 2 || p / 2 < m,
        decreases usize::MAX - p,
    {
        if p > usize::MAX / 2 {
            return None;
        }
        assert(is_pow2((2 * p) as nat)) by {
            assert((2 * p) / 2 == p);
        }
        p = p * 2;
    }
    Some(p)
}

} // verus!
