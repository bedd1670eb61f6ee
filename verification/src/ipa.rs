//! The inner-product argument.
//!
//! The prover holds vectors `a`, `b` of field elements and generators `g`,
//! `h`, `u`, and convinces the verifier that the commitment
//! `P = <a, g> + <b, h> + [<a, b>] u` opens to them. In each round it halves
//! the vectors, sends two cross-term commitments `L`, `R`, and folds
//! everything with a challenge `x` drawn from the transcript; the verifier
//! folds the commitment and the generators the same way and checks the final
//! single-element opening.
use crate::algebra::{
    eqm, fold, lemma_dot_halves, lemma_eqm_add, lemma_eqm_mod, lemma_eqm_mul, lemma_fold_dot,
};
use crate::field::{field_inv, fr_modulus, invertible, Scalar};
use crate::group::Point;
use crate::linalg::{
    commit_with_ip, dot, lemma_add_mod, logs, min_len, pedersen_with_ip, points_wf, scalars_wf,
    values,
};
use crate::transcript::{
    challenge_value, label_l, label_r, label_x, l_label, r_label, transcript_log, with_challenge,
    with_point, x_label, Entry, TranscriptProtocol,
};
use merlin::Transcript;
use vstd::prelude::*;

verus! {

/// `n` is a power of two.
pub open spec fn is_pow2(n: nat) -> bool
    decreases n,
{
    if n <= 1 {
        n == 1
    } else {
        n % 2 == 0 && is_pow2(n / 2)
    }
}

/// A proof as the discrete logarithms of its points and the integers of its
/// scalars.
#[verifier::ext_equal]
pub struct IpaProofModel {
    pub ls: Seq<nat>,
    pub rs: Seq<nat>,
    pub a: nat,
    pub b: nat,
}

/// An inner-product proof: one `L` and one `R` per round, and the folded
/// one-element vectors.
pub struct IpaProof {
    pub l_vec: Vec<Point>,
    pub r_vec: Vec<Point>,
    pub a_final: Scalar,
    pub b_final: Scalar,
}

impl IpaProof {
    pub open spec fn wf(&self) -> bool {
        &&& points_wf(self.l_vec@)
        &&& points_wf(self.r_vec@)
        &&& self.a_final.wf()
        &&& self.b_final.wf()
    }

    pub open spec fn model(&self) -> IpaProofModel {
        IpaProofModel {
            ls: logs(self.l_vec@),
            rs: logs(self.r_vec@),
            a: self.a_final.value(),
            b: self.b_final.value(),
        }
    }
}

/// Puts rounds in front of the rounds of a proof.
pub open spec fn prepend_rounds(ls: Seq<nat>, rs: Seq<nat>, p: Option<IpaProofModel>) -> Option<
    IpaProofModel,
> {
    match p {
        Some(m) => Some(IpaProofModel { ls: ls + m.ls, rs: rs + m.rs, a: m.a, b: m.b }),
        None => None,
    }
}

/// What the prover sends, and the transcript's log afterwards, starting
/// from a transcript with log `log`. `None` where a challenge is not
/// invertible.
pub open spec fn ipa_prove_spec(
    log: Seq<Entry>,
    a: Seq<nat>,
    b: Seq<nat>,
    g: Seq<nat>,
    h: Seq<nat>,
    u: nat,
) -> (Option<IpaProofModel>, Seq<Entry>)
    decreases a.len(),
{
    if a.len() <= 1 {
        (Some(IpaProofModel { ls: seq![], rs: seq![], a: a[0], b: b[0] }), log)
    } else {
        let half = (a.len() / 2) as int;
        let l = commit_with_ip(a.take(half), b.skip(half), g.skip(half), h.take(half), u);
        let r = commit_with_ip(a.skip(half), b.take(half), g.take(half), h.skip(half), u);
        let log1 = with_point(with_point(log, l_label(), l), r_label(), r);
        let x = challenge_value(log1, x_label());
        let log2 = with_challenge(log1, x_label());
        if !invertible(x) {
            (None, log2)
        } else {
            let y = field_inv(x);
            let rest = ipa_prove_spec(
                log2,
                fold(a.take(half), a.skip(half), x, y),
                fold(b.take(half), b.skip(half), y, x),
                fold(g.take(half), g.skip(half), y, x),
                fold(h.take(half), h.skip(half), x, y),
                u,
            );
            (prepend_rounds(seq![l], seq![r], rest.0), rest.1)
        }
    }
}

/// The verifier's verdict, and the transcript's log afterwards, on rounds
/// `ls`, `rs`, final scalars `a`, `b`, and current commitment `c`.
pub open spec fn ipa_verify_spec(
    log: Seq<Entry>,
    ls: Seq<nat>,
    rs: Seq<nat>,
    a: nat,
    b: nat,
    c: nat,
    g: Seq<nat>,
    h: Seq<nat>,
    u: nat,
) -> (bool, Seq<Entry>)
    decreases ls.len(),
{
    if ls.len() == 0 || rs.len() == 0 {
        if g.len() == 0 || h.len() == 0 {
            (false, log)
        } else {
            let expected = (g[0] * a + h[0] * b + u * (a * b)) % fr_modulus();
            (c == expected, log)
        }
    } else {
        let log1 = with_point(with_point(log, l_label(), ls[0]), r_label(), rs[0]);
        let x = challenge_value(log1, x_label());
        let log2 = with_challenge(log1, x_label());
        if !invertible(x) {
            (false, log2)
        } else {
            let y = field_inv(x);
            let c2 = (ls[0] * ((x * x) % fr_modulus()) + c + rs[0] * ((y * y) % fr_modulus()))
                % fr_modulus();
            let half = (g.len() / 2) as int;
            ipa_verify_spec(
                log2,
                ls.skip(1),
                rs.skip(1),
                a,
                b,
                c2,
                fold(g.take(half), g.skip(half), y, x),
                fold(h.take(half), h.skip(half), x, y),
                u,
            )
        }
    }
}

/// `(l[i] x + r[i] y)` for each position of the common length.
fn fold_scalars(l: &[Scalar], r: &[Scalar], x: &Scalar, y: &Scalar) -> (v: Vec<Scalar>)
    requires
        scalars_wf(l@),
        scalars_wf(r@),
        x.wf(),
        y.wf(),
    ensures
        scalars_wf(v@),
        values(v@) == fold(values(l@), values(r@), x.value(), y.value()),
{
    let n = if l.len() <= r.len() {
        l.len()
    } else {
        r.len()
    };
    let mut out: Vec<Scalar> = Vec::new();
    let mut i: usize = 0;
    while i < n
        invariant
            n == min_len(l@.len(), r@.len()),
            i <= n,
            scalars_wf(l@),
            scalars_wf(r@),
            x.wf(),
            y.wf(),
            out@.len() == i,
            scalars_wf(out@),
            forall|j: int|
                0 <= j < i ==> #[trigger] out@[j].value() == (l@[j].value() * x.value() + r@[j].value()
                    * y.value()) % fr_modulus(),
        decreases n - i,
    {
        let t = l[i].mul(x).add(&r[i].mul(y));
        proof {
            lemma_add_mod(l@[i as int].value() * x.value(), r@[i as int].value() * y.value());
        }
        out.push(t);
        i = i + 1;
    }
    assert(values(out@) =~= fold(values(l@), values(r@), x.value(), y.value()));
    out
}

/// `[x] l[i] + [y] r[i]` for each position of the common length.
fn fold_points(l: &[Point], r: &[Point], x: &Scalar, y: &Scalar) -> (v: Vec<Point>)
    requires
        points_wf(l@),
        points_wf(r@),
        x.wf(),
        y.wf(),
    ensures
        points_wf(v@),
        logs(v@) == fold(logs(l@), logs(r@), x.value(), y.value()),
{
    let n = if l.len() <= r.len() {
        l.len()
    } else {
        r.len()
    };
    let mut out: Vec<Point> = Vec::new();
    let mut i: usize = 0;
    while i < n
        invariant
            n == min_len(l@.len(), r@.len()),
            i <= n,
            points_wf(l@),
            points_wf(r@),
            x.wf(),
            y.wf(),
            out@.len() == i,
            points_wf(out@),
            forall|j: int|
                0 <= j < i ==> #[trigger] out@[j].log() == (l@[j].log() * x.value() + r@[j].log()
                    * y.value()) % fr_modulus(),
        decreases n - i,
    {
        let t = l[i].mul(x).add(&r[i].mul(y));
        proof {
            lemma_add_mod(l@[i as int].log() * x.value(), r@[i as int].log() * y.value());
        }
        out.push(t);
        i = i + 1;
    }
    assert(logs(out@) =~= fold(logs(l@), logs(r@), x.value(), y.value()));
    out
}

proof fn lemma_prepend_rounds(ls: Seq<nat>, rs: Seq<nat>, l: nat, r: nat, p: Option<IpaProofModel>)
    ensures
        prepend_rounds(ls, rs, prepend_rounds(seq![l], seq![r], p)) == prepend_rounds(
            ls.push(l),
            rs.push(r),
            p,
        ),
{
    if let Some(m) = p {
        assert(ls + (seq![l] + m.ls) =~= ls.push(l) + m.ls);
        assert(rs + (seq![r] + m.rs) =~= rs.push(r) + m.rs);
    }
}

proof fn lemma_values_split(s: Seq<Scalar>, k: int)
    requires
        0 <= k <= s.len(),
    ensures
        values(s.subrange(0, k)) == values(s).take(k),
        values(s.subrange(k, s.len() as int)) == values(s).skip(k),
{
    assert(values(s.subrange(0, k)) =~= values(s).take(k));
    assert(values(s.subrange(k, s.len() as int)) =~= values(s).skip(k));
}

/// The logarithms of the two parts of a split are the two parts of the
/// logarithms.
pub proof fn lemma_logs_split(s: Seq<Point>, k: int)
    requires
        0 <= k <= s.len(),
    ensures
        logs(s.subrange(0, k)) == logs(s).take(k),
        logs(s.subrange(k, s.len() as int)) == logs(s).skip(k),
{
    assert(logs(s.subrange(0, k)) =~= logs(s).take(k));
    assert(logs(s.subrange(k, s.len() as int)) =~= logs(s).skip(k));
}

/// Zero has no inverse.
pub proof fn lemma_zero_not_invertible()
    ensures
        !invertible(0),
{
    assert forall|y: nat| y < fr_modulus() implies #[trigger] ((0 * y) % fr_modulus()) != 1 by {
        assert(0 * y == 0);
    }
}

/// Proves, for vectors whose length is a power of two, that `<a, b>` is the
/// inner product behind the commitment `<a, g> + <b, h> + [<a, b>] u`.
/// Returns `None` where a challenge drawn from the transcript is zero.
#[verifier::loop_isolation(false)]
pub fn prove_ipa(
    transcript: &mut Transcript,
    a: Vec<Scalar>,
    b: Vec<Scalar>,
    g_vec: Vec<Point>,
    h_vec: Vec<Point>,
    u: Point,
) -> (res: Option<IpaProof>)
    requires
        a@.len() == b@.len(),
        a@.len() == g_vec@.len(),
        a@.len() == h_vec@.len(),
        is_pow2(a@.len()),
        scalars_wf(a@),
        scalars_wf(b@),
        points_wf(g_vec@),
        points_wf(h_vec@),
        u.wf(),
    ensures
        ({
            let s = ipa_prove_spec(
                transcript_log(*old(transcript)),
                values(a@),
                values(b@),
                logs(g_vec@),
                logs(h_vec@),
                u.log(),
            );
            &&& transcript_log(*final(transcript)) == s.1
            &&& (match res {
                Some(p) => p.wf() && s.0 == Some(p.model()),
                None => s.0 is None,
            })
        }),
{
    let ghost s0 = ipa_prove_spec(
        transcript_log(*transcript),
        values(a@),
        values(b@),
        logs(g_vec@),
        logs(h_vec@),
        u.log(),
    );
    let mut a = a;
    let mut b = b;
    let mut g_vec = g_vec;
    let mut h_vec = h_vec;
    let mut n = a.len();
    let mut l_vec: Vec<Point> = Vec::new();
    let mut r_vec: Vec<Point> = Vec::new();
    while n > 1
        invariant
            n == a@.len(),
            n == b@.len(),
            n == g_vec@.len(),
            n == h_vec@.len(),
            is_pow2(n as nat),
            scalars_wf(a@),
            scalars_wf(b@),
            points_wf(g_vec@),
            points_wf(h_vec@),
            u.wf(),
            points_wf(l_vec@),
            points_wf(r_vec@),
            s0.1 == ipa_prove_spec(
                transcript_log(*transcript),
                values(a@),
                values(b@),
                logs(g_vec@),
                logs(h_vec@),
                u.log(),
            ).1,
            s0.0 == prepend_rounds(
                logs(l_vec@),
                logs(r_vec@),
                ipa_prove_spec(
                    transcript_log(*transcript),
                    values(a@),
                    values(b@),
                    logs(g_vec@),
                    logs(h_vec@),
                    u.log(),
                ).0,
            ),
        decreases n,
    {
        let half = n / 2;
        let (a_l, a_r) = a.as_slice().split_at(half);
        let (b_l, b_r) = b.as_slice().split_at(half);
        let (g_l, g_r) = g_vec.as_slice().split_at(half);
        let (h_l, h_r) = h_vec.as_slice().split_at(half);
        proof {
            lemma_values_split(a@, half as int);
            lemma_values_split(b@, half as int);
            lemma_logs_split(g_vec@, half as int);
            lemma_logs_split(h_vec@, half as int);
        }
        let l = pedersen_with_ip(a_l, b_r, g_r, h_l, u);
        let r = pedersen_with_ip(a_r, b_l, g_l, h_r, u);
        transcript.append_point(label_l(), &l);
        transcript.append_point(label_r(), &r);
        let x = transcript.get_challenge(label_x());
        let x_inv = match x.inverse() {
            Some(v) => v,
            None => {
                proof {
                    lemma_zero_not_invertible();
                }
                return None;
            },
        };
        let a_prime = fold_scalars(a_l, a_r, &x, &x_inv);
        let b_prime = fold_scalars(b_l, b_r, &x_inv, &x);
        let g_prime = fold_points(g_l, g_r, &x_inv, &x);
        let h_prime = fold_points(h_l, h_r, &x, &x_inv);
        proof {
            lemma_prepend_rounds(logs(l_vec@), logs(r_vec@), l.log(), r.log(), ipa_prove_spec(
                transcript_log(*transcript),
                values(a_prime@),
                values(b_prime@),
                logs(g_prime@),
                logs(h_prime@),
                u.log(),
            ).0);
        }
        let ghost (ls_before, rs_before) = (logs(l_vec@), logs(r_vec@));
        l_vec.push(l);
        r_vec.push(r);
        proof {
            assert(logs(l_vec@) =~= ls_before.push(l.log()));
            assert(logs(r_vec@) =~= rs_before.push(r.log()));
        }
        a = a_prime;
        b = b_prime;
        g_vec = g_prime;
        h_vec = h_prime;
        n = half;
    }
    let a_final = a[0];
    let b_final = b[0];
    Some(IpaProof { l_vec, r_vec, a_final, b_final })
}

/// Each of `k` rounds can split the `h` generators at half the number of
/// `g` generators, as the verifier does; with fewer `h` than that the split
/// is out of range.
pub open spec fn ipa_shapes_ok(k: nat, g_len: nat, h_len: nat) -> bool
    decreases k,
{
    k == 0 || (g_len / 2 <= h_len && ipa_shapes_ok(
        (k - 1) as nat,
        g_len / 2,
        min_len(g_len / 2, (h_len - g_len / 2) as nat),
    ))
}

/// Generators of equal number can be split for any number of rounds.
pub proof fn lemma_ipa_shapes_equal(k: nat, n: nat)
    ensures
        ipa_shapes_ok(k, n, n),
    decreases k,
{
    if k > 0 {
        lemma_ipa_shapes_equal((k - 1) as nat, n / 2);
        assert(min_len(n / 2, (n - n / 2) as nat) == n / 2);
    }
}

/// Checks an inner-product proof that `commitment` opens to vectors over
/// the generators `g_vec`, `h_vec`, `u`. Returns `false` where a challenge
/// drawn from the transcript is zero, or where the proof has more rounds
/// than the generators can be halved. Each round splits both `g_vec` and
/// `h_vec` at half the length of `g_vec`, so `h_vec` may be longer than
/// `g_vec` but not so short that a split falls outside it.
#[verifier::loop_isolation(false)]
pub fn verify_ipa(
    transcript: &mut Transcript,
    proof: &IpaProof,
    commitment: Point,
    g_vec: Vec<Point>,
    h_vec: Vec<Point>,
    u: Point,
) -> (ok: bool)
    requires
        ipa_shapes_ok(
            min_len(proof.l_vec@.len(), proof.r_vec@.len()),
            g_vec@.len(),
            h_vec@.len(),
        ),
        proof.wf(),
        commitment.wf(),
        points_wf(g_vec@),
        points_wf(h_vec@),
        u.wf(),
    ensures
        ({
            let s = ipa_verify_spec(
                transcript_log(*old(transcript)),
                proof.model().ls,
                proof.model().rs,
                proof.model().a,
                proof.model().b,
                commitment.log(),
                logs(g_vec@),
                logs(h_vec@),
                u.log(),
            );
            &&& ok == s.0
            &&& transcript_log(*final(transcript)) == s.1
        }),
{
    let ghost ls = logs(proof.l_vec@);
    let ghost rs = logs(proof.r_vec@);
    let ghost s0 = ipa_verify_spec(
        transcript_log(*transcript),
        ls,
        rs,
        proof.a_final.value(),
        proof.b_final.value(),
        commitment.log(),
        logs(g_vec@),
        logs(h_vec@),
        u.log(),
    );
    let k = if proof.l_vec.len() <= proof.r_vec.len() {
        proof.l_vec.len()
    } else {
        proof.r_vec.len()
    };
    let mut commitment = commitment;
    let mut g_vec = g_vec;
    let mut h_vec = h_vec;
    let mut n = g_vec.len();
    let mut i: usize = 0;
    assert(ls.skip(0) =~= ls);
    assert(rs.skip(0) =~= rs);
    while i < k
        invariant
            i <= k,
            k == min_len(ls.len(), rs.len()),
            n == g_vec@.len(),
            ipa_shapes_ok((k - i) as nat, g_vec@.len(), h_vec@.len()),
            points_wf(g_vec@),
            points_wf(h_vec@),
            commitment.wf(),
            s0 == ipa_verify_spec(
                transcript_log(*transcript),
                ls.skip(i as int),
                rs.skip(i as int),
                proof.a_final.value(),
                proof.b_final.value(),
                commitment.log(),
                logs(g_vec@),
                logs(h_vec@),
                u.log(),
            ),
        decreases k - i,
    {
        let l = &proof.l_vec[i];
        let r = &proof.r_vec[i];
        assert(ls.skip(i as int)[0] == l.log());
        assert(rs.skip(i as int)[0] == r.log());
        assert(ls.skip(i as int).len() > 0 && rs.skip(i as int).len() > 0);
        assert(l.wf() && r.wf());
        transcript.append_point(label_l(), l);
        transcript.append_point(label_r(), r);
        let x = transcript.get_challenge(label_x());
        let x_inv = match x.inverse() {
            Some(v) => v,
            None => {
                proof {
                    lemma_zero_not_invertible();
                }
                return false;
            },
        };
        let x_sq = x.mul(&x);
        let x_sq_inv = x_inv.mul(&x_inv);
        let ghost c_before = commitment.log();
        commitment = l.mul(&x_sq).add(&commitment).add(&r.mul(&x_sq_inv));
        proof {
            lemma_add_mod(l.log() * x_sq.value(), c_before);
            vstd::arithmetic::div_mod::lemma_small_mod(c_before, fr_modulus());
            lemma_add_mod(l.log() * x_sq.value() + c_before, r.log() * x_sq_inv.value());
            vstd::arithmetic::div_mod::lemma_mod_twice(
                (l.log() * x_sq.value() + c_before) as int,
                fr_modulus() as int,
            );
            vstd::arithmetic::div_mod::lemma_mod_twice(
                (r.log() * x_sq_inv.value()) as int,
                fr_modulus() as int,
            );
        }
        let half = n / 2;
        let (g_l, g_r) = g_vec.as_slice().split_at(half);
        let (h_l, h_r) = h_vec.as_slice().split_at(half);
        proof {
            lemma_logs_split(g_vec@, half as int);
            lemma_logs_split(h_vec@, half as int);
        }
        let g_new = fold_points(g_l, g_r, &x_inv, &x);
        let h_new = fold_points(h_l, h_r, &x, &x_inv);
        proof {
            assert(logs(g_new@).len() == g_new@.len());
            assert(logs(h_new@).len() == h_new@.len());
            assert(ls.skip(i as int).skip(1) =~= ls.skip(i + 1));
            assert(rs.skip(i as int).skip(1) =~= rs.skip(i + 1));
        }
        g_vec = g_new;
        h_vec = h_new;
        n = half;
        i = i + 1;
    }
    if g_vec.len() == 0 || h_vec.len() == 0 {
        return false;
    }
    let a = proof.a_final;
    let b = proof.b_final;
    let c = a.mul(&b);
    let expected = g_vec[0].mul(&a).add(&h_vec[0].mul(&b)).add(&u.mul(&c));
    proof {
        let (g0, h0) = (g_vec@[0].log(), h_vec@[0].log());
        lemma_add_mod(g0 * a.value(), h0 * b.value());
        crate::linalg::lemma_mul_mod(u.log(), a.value() * b.value());
        lemma_add_mod(g0 * a.value() + h0 * b.value(), u.log() * (a.value() * b.value()));
        vstd::arithmetic::div_mod::lemma_mod_twice(
            (g0 * a.value() + h0 * b.value()) as int,
            fr_modulus() as int,
        );
        vstd::arithmetic::div_mod::lemma_mod_twice(
            (u.log() * (a.value() * b.value())) as int,
            fr_modulus() as int,
        );
        assert(ls.skip(k as int).len() == 0 || rs.skip(k as int).len() == 0);
    }
    commitment.equals(&expected)
}

/// The cross-term algebra of one round: folding the vectors and
/// generators with `x` and `y = 1/x` turns the commitment `c` into
/// `[x^2] L + c + [y^2] R`.
proof fn lemma_round_commitment(
    a: Seq<nat>,
    b: Seq<nat>,
    g: Seq<nat>,
    h: Seq<nat>,
    u: nat,
    half: nat,
    x: nat,
    y: nat,
)
    requires
        a.len() == 2 * half,
        b.len() == 2 * half,
        g.len() == 2 * half,
        h.len() == 2 * half,
        eqm((x * y) as int, 1),
    ensures
        ({
            let hf = half as int;
            let l = commit_with_ip(a.take(hf), b.skip(hf), g.skip(hf), h.take(hf), u);
            let r = commit_with_ip(a.skip(hf), b.take(hf), g.take(hf), h.skip(hf), u);
            let c = commit_with_ip(a, b, g, h, u);
            commit_with_ip(
                fold(a.take(hf), a.skip(hf), x, y),
                fold(b.take(hf), b.skip(hf), y, x),
                fold(g.take(hf), g.skip(hf), y, x),
                fold(h.take(hf), h.skip(hf), x, y),
                u,
            ) == (l * ((x * x) % fr_modulus()) + c + r * ((y * y) % fr_modulus())) % fr_modulus()
        }),
{
    let hf = half as int;
    let (al, ar, bl, br) = (a.take(hf), a.skip(hf), b.take(hf), b.skip(hf));
    let (gl, gr, hl, hr) = (g.take(hf), g.skip(hf), h.take(hf), h.skip(hf));
    let m = fr_modulus() as int;
    let xx = (x * x) as int;
    let yy = (y * y) as int;
    let ui = u as int;
    // The folded inner products.
    lemma_fold_dot(al, ar, gl, gr, x, y);
    assert((y * x) == (x * y)) by (nonlinear_arith);
    lemma_fold_dot(bl, br, hl, hr, y, x);
    lemma_fold_dot(al, ar, bl, br, x, y);
    let d1 = dot(fold(al, ar, x, y), fold(gl, gr, y, x)) as int;
    let d2 = dot(fold(bl, br, y, x), fold(hl, hr, x, y)) as int;
    let d3 = dot(fold(al, ar, x, y), fold(bl, br, y, x)) as int;
    let (ag_ll, ag_rr, ag_lr, ag_rl) = (dot(al, gl) as int, dot(ar, gr) as int, dot(al, gr) as int, dot(ar, gl) as int);
    let (bh_ll, bh_rr, bh_lr, bh_rl) = (dot(bl, hl) as int, dot(br, hr) as int, dot(bl, hr) as int, dot(br, hl) as int);
    let (ab_ll, ab_rr, ab_lr, ab_rl) = (dot(al, bl) as int, dot(ar, br) as int, dot(al, br) as int, dot(ar, bl) as int);
    let e1 = ag_ll + ag_rr + xx * ag_lr + yy * ag_rl;
    let e2 = bh_ll + bh_rr + yy * bh_lr + xx * bh_rl;
    let e3 = ab_ll + ab_rr + xx * ab_lr + yy * ab_rl;
    assert(eqm(d1, e1));
    assert(eqm(d2, e2));
    assert(eqm(d3, e3));
    lemma_eqm_mul(ui, ui, d3, e3);
    lemma_eqm_add(d1, e1, d2, e2);
    lemma_eqm_add(d1 + d2, e1 + e2, ui * d3, ui * e3);
    let lhs = commit_with_ip(fold(al, ar, x, y), fold(bl, br, y, x), fold(gl, gr, y, x), fold(hl, hr, x, y), u) as int;
    assert(lhs == (d1 + d2 + ui * d3) % m);
    lemma_eqm_mod(d1 + d2 + ui * d3);
    // The commitments, split into halves.
    lemma_dot_halves(a, g, half);
    lemma_dot_halves(b, h, half);
    lemma_dot_halves(a, b, half);
    let le = ag_lr + bh_rl + ui * ab_lr;
    let re = ag_rl + bh_lr + ui * ab_rl;
    let ce = (ag_ll + ag_rr) + (bh_ll + bh_rr) + ui * (ab_ll + ab_rr);
    let l = commit_with_ip(al, br, gr, hl, u) as int;
    let r = commit_with_ip(ar, bl, gl, hr, u) as int;
    let c = commit_with_ip(a, b, g, h, u) as int;
    assert(l == le % m);
    assert(r == re % m);
    assert(c == ce % m);
    lemma_eqm_mod(le);
    lemma_eqm_mod(re);
    lemma_eqm_mod(ce);
    lemma_eqm_mod(xx);
    lemma_eqm_mod(yy);
    lemma_eqm_mul(l, le, xx % m, xx);
    lemma_eqm_mul(r, re, yy % m, yy);
    lemma_eqm_add(l * (xx % m), le * xx, c, ce);
    lemma_eqm_add(l * (xx % m) + c, le * xx + ce, r * (yy % m), re * yy);
    let rhs = l * (xx % m) + c + r * (yy % m);
    lemma_eqm_mod(rhs);
    assert(ui * e3 == ui * ab_ll + ui * ab_rr + xx * (ui * ab_lr) + yy * (ui * ab_rl)) by {
        vstd::arithmetic::mul::lemma_mul_is_distributive_add(ui, ab_ll + ab_rr + xx * ab_lr, yy * ab_rl);
        vstd::arithmetic::mul::lemma_mul_is_distributive_add(ui, ab_ll + ab_rr, xx * ab_lr);
        vstd::arithmetic::mul::lemma_mul_is_distributive_add(ui, ab_ll, ab_rr);
        assert(ui * (xx * ab_lr) == xx * (ui * ab_lr)) by (nonlinear_arith);
        assert(ui * (yy * ab_rl) == yy * (ui * ab_rl)) by (nonlinear_arith);
    }
    assert(le * xx == xx * ag_lr + xx * bh_rl + xx * (ui * ab_lr)) by (nonlinear_arith)
        requires
            le == ag_lr + bh_rl + ui * ab_lr,
    ;
    assert(re * yy == yy * ag_rl + yy * bh_lr + yy * (ui * ab_rl)) by (nonlinear_arith)
        requires
            re == ag_rl + bh_lr + ui * ab_rl,
    ;
    assert(ui * (ab_ll + ab_rr) == ui * ab_ll + ui * ab_rr) by (nonlinear_arith);
    assert(e1 + e2 + ui * e3 == le * xx + ce + re * yy);
    assert(eqm(lhs, rhs % m));
    vstd::arithmetic::div_mod::lemma_mod_bound(rhs, m);
    vstd::arithmetic::div_mod::lemma_mod_bound(d1 + d2 + ui * d3, m);
    crate::algebra::lemma_eqm_small(lhs, rhs % m);
}

/// Completeness of the inner-product argument: for vectors whose length is
/// a power of two, whenever the prover gets through (no challenge is zero),
/// the verifier, starting from the same transcript with the commitment
/// `<a, g> + <b, h> + [<a, b>] u` and the same generators, accepts the
/// prover's proof, and both transcripts end in the same state.
pub proof fn lemma_ipa_completeness(
    log: Seq<Entry>,
    a: Seq<nat>,
    b: Seq<nat>,
    g: Seq<nat>,
    h: Seq<nat>,
    u: nat,
)
    requires
        a.len() == b.len(),
        a.len() == g.len(),
        a.len() == h.len(),
        is_pow2(a.len()),
    ensures
        ipa_prove_spec(log, a, b, g, h, u).0 matches Some(p) ==> ipa_verify_spec(
            log,
            p.ls,
            p.rs,
            p.a,
            p.b,
            commit_with_ip(a, b, g, h, u),
            g,
            h,
            u,
        ) == (true, ipa_prove_spec(log, a, b, g, h, u).1),
    decreases a.len(),
{
    let n = a.len();
    if n <= 1 {
        let c = commit_with_ip(a, b, g, h, u);
        assert(n == 1);
        assert(crate::linalg::dot_prefix(a, g, 0) == 0);
        assert(crate::linalg::dot_prefix(b, h, 0) == 0);
        assert(crate::linalg::dot_prefix(a, b, 0) == 0);
        assert(dot(a, g) == a[0] * g[0]);
        assert(dot(b, h) == b[0] * h[0]);
        assert(dot(a, b) == a[0] * b[0]);
        assert(a[0] * g[0] == g[0] * a[0]) by (nonlinear_arith);
        assert(b[0] * h[0] == h[0] * b[0]) by (nonlinear_arith);
    } else {
        let half = n / 2;
        let hf = half as int;
        let l = commit_with_ip(a.take(hf), b.skip(hf), g.skip(hf), h.take(hf), u);
        let r = commit_with_ip(a.skip(hf), b.take(hf), g.take(hf), h.skip(hf), u);
        let log1 = with_point(with_point(log, l_label(), l), r_label(), r);
        let x = challenge_value(log1, x_label());
        let log2 = with_challenge(log1, x_label());
        if invertible(x) {
            let y = field_inv(x);
            assert((x * y) % fr_modulus() == 1);
            let a2 = fold(a.take(hf), a.skip(hf), x, y);
            let b2 = fold(b.take(hf), b.skip(hf), y, x);
            let g2 = fold(g.take(hf), g.skip(hf), y, x);
            let h2 = fold(h.take(hf), h.skip(hf), x, y);
            assert(is_pow2(half));
            lemma_ipa_completeness(log2, a2, b2, g2, h2, u);
            lemma_round_commitment(a, b, g, h, u, half, x, y);
            let rest = ipa_prove_spec(log2, a2, b2, g2, h2, u);
            if let Some(p) = rest.0 {
                let ls = seq![l] + p.ls;
                let rs = seq![r] + p.rs;
                assert(ls.skip(1) =~= p.ls);
                assert(rs.skip(1) =~= p.rs);
                assert(ls[0] == l);
                assert(rs[0] == r);
            }
        }
    }
}

/// Adding one value to two different residues below `m` keeps them
/// different modulo `m`.
proof fn lemma_add_mod_injective(x: int, c1: int, c2: int, m: int)
    requires
        m > 0,
        0 <= c1 < m,
        0 <= c2 < m,
        (x + c1) % m == (x + c2) % m,
    ensures
        c1 == c2,
{
    vstd::arithmetic::div_mod::lemma_fundamental_div_mod(x + c1, m);
    vstd::arithmetic::div_mod::lemma_fundamental_div_mod(x + c2, m);
    let q1 = (x + c1) / m;
    let q2 = (x + c2) / m;
    assert(c1 - c2 == m * (q1 - q2)) by (nonlinear_arith)
        requires
            x + c1 == m * q1 + (x + c1) % m,
            x + c2 == m * q2 + (x + c2) % m,
            (x + c1) % m == (x + c2) % m,
    ;
    if q1 > q2 {
        assert(m * (q1 - q2) >= m) by (nonlinear_arith)
            requires
                q1 - q2 >= 1,
                m > 0,
        ;
    } else if q1 < q2 {
        assert(m * (q2 - q1) >= m) by (nonlinear_arith)
            requires
                q2 - q1 >= 1,
                m > 0,
        ;
        assert(m * (q1 - q2) == -(m * (q2 - q1))) by (nonlinear_arith);
    }
}

/// Binding of the verifier to the commitment: on the same transcript, with
/// the same proof and generators, a proof accepted for the commitment `c1`
/// is rejected for every other commitment `c2`. Each round moves both
/// commitments by the same amount, so they stay different to the end, and
/// the final check accepts one value only.
pub proof fn lemma_ipa_verify_binding(
    log: Seq<Entry>,
    ls: Seq<nat>,
    rs: Seq<nat>,
    a: nat,
    b: nat,
    c1: nat,
    c2: nat,
    g: Seq<nat>,
    h: Seq<nat>,
    u: nat,
)
    requires
        c1 < fr_modulus(),
        c2 < fr_modulus(),
        c1 != c2,
    ensures
        ipa_verify_spec(log, ls, rs, a, b, c1, g, h, u).0 ==> !ipa_verify_spec(
            log,
            ls,
            rs,
            a,
            b,
            c2,
            g,
            h,
            u,
        ).0,
    decreases ls.len(),
{
    if ls.len() == 0 || rs.len() == 0 {
    } else {
        let log1 = with_point(with_point(log, l_label(), ls[0]), r_label(), rs[0]);
        let x = challenge_value(log1, x_label());
        let log2 = with_challenge(log1, x_label());
        if invertible(x) {
            let y = field_inv(x);
            let m = fr_modulus();
            let shift = ls[0] * ((x * x) % m) + rs[0] * ((y * y) % m);
            let d1 = (ls[0] * ((x * x) % m) + c1 + rs[0] * ((y * y) % m)) % m;
            let d2 = (ls[0] * ((x * x) % m) + c2 + rs[0] * ((y * y) % m)) % m;
            assert(ls[0] * ((x * x) % m) + c1 + rs[0] * ((y * y) % m) == shift + c1);
            assert(ls[0] * ((x * x) % m) + c2 + rs[0] * ((y * y) % m) == shift + c2);
            if d1 == d2 {
                lemma_add_mod_injective(shift as int, c1 as int, c2 as int, m as int);
            }
            let half = (g.len() / 2) as int;
            lemma_ipa_verify_binding(
                log2,
                ls.skip(1),
                rs.skip(1),
                a,
                b,
                d1,
                d2,
                fold(g.take(half), g.skip(half), y, x),
                fold(h.take(half), h.skip(half), x, y),
                u,
            );
        }
    }
}

/// `log2 n`, rounded down.
pub open spec fn log2(n: nat) -> nat
    decreases n,
{
    if n <= 1 {
        0
    } else {
        1 + log2(n / 2)
    }
}

/// A proof for vectors of length `n = 2^k` has `k` rounds: `k` points in
/// each of `L` and `R`.
pub proof fn lemma_ipa_rounds(log: Seq<Entry>, a: Seq<nat>, b: Seq<nat>, g: Seq<nat>, h: Seq<nat>, u: nat)
    requires
        a.len() == b.len(),
        a.len() == g.len(),
        a.len() == h.len(),
        is_pow2(a.len()),
    ensures
        ipa_prove_spec(log, a, b, g, h, u).0 matches Some(p) ==> p.ls.len() == log2(a.len())
            && p.rs.len() == log2(a.len()),
    decreases a.len(),
{
    let n = a.len();
    if n > 1 {
        let half = n / 2;
        let hf = half as int;
        let l = commit_with_ip(a.take(hf), b.skip(hf), g.skip(hf), h.take(hf), u);
        let r = commit_with_ip(a.skip(hf), b.take(hf), g.take(hf), h.skip(hf), u);
        let log1 = with_point(with_point(log, l_label(), l), r_label(), r);
        let x = challenge_value(log1, x_label());
        let log2_ = with_challenge(log1, x_label());
        if invertible(x) {
            let y = field_inv(x);
            lemma_ipa_rounds(
                log2_,
                fold(a.take(hf), a.skip(hf), x, y),
                fold(b.take(hf), b.skip(hf), y, x),
                fold(g.take(hf), g.skip(hf), y, x),
                fold(h.take(hf), h.skip(hf), x, y),
                u,
            );
        }
    }
}

} // verus!
