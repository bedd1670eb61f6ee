//! Facts about sums of products modulo `r` that the protocols' proofs of
//! completeness rest on.
use crate::field::fr_modulus;
use crate::linalg::{dot, dot_prefix, hadamard_spec, min_len, pow_mod};
use vstd::arithmetic::div_mod::{
    lemma_add_mod_noop, lemma_mod_twice, lemma_mul_mod_noop_left, lemma_mul_mod_noop_right,
};
use vstd::prelude::*;

verus! {

/// `a` and `b` are congruent modulo `r`.
pub open spec fn eqm(a: int, b: int) -> bool {
    a % (fr_modulus() as int) == b % (fr_modulus() as int)
}

pub proof fn lemma_eqm_mod(a: int)
    ensures
        eqm(a % (fr_modulus() as int), a),
{
    lemma_mod_twice(a, fr_modulus() as int);
}

pub proof fn lemma_eqm_add(a: int, b: int, c: int, d: int)
    requires
        eqm(a, b),
        eqm(c, d),
    ensures
        eqm(a + c, b + d),
{
    let m = fr_modulus() as int;
    lemma_add_mod_noop(a, c, m);
    lemma_add_mod_noop(b, d, m);
}

pub proof fn lemma_eqm_mul(a: int, b: int, c: int, d: int)
    requires
        eqm(a, b),
        eqm(c, d),
    ensures
        eqm(a * c, b * d),
{
    let m = fr_modulus() as int;
    lemma_mul_mod_noop_left(a, c, m);
    lemma_mul_mod_noop_left(b, c, m);
    lemma_mul_mod_noop_right(b, c, m);
    lemma_mul_mod_noop_right(b, d, m);
}

/// Congruent integers below `r` are equal.
pub proof fn lemma_eqm_small(a: int, b: int)
    requires
        eqm(a, b),
        0 <= a < fr_modulus(),
        0 <= b < fr_modulus(),
    ensures
        a == b,
{
    vstd::arithmetic::div_mod::lemma_small_mod(a as nat, fr_modulus());
    vstd::arithmetic::div_mod::lemma_small_mod(b as nat, fr_modulus());
}

/// A dot product only reads the first `n` positions.
pub proof fn lemma_dot_prefix_agree(a1: Seq<nat>, b1: Seq<nat>, a2: Seq<nat>, b2: Seq<nat>, n: nat)
    requires
        forall|i: int| 0 <= i < n ==> a1[i] == a2[i] && b1[i] == b2[i],
    ensures
        dot_prefix(a1, b1, n) == dot_prefix(a2, b2, n),
    decreases n,
{
    if n > 0 {
        lemma_dot_prefix_agree(a1, b1, a2, b2, (n - 1) as nat);
    }
}

/// `dot_prefix(a, b, m + k)` splits after position `m`.
pub proof fn lemma_dot_prefix_split(a: Seq<nat>, b: Seq<nat>, m: nat, k: nat)
    requires
        m + k <= a.len(),
        m + k <= b.len(),
    ensures
        dot_prefix(a, b, m + k) == dot_prefix(a, b, m) + dot_prefix(a.skip(m as int), b.skip(m as int), k),
    decreases k,
{
    if k > 0 {
        lemma_dot_prefix_split(a, b, m, (k - 1) as nat);
        assert(a.skip(m as int)[k - 1] == a[m + k - 1]);
        assert(b.skip(m as int)[k - 1] == b[m + k - 1]);
    }
}

/// The inner product of two vectors of length `2 m` is the sum of the
/// inner products of their halves.
pub proof fn lemma_dot_halves(a: Seq<nat>, b: Seq<nat>, m: nat)
    requires
        a.len() == 2 * m,
        b.len() == 2 * m,
    ensures
        dot(a, b) == dot(a.take(m as int), b.take(m as int)) + dot(a.skip(m as int), b.skip(m as int)),
{
    lemma_dot_prefix_split(a, b, m, m);
    lemma_dot_prefix_agree(a.take(m as int), b.take(m as int), a, b, m);
    assert(min_len(a.len(), b.len()) == m + m);
}

/// `(l[i] x + r[i] y) mod r` for each position of the common length.
pub open spec fn fold(l: Seq<nat>, r: Seq<nat>, x: nat, y: nat) -> Seq<nat> {
    Seq::new(min_len(l.len(), r.len()), |i: int| (l[i] * x + r[i] * y) % fr_modulus())
}

proof fn lemma_fold_term(p: int, q: int, s: int, t: int, x: int, y: int)
    requires
        eqm((x * y) as int, 1),
    ensures
        eqm(
            ((p * x + q * y) % (fr_modulus() as int)) * ((s * y + t * x) % (fr_modulus() as int)),
            p * s + q * t + (x * x) * (p * t) + (y * y) * (q * s),
        ),
{
    let m = fr_modulus() as int;
    let f1 = p * x + q * y;
    let f2 = s * y + t * x;
    lemma_eqm_mod(f1);
    lemma_eqm_mod(f2);
    lemma_eqm_mul(f1 % m, f1, f2 % m, f2);
    assert(f1 * f2 == (p * x) * (s * y) + (p * x) * (t * x) + (q * y) * (s * y) + (q * y) * (t * x))
        by (nonlinear_arith)
        requires
            f1 == p * x + q * y,
            f2 == s * y + t * x,
    ;
    assert((p * x) * (s * y) == (p * s) * (x * y)) by (nonlinear_arith);
    assert((p * x) * (t * x) == (x * x) * (p * t)) by (nonlinear_arith);
    assert((q * y) * (s * y) == (y * y) * (q * s)) by (nonlinear_arith);
    assert((q * y) * (t * x) == (q * t) * (x * y)) by (nonlinear_arith);
    assert((p * s) * (x * y) + (q * t) * (x * y) == (p * s + q * t) * (x * y)) by (nonlinear_arith);
    lemma_eqm_mul(p * s + q * t, p * s + q * t, x * y, 1);
    lemma_eqm_add(
        (p * s + q * t) * (x * y),
        p * s + q * t,
        (x * x) * (p * t) + (y * y) * (q * s),
        (x * x) * (p * t) + (y * y) * (q * s),
    );
}

proof fn lemma_fold_dot_prefix(
    p: Seq<nat>,
    q: Seq<nat>,
    s: Seq<nat>,
    t: Seq<nat>,
    x: nat,
    y: nat,
    k: nat,
)
    requires
        p.len() == q.len(),
        s.len() == t.len(),
        p.len() == s.len(),
        k <= p.len(),
        eqm((x * y) as int, 1),
    ensures
        eqm(
            dot_prefix(fold(p, q, x, y), fold(s, t, y, x), k) as int,
            (dot_prefix(p, s, k) + dot_prefix(q, t, k) + (x * x) * dot_prefix(p, t, k) + (y * y)
                * dot_prefix(q, s, k)) as int,
        ),
    decreases k,
{
    if k > 0 {
        let j = (k - 1) as nat;
        lemma_fold_dot_prefix(p, q, s, t, x, y, j);
        let (pj, qj, sj, tj) = (p[j as int] as int, q[j as int] as int, s[j as int] as int, t[j as int] as int);
        lemma_fold_term(pj, qj, sj, tj, x as int, y as int);
        let f1 = fold(p, q, x, y);
        let f2 = fold(s, t, y, x);
        assert(f1[j as int] == (pj * x + qj * y) % (fr_modulus() as int));
        assert(f2[j as int] == (sj * y + tj * x) % (fr_modulus() as int));
        let (d_ps, d_qt, d_pt, d_qs) = (
            dot_prefix(p, s, j) as int,
            dot_prefix(q, t, j) as int,
            dot_prefix(p, t, j) as int,
            dot_prefix(q, s, j) as int,
        );
        let xx = (x * x) as int;
        let yy = (y * y) as int;
        assert(xx * (d_pt + pj * tj) == xx * d_pt + xx * (pj * tj)) by (nonlinear_arith);
        assert(yy * (d_qs + qj * sj) == yy * d_qs + yy * (qj * sj)) by (nonlinear_arith);
        lemma_eqm_add(
            dot_prefix(f1, f2, j) as int,
            d_ps + d_qt + xx * d_pt + yy * d_qs,
            (f1[j as int] * f2[j as int]) as int,
            pj * sj + qj * tj + xx * (pj * tj) + yy * (qj * sj),
        );
        assert(dot_prefix(f1, f2, k) == dot_prefix(f1, f2, j) + f1[j as int] * f2[j as int]);
        let rk = (dot_prefix(p, s, k) + dot_prefix(q, t, k) + (x * x) * dot_prefix(p, t, k) + (y * y)
            * dot_prefix(q, s, k)) as int;
        assert(dot_prefix(p, s, k) == d_ps + pj * sj);
        assert(dot_prefix(q, t, k) == d_qt + qj * tj);
        assert(dot_prefix(p, t, k) == d_pt + pj * tj);
        assert(dot_prefix(q, s, k) == d_qs + qj * sj);
        assert(rk == (d_ps + d_qt + xx * d_pt + yy * d_qs) + (pj * sj + qj * tj + xx * (pj * tj) + yy
            * (qj * sj)));
        let lk = dot_prefix(f1, f2, k) as int;
        assert(lk == dot_prefix(f1, f2, j) as int + (f1[j as int] * f2[j as int]) as int);
        assert(eqm(lk, rk));
    } else {
        assert((x * x) * 0 == 0 && (y * y) * 0 == 0) by (nonlinear_arith);
    }
}

/// Folding both vectors of an inner product with challenges `x` and
/// `y = 1/x`: the result is the inner products of the halves plus the cross
/// terms scaled by `x^2` and `y^2`.
pub proof fn lemma_fold_dot(p: Seq<nat>, q: Seq<nat>, s: Seq<nat>, t: Seq<nat>, x: nat, y: nat)
    requires
        p.len() == q.len(),
        s.len() == t.len(),
        p.len() == s.len(),
        eqm((x * y) as int, 1),
    ensures
        eqm(
            dot(fold(p, q, x, y), fold(s, t, y, x)) as int,
            (dot(p, s) + dot(q, t) + (x * x) * dot(p, t) + (y * y) * dot(q, s)) as int,
        ),
{
    lemma_fold_dot_prefix(p, q, s, t, x, y, p.len());
}

/// The inner product of two concatenations is the sum of the inner
/// products of the parts.
pub proof fn lemma_dot_concat(p1: Seq<nat>, p2: Seq<nat>, q1: Seq<nat>, q2: Seq<nat>)
    requires
        p1.len() == q1.len(),
        p2.len() == q2.len(),
    ensures
        dot(p1 + p2, q1 + q2) == dot(p1, q1) + dot(p2, q2),
{
    let (p, q) = (p1 + p2, q1 + q2);
    let m = p1.len();
    let k = p2.len();
    lemma_dot_prefix_split(p, q, m, k);
    lemma_dot_prefix_agree(p, q, p1, q1, m);
    lemma_dot_prefix_agree(p.skip(m as int), q.skip(m as int), p2, q2, k);
    assert(min_len(p.len(), q.len()) == m + k);
}

/// `(p[i] + s[i] x) mod r` over the common length.
pub open spec fn lin(p: Seq<nat>, s: Seq<nat>, x: nat) -> Seq<nat> {
    Seq::new(min_len(p.len(), s.len()), |i: int| (p[i] + s[i] * x) % fr_modulus())
}

proof fn lemma_dot_lin_left_prefix(p: Seq<nat>, s: Seq<nat>, x: nat, q: Seq<nat>, k: nat)
    requires
        p.len() == s.len(),
        p.len() == q.len(),
        k <= p.len(),
    ensures
        eqm(dot_prefix(lin(p, s, x), q, k) as int, (dot_prefix(p, q, k) + x * dot_prefix(s, q, k)) as int),
    decreases k,
{
    if k > 0 {
        let j = (k - 1) as nat;
        lemma_dot_lin_left_prefix(p, s, x, q, j);
        let (pj, sj, qj) = (p[j as int] as int, s[j as int] as int, q[j as int] as int);
        let m = fr_modulus() as int;
        let l = lin(p, s, x);
        assert(l[j as int] == (pj + sj * x) % m);
        lemma_eqm_mod(pj + sj * x);
        lemma_eqm_mul((pj + sj * x) % m, pj + sj * x, qj, qj);
        let (dp, ds) = (dot_prefix(p, q, j) as int, dot_prefix(s, q, j) as int);
        assert((pj + sj * x) * qj == pj * qj + x * (sj * qj)) by (nonlinear_arith);
        assert(x * (ds + sj * qj) == x * ds + x * (sj * qj)) by (nonlinear_arith);
        lemma_eqm_add(dot_prefix(l, q, j) as int, dp + x * ds, l[j as int] * qj, pj * qj + x * (sj * qj));
        assert(dot_prefix(l, q, k) == dot_prefix(l, q, j) + l[j as int] * q[j as int]);
        assert(dot_prefix(p, q, k) == dp + pj * qj);
        assert(dot_prefix(s, q, k) == ds + sj * qj);
    } else {
        assert(x * 0 == 0) by (nonlinear_arith);
    }
}

/// `<p + x s, q> = <p, q> + x <s, q>` modulo `r`.
pub proof fn lemma_dot_lin_left(p: Seq<nat>, s: Seq<nat>, x: nat, q: Seq<nat>)
    requires
        p.len() == s.len(),
        p.len() == q.len(),
    ensures
        eqm(dot(lin(p, s, x), q) as int, (dot(p, q) + x * dot(s, q)) as int),
{
    lemma_dot_lin_left_prefix(p, s, x, q, p.len());
}

proof fn lemma_dot_lin_both_prefix(p: Seq<nat>, s: Seq<nat>, q: Seq<nat>, t: Seq<nat>, x: nat, k: nat)
    requires
        p.len() == s.len(),
        p.len() == q.len(),
        p.len() == t.len(),
        k <= p.len(),
    ensures
        eqm(
            dot_prefix(lin(p, s, x), lin(q, t, x), k) as int,
            (dot_prefix(p, q, k) + x * (dot_prefix(p, t, k) + dot_prefix(s, q, k)) + (x * x)
                * dot_prefix(s, t, k)) as int,
        ),
    decreases k,
{
    let m = fr_modulus() as int;
    if k > 0 {
        let j = (k - 1) as nat;
        lemma_dot_lin_both_prefix(p, s, q, t, x, j);
        let (pj, sj, qj, tj) = (p[j as int] as int, s[j as int] as int, q[j as int] as int, t[j as int] as int);
        let l = lin(p, s, x);
        let r = lin(q, t, x);
        assert(l[j as int] == (pj + sj * x) % m);
        assert(r[j as int] == (qj + tj * x) % m);
        lemma_eqm_mod(pj + sj * x);
        lemma_eqm_mod(qj + tj * x);
        lemma_eqm_mul((pj + sj * x) % m, pj + sj * x, (qj + tj * x) % m, qj + tj * x);
        let xi = x as int;
        let xx = (x * x) as int;
        assert((pj + sj * xi) * (qj + tj * xi) == pj * qj + pj * (tj * xi) + (sj * xi) * qj + (sj
            * xi) * (tj * xi)) by (nonlinear_arith);
        assert(pj * (tj * xi) == xi * (pj * tj)) by (nonlinear_arith);
        assert((sj * xi) * qj == xi * (sj * qj)) by (nonlinear_arith);
        assert((sj * xi) * (tj * xi) == xx * (sj * tj)) by (nonlinear_arith)
            requires
                xx == xi * xi,
        ;
        assert(xi * (pj * tj) + xi * (sj * qj) == xi * (pj * tj + sj * qj)) by (nonlinear_arith);
        let (dpq, dpt, dsq, dst) = (
            dot_prefix(p, q, j) as int,
            dot_prefix(p, t, j) as int,
            dot_prefix(s, q, j) as int,
            dot_prefix(s, t, j) as int,
        );
        lemma_eqm_add(
            dot_prefix(l, r, j) as int,
            dpq + xi * (dpt + dsq) + xx * dst,
            (l[j as int] * r[j as int]) as int,
            pj * qj + xi * (pj * tj + sj * qj) + xx * (sj * tj),
        );
        assert(dot_prefix(l, r, k) == dot_prefix(l, r, j) + l[j as int] * r[j as int]);
        assert(dot_prefix(p, q, k) == dpq + pj * qj);
        assert(dot_prefix(p, t, k) == dpt + pj * tj);
        assert(dot_prefix(s, q, k) == dsq + sj * qj);
        assert(dot_prefix(s, t, k) == dst + sj * tj);
        assert(dpq + xi * (dpt + dsq) + xx * dst + (pj * qj + xi * (pj * tj + sj * qj) + xx * (sj
            * tj)) == (dpq + pj * qj) + xi * ((dpt + pj * tj) + (dsq + sj * qj)) + xx * (dst + sj
            * tj)) by (nonlinear_arith);
    } else {
        assert(x * (0 + 0) + (x * x) * 0 == 0) by (nonlinear_arith);
    }
}

/// `<p + x s, q + x t> = <p, q> + x (<p, t> + <s, q>) + x^2 <s, t>`
/// modulo `r`.
pub proof fn lemma_dot_lin_both(p: Seq<nat>, s: Seq<nat>, q: Seq<nat>, t: Seq<nat>, x: nat)
    requires
        p.len() == s.len(),
        p.len() == q.len(),
        p.len() == t.len(),
    ensures
        eqm(
            dot(lin(p, s, x), lin(q, t, x)) as int,
            (dot(p, q) + x * (dot(p, t) + dot(s, q)) + (x * x) * dot(s, t)) as int,
        ),
{
    lemma_dot_lin_both_prefix(p, s, q, t, x, p.len());
}

/// `y^i (1/y)^i = 1` modulo `r`.
pub proof fn lemma_pow_mod_inverse(y: nat, yi: nat, i: nat)
    requires
        eqm((y * yi) as int, 1),
    ensures
        eqm((pow_mod(y, i) * pow_mod(yi, i)) as int, 1),
    decreases i,
{
    let m = fr_modulus() as int;
    if i > 0 {
        let j = (i - 1) as nat;
        lemma_pow_mod_inverse(y, yi, j);
        let (a, b) = (pow_mod(y, j) as int, pow_mod(yi, j) as int);
        lemma_eqm_mod(a * y);
        lemma_eqm_mod(b * yi);
        lemma_eqm_mul((a * y) % m, a * y, (b * yi) % m, b * yi);
        assert((a * y) * (b * yi) == (a * b) * (y * yi)) by (nonlinear_arith);
        lemma_eqm_mul(a * b, 1, (y * yi) as int, 1);
        assert(eqm((a * b) * (y * yi), 1));
        assert(eqm((a * y) * (b * yi), 1));
        assert(eqm(((a * y) % m) * ((b * yi) % m), (a * y) * (b * yi)));
        assert(pow_mod(y, i) == (a * y) % m);
        assert(pow_mod(yi, i) == (b * yi) % m);
        assert(eqm(((a * y) % m) * ((b * yi) % m), 1));
    } else {
        assert(pow_mod(y, 0) == 1);
        assert(pow_mod(yi, 0) == 1);
        assert(pow_mod(y, 0) * pow_mod(yi, 0) == 1) by (nonlinear_arith)
            requires
                pow_mod(y, 0) == 1,
                pow_mod(yi, 0) == 1,
        ;
    }
}

/// Scaling one vector by `w` and the other by `v` position by position,
/// where every `v[i] w[i]` is one, leaves the inner product unchanged
/// modulo `r`.
pub proof fn lemma_dot_rescale(v: Seq<nat>, b: Seq<nat>, h: Seq<nat>, w: Seq<nat>, k: nat)
    requires
        v.len() == b.len(),
        v.len() == h.len(),
        v.len() == w.len(),
        k <= v.len(),
        forall|i: int| 0 <= i < v.len() ==> eqm((#[trigger] v[i] * w[i]) as int, 1),
    ensures
        eqm(dot_prefix(hadamard_spec(v, b), hadamard_spec(h, w), k) as int, dot_prefix(b, h, k) as int),
    decreases k,
{
    let m = fr_modulus() as int;
    if k > 0 {
        let j = (k - 1) as nat;
        lemma_dot_rescale(v, b, h, w, j);
        let (vj, bj, hj, wj) = (v[j as int] as int, b[j as int] as int, h[j as int] as int, w[j as int] as int);
        let p1 = hadamard_spec(v, b);
        let p2 = hadamard_spec(h, w);
        assert(p1[j as int] == (vj * bj) % m);
        assert(p2[j as int] == (hj * wj) % m);
        lemma_eqm_mod(vj * bj);
        lemma_eqm_mod(hj * wj);
        lemma_eqm_mul((vj * bj) % m, vj * bj, (hj * wj) % m, hj * wj);
        assert((vj * bj) * (hj * wj) == (bj * hj) * (vj * wj)) by (nonlinear_arith);
        assert(eqm(vj * wj, 1));
        lemma_eqm_mul(bj * hj, bj * hj, vj * wj, 1);
        lemma_eqm_add(
            dot_prefix(p1, p2, j) as int,
            dot_prefix(b, h, j) as int,
            (p1[j as int] * p2[j as int]) as int,
            bj * hj,
        );
        assert(dot_prefix(p1, p2, k) == dot_prefix(p1, p2, j) + p1[j as int] * p2[j as int]);
    }
}

} // verus!
