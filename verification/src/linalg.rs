//! Vectors of field elements and of points: inner products, element-wise
//! products, powers, sparse matrix-vector products and Pedersen
//! commitments.
//!
//! Pairs of vectors are combined position by position up to the shorter
//! length, as zipping them does.
use crate::field::{fr_modulus, Scalar};
use crate::group::Point;
use vstd::arithmetic::div_mod::{lemma_add_mod_noop, lemma_mul_mod_noop_left, lemma_mul_mod_noop_right};
use vstd::arithmetic::mul::lemma_mul_is_commutative;
use vstd::prelude::*;

verus! {

/// A sparse matrix: each row lists `(coefficient, column)` pairs.
pub type Matrix = Vec<Vec<(Scalar, usize)>>;

pub open spec fn scalars_wf(s: Seq<Scalar>) -> bool {
    forall|i: int| 0 <= i < s.len() ==> #[trigger] s[i].wf()
}

pub open spec fn points_wf(p: Seq<Point>) -> bool {
    forall|i: int| 0 <= i < p.len() ==> #[trigger] p[i].wf()
}

/// The integers that a vector of field elements stands for.
pub open spec fn values(s: Seq<Scalar>) -> Seq<nat> {
    Seq::new(s.len(), |i: int| s[i].value())
}

/// The discrete logarithms of a vector of points.
pub open spec fn logs(p: Seq<Point>) -> Seq<nat> {
    Seq::new(p.len(), |i: int| p[i].log())
}

pub open spec fn min_len(a: nat, b: nat) -> nat {
    if a <= b {
        a
    } else {
        b
    }
}

/// `sum_{i < n} a[i] * b[i]`.
pub open spec fn dot_prefix(a: Seq<nat>, b: Seq<nat>, n: nat) -> nat
    decreases n,
{
    if n == 0 {
        0
    } else {
        dot_prefix(a, b, (n - 1) as nat) + a[n - 1] * b[n - 1]
    }
}

/// The inner product over the common length.
pub open spec fn dot(a: Seq<nat>, b: Seq<nat>) -> nat {
    dot_prefix(a, b, min_len(a.len(), b.len()))
}

/// Element-wise products modulo `r`.
pub open spec fn hadamard_spec(a: Seq<nat>, b: Seq<nat>) -> Seq<nat> {
    Seq::new(min_len(a.len(), b.len()), |i: int| (a[i] * b[i]) % fr_modulus())
}

/// `b^e mod r`.
pub open spec fn pow_mod(b: nat, e: nat) -> nat
    decreases e,
{
    if e == 0 {
        1
    } else {
        (pow_mod(b, (e - 1) as nat) * b) % fr_modulus()
    }
}

/// `1, b, b^2, ..., b^(n-1)` modulo `r`.
pub open spec fn powers_spec(b: nat, n: nat) -> Seq<nat> {
    Seq::new(n, |i: int| pow_mod(b, i as nat))
}

/// `sum_{k < n} row[k].coeff * z[row[k].col]`.
pub open spec fn row_eval_prefix(row: Seq<(Scalar, usize)>, z: Seq<nat>, n: nat) -> nat
    decreases n,
{
    if n == 0 {
        0
    } else {
        row_eval_prefix(row, z, (n - 1) as nat) + row[n - 1].0.value() * z[row[n - 1].1 as int]
    }
}

/// A sparse row applied to a vector.
pub open spec fn row_eval(row: Seq<(Scalar, usize)>, z: Seq<nat>) -> nat {
    row_eval_prefix(row, z, row.len())
}

/// Every column that the first `num_rows` rows name is an index of a vector
/// of length `width`.
pub open spec fn columns_below(m: Seq<Vec<(Scalar, usize)>>, num_rows: nat, width: nat) -> bool {
    forall|i: int, k: int|
        0 <= i < num_rows && i < m.len() && 0 <= k < m[i]@.len() ==> (#[trigger] m[i]@[k]).1
            < width
}

/// Every coefficient of the matrix is canonical.
pub open spec fn matrix_wf(m: Seq<Vec<(Scalar, usize)>>) -> bool {
    forall|i: int, k: int| 0 <= i < m.len() && 0 <= k < m[i]@.len() ==> (#[trigger] m[i]@[k]).0.wf()
}

/// The first `num_rows` entries of `m z` modulo `r`; rows past the end of
/// `m` give zero.
pub open spec fn matvec_spec(m: Seq<Vec<(Scalar, usize)>>, z: Seq<nat>, num_rows: nat) -> Seq<nat> {
    Seq::new(
        num_rows,
        |i: int|
            if i < m.len() {
                row_eval(m[i]@, z) % fr_modulus()
            } else {
                0
            },
    )
}

/// `v` cut or padded with zeros to length `n`.
pub open spec fn pad_spec(v: Seq<nat>, n: nat) -> Seq<nat> {
    Seq::new(
        n,
        |i: int|
            if i < v.len() {
                v[i]
            } else {
                0
            },
    )
}

/// The discrete logarithm of `<a, g> + <b, h> + <a, b> u`.
pub open spec fn commit_with_ip(a: Seq<nat>, b: Seq<nat>, g: Seq<nat>, h: Seq<nat>, u: nat) -> nat {
    (dot(a, g) + dot(b, h) + u * dot(a, b)) % fr_modulus()
}

/// `((x mod r) + (y mod r)) mod r = (x + y) mod r`.
pub proof fn lemma_add_mod(x: nat, y: nat)
    ensures
        ((x % fr_modulus()) + (y % fr_modulus())) % fr_modulus() == (x + y) % fr_modulus(),
{
    lemma_add_mod_noop(x as int, y as int, fr_modulus() as int);
}

/// `((x mod r) * (y mod r)) mod r = (x y) mod r`.
pub proof fn lemma_mul_mod(x: nat, y: nat)
    ensures
        ((x % fr_modulus()) * (y % fr_modulus())) % fr_modulus() == (x * y) % fr_modulus(),
        ((x % fr_modulus()) * y) % fr_modulus() == (x * y) % fr_modulus(),
        (x * (y % fr_modulus())) % fr_modulus() == (x * y) % fr_modulus(),
{
    let m = fr_modulus() as int;
    lemma_mul_mod_noop_left(x as int, y as int, m);
    lemma_mul_mod_noop_right(x as int, y as int, m);
    lemma_mul_mod_noop_left(x as int, (y % fr_modulus()) as int, m);
}

/// `<a, b>` of field elements.
pub fn inner_product(a: &[Scalar], b: &[Scalar]) -> (s: Scalar)
    requires
        scalars_wf(a@),
        scalars_wf(b@),
    ensures
        s.wf(),
        s.value() == dot(values(a@), values(b@)) % fr_modulus(),
{
    let n = if a.len() <= b.len() {
        a.len()
    } else {
        b.len()
    };
    let ghost va = values(a@);
    let ghost vb = values(b@);
    let mut acc = Scalar::zero();
    let mut i: usize = 0;
    while i < n
        invariant
            n == min_len(a@.len(), b@.len()),
            i <= n,
            scalars_wf(a@),
            scalars_wf(b@),
            va == values(a@),
            vb == values(b@),
            acc.wf(),
            acc.value() == dot_prefix(va, vb, i as nat) % fr_modulus(),
        decreases n - i,
    {
        let t = a[i].mul(&b[i]);
        let ghost prev = acc.value();
        acc = acc.add(&t);
        proof {
            let d = dot_prefix(va, vb, i as nat);
            let p = va[i as int] * vb[i as int];
            lemma_add_mod(d, p);
            assert(dot_prefix(va, vb, (i + 1) as nat) == d + p);
            assert(p % fr_modulus() % fr_modulus() == p % fr_modulus()) by {
                vstd::arithmetic::div_mod::lemma_mod_twice(p as int, fr_modulus() as int);
            }
            lemma_add_mod(d % fr_modulus(), p);
            vstd::arithmetic::div_mod::lemma_mod_twice(d as int, fr_modulus() as int);
        }
        i = i + 1;
    }
    acc
}

/// Element-wise products of field elements.
pub fn hadamard(a: &[Scalar], b: &[Scalar]) -> (v: Vec<Scalar>)
    requires
        scalars_wf(a@),
        scalars_wf(b@),
    ensures
        scalars_wf(v@),
        values(v@) == hadamard_spec(values(a@), values(b@)),
{
    let n = if a.len() <= b.len() {
        a.len()
    } else {
        b.len()
    };
    let mut out: Vec<Scalar> = Vec::new();
    let mut i: usize = 0;
    while i < n
        invariant
            n == min_len(a@.len(), b@.len()),
            i <= n,
            scalars_wf(a@),
            scalars_wf(b@),
            out@.len() == i,
            scalars_wf(out@),
            forall|j: int|
                0 <= j < i ==> #[trigger] out@[j].value() == (a@[j].value() * b@[j].value())
                    % fr_modulus(),
        decreases n - i,
    {
        let t = a[i].mul(&b[i]);
        out.push(t);
        i = i + 1;
    }
    assert(values(out@) =~= hadamard_spec(values(a@), values(b@)));
    out
}

/// `1, base, base^2, ..., base^(n-1)`.
pub fn powers_of(base: Scalar, n: usize) -> (v: Vec<Scalar>)
    requires
        base.wf(),
    ensures
        scalars_wf(v@),
        values(v@) == powers_spec(base.value(), n as nat),
{
    let mut out: Vec<Scalar> = Vec::with_capacity(n);
    let mut cur = Scalar::one();
    let mut i: usize = 0;
    while i < n
        invariant
            i <= n,
            base.wf(),
            cur.wf(),
            cur.value() == pow_mod(base.value(), i as nat),
            out@.len() == i,
            scalars_wf(out@),
            forall|j: int| 0 <= j < i ==> #[trigger] out@[j].value() == pow_mod(base.value(), j as nat),
        decreases n - i,
    {
        out.push(cur);
        cur = cur.mul(&base);
        i = i + 1;
    }
    assert(values(out@) =~= powers_spec(base.value(), n as nat));
    out
}

/// The first `num_rows` entries of the sparse product `m z`.
pub fn sparse_matvec(m: &Matrix, z: &[Scalar], num_rows: usize) -> (v: Vec<Scalar>)
    requires
        matrix_wf(m@),
        scalars_wf(z@),
        columns_below(m@, num_rows as nat, z@.len()),
    ensures
        scalars_wf(v@),
        values(v@) == matvec_spec(m@, values(z@), num_rows as nat),
{
    let ghost vz = values(z@);
    let mut out: Vec<Scalar> = Vec::new();
    let mut i: usize = 0;
    while i < num_rows
        invariant
            i <= num_rows,
            matrix_wf(m@),
            scalars_wf(z@),
            vz == values(z@),
            columns_below(m@, num_rows as nat, z@.len()),
            out@.len() == i,
            scalars_wf(out@),
            forall|j: int|
                0 <= j < i ==> #[trigger] out@[j].value() == matvec_spec(m@, vz, num_rows as nat)[j],
        decreases num_rows - i,
    {
        if i < m.len() {
            let row = &m[i];
            let mut acc = Scalar::zero();
            let mut k: usize = 0;
            while k < row.len()
                invariant
                    i < num_rows,
                    i < m@.len(),
                    row == &m@[i as int],
                    k <= row@.len(),
                    matrix_wf(m@),
                    scalars_wf(z@),
                    vz == values(z@),
                    columns_below(m@, num_rows as nat, z@.len()),
                    acc.wf(),
                    acc.value() == row_eval_prefix(row@, vz, k as nat) % fr_modulus(),
                decreases row@.len() - k,
            {
                let (coeff, col) = row[k];
                assert(m@[i as int]@[k as int] == row@[k as int]);
                assert(coeff.wf());
                assert(col < z@.len());
                let t = coeff.mul(&z[col]);
                acc = acc.add(&t);
                proof {
                    let d = row_eval_prefix(row@, vz, k as nat);
                    let p = coeff.value() * vz[col as int];
                    assert(row_eval_prefix(row@, vz, (k + 1) as nat) == d + p);
                    lemma_add_mod(d, p);
                    vstd::arithmetic::div_mod::lemma_mod_twice(p as int, fr_modulus() as int);
                    vstd::arithmetic::div_mod::lemma_mod_twice(d as int, fr_modulus() as int);
                    lemma_add_mod(d % fr_modulus(), p);
                }
                k = k + 1;
            }
            out.push(acc);
        } else {
            out.push(Scalar::zero());
        }
        i = i + 1;
    }
    assert(values(out@) =~= matvec_spec(m@, vz, num_rows as nat));
    out
}

/// `v` cut or padded with zeros to length `new_len`.
pub fn pad_zero(v: Vec<Scalar>, new_len: usize) -> (w: Vec<Scalar>)
    requires
        scalars_wf(v@),
    ensures
        scalars_wf(w@),
        values(w@) == pad_spec(values(v@), new_len as nat),
{
    let mut out: Vec<Scalar> = Vec::with_capacity(new_len);
    let mut i: usize = 0;
    while i < new_len
        invariant
            i <= new_len,
            scalars_wf(v@),
            out@.len() == i,
            scalars_wf(out@),
            forall|j: int| 0 <= j < i ==> #[trigger] out@[j].value() == pad_spec(values(v@), new_len as nat)[j],
        decreases new_len - i,
    {
        if i < v.len() {
            out.push(v[i]);
        } else {
            out.push(Scalar::zero());
        }
        i = i + 1;
    }
    assert(values(out@) =~= pad_spec(values(v@), new_len as nat));
    out
}

/// `(a[i] + b[i]) mod r` over the common length.
pub open spec fn add_spec(a: Seq<nat>, b: Seq<nat>) -> Seq<nat> {
    Seq::new(min_len(a.len(), b.len()), |i: int| (a[i] + b[i]) % fr_modulus())
}

/// `(a[i] c) mod r` for each position.
pub open spec fn scale_spec(a: Seq<nat>, c: nat) -> Seq<nat> {
    Seq::new(a.len(), |i: int| (a[i] * c) % fr_modulus())
}

proof fn lemma_dot_prefix_zeros(z: Seq<nat>, g: Seq<nat>, k: nat)
    requires
        k <= z.len(),
        forall|i: int| 0 <= i < z.len() ==> z[i] == 0,
    ensures
        dot_prefix(z, g, k) == 0,
    decreases k,
{
    if k > 0 {
        lemma_dot_prefix_zeros(z, g, (k - 1) as nat);
        assert(z[k - 1] * g[k - 1] == 0) by (nonlinear_arith)
            requires
                z[k - 1] == 0,
        ;
    }
}

/// Pedersen commitments are linear in the committed scalars: the
/// commitment (the discrete logarithm that `pedersen_vec` returns) to
/// `a + b` is the sum of the commitments to `a` and to `b`, and the
/// commitment to `c a` is `c` times the commitment to `a`.
pub proof fn lemma_pedersen_linear(a: Seq<nat>, b: Seq<nat>, c: nat, g: Seq<nat>)
    requires
        a.len() == g.len(),
        b.len() == g.len(),
    ensures
        dot(add_spec(a, b), g) % fr_modulus() == (dot(a, g) % fr_modulus() + dot(b, g)
            % fr_modulus()) % fr_modulus(),
        dot(scale_spec(a, c), g) % fr_modulus() == ((dot(a, g) % fr_modulus()) * c)
            % fr_modulus(),
{
    assert forall|i: int| 0 <= i < a.len() implies #[trigger] b[i] * 1 == b[i] by {}
    assert(add_spec(a, b) =~= crate::algebra::lin(a, b, 1));
    crate::algebra::lemma_dot_lin_left(a, b, 1, g);
    assert(1 * dot(b, g) == dot(b, g));
    lemma_add_mod(dot(a, g), dot(b, g));
    let z = Seq::new(a.len(), |i: int| 0nat);
    assert forall|i: int| 0 <= i < a.len() implies #[trigger] (z[i] + a[i] * c) == a[i] * c by {}
    assert(scale_spec(a, c) =~= crate::algebra::lin(z, a, c));
    crate::algebra::lemma_dot_lin_left(z, a, c, g);
    lemma_dot_prefix_zeros(z, g, z.len());
    assert(dot(z, g) == 0);
    lemma_mul_mod(dot(a, g), c);
    assert(c * dot(a, g) == dot(a, g) * c) by (nonlinear_arith);
}

/// The Pedersen commitment `sum_i [a_i] g_i`.
pub fn pedersen_vec(a: &[Scalar], g_vec: &[Point]) -> (p: Point)
    requires
        a@.len() == g_vec@.len(),
        scalars_wf(a@),
        points_wf(g_vec@),
    ensures
        p.wf(),
        p.log() == dot(values(a@), logs(g_vec@)) % fr_modulus(),
{
    let ghost va = values(a@);
    let ghost lg = logs(g_vec@);
    let mut acc = Point::zero();
    let mut i: usize = 0;
    while i < a.len()
        invariant
            a@.len() == g_vec@.len(),
            i <= a@.len(),
            scalars_wf(a@),
            points_wf(g_vec@),
            va == values(a@),
            lg == logs(g_vec@),
            acc.wf(),
            acc.log() == dot_prefix(va, lg, i as nat) % fr_modulus(),
        decreases a@.len() - i,
    {
        let t = g_vec[i].mul(&a[i]);
        acc = acc.add(&t);
        proof {
            let d = dot_prefix(va, lg, i as nat);
            let p = va[i as int] * lg[i as int];
            lemma_mul_is_commutative(lg[i as int] as int, va[i as int] as int);
            assert(dot_prefix(va, lg, (i + 1) as nat) == d + p);
            lemma_add_mod(d, p);
            vstd::arithmetic::div_mod::lemma_mod_twice(p as int, fr_modulus() as int);
            vstd::arithmetic::div_mod::lemma_mod_twice(d as int, fr_modulus() as int);
            lemma_add_mod(d % fr_modulus(), p);
        }
        i = i + 1;
    }
    acc
}

/// The commitment `<a, g> + <b, h> + [<a, b>] u` to two vectors and their
/// inner product.
pub fn pedersen_with_ip(a: &[Scalar], b: &[Scalar], g_vec: &[Point], h_vec: &[Point], u: Point) -> (p: Point)
    requires
        a@.len() == g_vec@.len(),
        b@.len() == h_vec@.len(),
        scalars_wf(a@),
        scalars_wf(b@),
        points_wf(g_vec@),
        points_wf(h_vec@),
        u.wf(),
    ensures
        p.wf(),
        p.log() == commit_with_ip(values(a@), values(b@), logs(g_vec@), logs(h_vec@), u.log()),
{
    let c = inner_product(a, b);
    let pa = pedersen_vec(a, g_vec);
    let pb = pedersen_vec(b, h_vec);
    let s = pa.add(&pb);
    let uc = u.mul(&c);
    let r = s.add(&uc);
    proof {
        let d1 = dot(values(a@), logs(g_vec@));
        let d2 = dot(values(b@), logs(h_vec@));
        let d3 = dot(values(a@), values(b@));
        let ul = u.log();
        lemma_add_mod(d1, d2);
        lemma_mul_mod(ul, d3);
        lemma_add_mod(d1 + d2, ul * d3);
    }
    r
}

} // verus!
