//! Example circuits, built in `ark_relations` constraint systems.
//!
//! A constraint system is described by the sequence of operations that
//! built it: public inputs and private witnesses allocated (with their
//! values) and constraints `<a, z> * <b, z> = <c, z>` enforced, where each of
//! `a`, `b`, `c` is a list of terms `(coefficient, variable)`. The variable
//! `One` is the constant one (index 0 of `z`), `Instance(i)` the `i`-th
//! public input (index `i`), and `Witness(j)` the `j`-th witness (index
//! `1 + inputs + j`).
use crate::field::{fr_modulus, Scalar};
use crate::linalg::{matrix_wf, pow_mod, row_eval, scalars_wf, values};
use crate::r1cs::{lemma_values_concat, r1cs_satisfied, R1csInstance};
use crate::linalg::matvec_spec;
use ark_bls12_381::Fr;
use ark_crypto_primitives::crh::sha256::constraints::{Sha256Gadget, UnitVar};
use ark_crypto_primitives::crh::CRHSchemeGadget;
use ark_ff::{BigInt, PrimeField};
use ark_r1cs_std::bits::uint8::UInt8;
use ark_r1cs_std::eq::EqGadget;
use ark_relations::r1cs::{
    ConstraintSystem, ConstraintSystemRef, LinearCombination, Namespace, SynthesisError, Variable,
};
use vstd::prelude::*;

verus! {

/// A variable of a constraint system.
#[derive(Clone, Copy, Debug, PartialEq, Eq)]
pub enum CsVariable {
    One,
    Instance(usize),
    Witness(usize),
}

/// An operation that builds a constraint system.
pub enum CsOp {
    /// A public input with the given value.
    Input(nat),
    /// A private witness with the given value.
    Witness(nat),
    /// The constraint `<a, z> * <b, z> = <c, z>`.
    Constraint(Seq<(nat, CsVariable)>, Seq<(nat, CsVariable)>, Seq<(nat, CsVariable)>),
}

#[verifier::external_type_specification]
#[verifier::external_body]
pub struct ExSynthesisError(SynthesisError);

/// An `ark_relations` constraint system over the BLS12-381 scalar field,
/// made by `ConstraintSystem::new_ref` (so it keeps assignments and builds
/// matrices), together with the lists of byte variables (`UInt8`) made in
/// it. It is held opaquely, its contents described by `cs_ops` and
/// `cs_bytes`: `ConstraintSystemRef` is generic over `ark_ff::Field`, a
/// bound that a type declaration here cannot carry. Byte variables refer to
/// the system they were made in, so they are kept beside it: the gadgets
/// that take them add their constraints to this system and no other.
#[verifier::external_body]
pub struct ConstraintSystemHandle {
    cs: ConstraintSystemRef<Fr>,
    bytes: Vec<Vec<UInt8<Fr>>>,
}

/// The operations that built the system, in order: allocations and
/// constraints, the latter with every linear combination written over
/// variables.
pub uninterp spec fn cs_ops(cs: ConstraintSystemHandle) -> Seq<CsOp>;

/// A Boolean of `ark_r1cs_std`: a constant, an allocated bit variable, or
/// the negation of one.
pub enum BitVar {
    Constant(bool),
    Is(CsVariable),
    Not(CsVariable),
}

/// A byte of `ark_r1cs_std` (`UInt8`): its bits, least significant first,
/// and the value it carries.
pub struct ByteVar {
    pub bits: Seq<BitVar>,
    pub value: Option<u8>,
}

/// The lists of byte variables kept with the system, in the order they
/// were made.
pub uninterp spec fn cs_bytes(cs: ConstraintSystemHandle) -> Seq<Seq<ByteVar>>;

/// What `UInt8::new_witness_vec` makes of a system with operations `ops`
/// and the values `bytes`: the operations afterwards and the bytes.
pub uninterp spec fn witness_bytes_alloc(ops: Seq<CsOp>, bytes: Seq<u8>) -> (Seq<CsOp>, Seq<ByteVar>);

/// What `UInt8::new_input_vec` makes of a system with operations `ops` and
/// the values `bytes`: the operations afterwards and the bytes.
pub uninterp spec fn input_bytes_alloc(ops: Seq<CsOp>, bytes: Seq<u8>) -> (Seq<CsOp>, Seq<ByteVar>);

/// What the SHA-256 gadget of `ark_crypto_primitives` (`evaluate` of
/// `Sha256Gadget`) makes of a system with operations `ops` and the message
/// bytes `input`: the operations afterwards and the digest bytes.
pub uninterp spec fn sha256_gadget(ops: Seq<CsOp>, input: Seq<ByteVar>) -> (Seq<CsOp>, Seq<ByteVar>);

/// The operations of a system with operations `ops` after
/// `EqGadget::enforce_equal` on the byte lists `a` and `b`.
pub uninterp spec fn bytes_equal_ops(ops: Seq<CsOp>, a: Seq<ByteVar>, b: Seq<ByteVar>) -> Seq<CsOp>;

/// The little-endian integer of a byte string.
pub open spec fn le_bytes_value(b: Seq<u8>) -> nat
    decreases b.len(),
{
    if b.len() == 0 {
        0
    } else {
        b[0] as nat + 256 * le_bytes_value(b.skip(1))
    }
}

/// The bytes in chunks of 31 (the last one shorter), each read as a
/// little-endian integer: the field elements that `UInt8::new_input_vec`
/// allocates as public inputs (31 bytes lie below the modulus).
pub open spec fn packed_inputs(b: Seq<u8>) -> Seq<nat>
    decreases b.len(),
{
    if b.len() == 0 {
        seq![]
    } else if b.len() <= 31 {
        seq![le_bytes_value(b)]
    } else {
        seq![le_bytes_value(b.take(31))] + packed_inputs(b.skip(31))
    }
}

/// Every bit of every byte is an allocated variable, not a constant.
pub open spec fn all_allocated(v: Seq<ByteVar>) -> bool {
    forall|i: int, j: int|
        0 <= i < v.len() && 0 <= j < v[i].bits.len() ==> !(#[trigger] v[i].bits[j] is Constant)
}

/// No two bits at the same place are constants of different values.
pub open spec fn no_constant_clash(a: Seq<ByteVar>, b: Seq<ByteVar>) -> bool {
    forall|i: int, j: int|
        0 <= i < a.len() && 0 <= i < b.len() && 0 <= j < a[i].bits.len() && 0 <= j < b[i].bits.len()
            ==> !(#[trigger] a[i].bits[j] is Constant && #[trigger] b[i].bits[j] is Constant
                && a[i].bits[j] != b[i].bits[j])
}

/// The operations that `Sha256Circuit::generate_constraints` adds to a
/// system with operations `ops`: the preimage allocated as witness bytes,
/// the expected digest as public-input bytes, the digest of the first
/// computed by the gadget, and the two digests enforced equal.
pub open spec fn sha256_circuit_ops(ops: Seq<CsOp>, preimage: Seq<u8>, expected: Seq<u8>) -> Seq<CsOp> {
    let (ops1, pre) = witness_bytes_alloc(ops, preimage);
    let (ops2, exp) = input_bytes_alloc(ops1, expected);
    let (ops3, digest) = sha256_gadget(ops2, pre);
    bytes_equal_ops(ops3, digest, exp)
}

/// The values of the public inputs, in order.
pub open spec fn op_inputs(ops: Seq<CsOp>) -> Seq<nat>
    decreases ops.len(),
{
    if ops.len() == 0 {
        seq![]
    } else {
        let rest = op_inputs(ops.drop_last());
        match ops.last() {
            CsOp::Input(v) => rest.push(v),
            _ => rest,
        }
    }
}

/// The values of the witnesses, in order.
pub open spec fn op_witnesses(ops: Seq<CsOp>) -> Seq<nat>
    decreases ops.len(),
{
    if ops.len() == 0 {
        seq![]
    } else {
        let rest = op_witnesses(ops.drop_last());
        match ops.last() {
            CsOp::Witness(v) => rest.push(v),
            _ => rest,
        }
    }
}

/// The constraints, in order.
pub open spec fn op_constraints(ops: Seq<CsOp>) -> Seq<
    (Seq<(nat, CsVariable)>, Seq<(nat, CsVariable)>, Seq<(nat, CsVariable)>),
>
    decreases ops.len(),
{
    if ops.len() == 0 {
        seq![]
    } else {
        let rest = op_constraints(ops.drop_last());
        match ops.last() {
            CsOp::Constraint(a, b, c) => rest.push((a, b, c)),
            _ => rest,
        }
    }
}

/// The number of instance variables: the constant one and the inputs.
pub open spec fn num_instance(ops: Seq<CsOp>) -> nat {
    1 + op_inputs(ops).len()
}

/// The index of a variable in `z`.
pub open spec fn var_index(v: CsVariable, n_instance: nat) -> nat {
    match v {
        CsVariable::One => 0nat,
        CsVariable::Instance(i) => i as nat,
        CsVariable::Witness(j) => n_instance + j as nat,
    }
}

/// `sum_k lc[k].coeff * z[index(lc[k].var)]` over the first `n` terms.
pub open spec fn lc_eval_prefix(lc: Seq<(nat, CsVariable)>, z: Seq<nat>, n_instance: nat, n: nat) -> nat
    decreases n,
{
    if n == 0 {
        0
    } else {
        lc_eval_prefix(lc, z, n_instance, (n - 1) as nat) + lc[n - 1].0 * z[var_index(
            lc[n - 1].1,
            n_instance,
        ) as int]
    }
}

/// A linear combination applied to an assignment.
pub open spec fn lc_eval(lc: Seq<(nat, CsVariable)>, z: Seq<nat>, n_instance: nat) -> nat {
    lc_eval_prefix(lc, z, n_instance, lc.len())
}

/// A matrix row computes the linear combination, and names only its
/// variables.
pub open spec fn row_matches(row: Seq<(Scalar, usize)>, lc: Seq<(nat, CsVariable)>, n_instance: nat) -> bool {
    &&& forall|z: Seq<nat>| #[trigger] row_eval(row, z) % fr_modulus() == lc_eval(lc, z, n_instance) % fr_modulus()
    &&& forall|j: int|
        0 <= j < row.len() ==> exists|t: int|
            0 <= t < lc.len() && #[trigger] row[j].1 == var_index(lc[t].1, n_instance)
}

/// What `ConstraintSystemRef::to_matrices` and the assignments give for a
/// system built by `ops`.
pub open spec fn instance_of_ops(inst: R1csInstance, ops: Seq<CsOp>) -> bool {
    let cons = op_constraints(ops);
    let n_in = num_instance(ops);
    &&& scalars_wf(inst.instance_assignment@)
    &&& scalars_wf(inst.witness_assignment@)
    &&& values(inst.instance_assignment@) == seq![1nat] + op_inputs(ops)
    &&& values(inst.witness_assignment@) == op_witnesses(ops)
    &&& inst.num_constraints == cons.len()
    &&& inst.a@.len() == cons.len()
    &&& inst.b@.len() == cons.len()
    &&& inst.c@.len() == cons.len()
    &&& matrix_wf(inst.a@)
    &&& matrix_wf(inst.b@)
    &&& matrix_wf(inst.c@)
    &&& forall|k: int|
        0 <= k < cons.len() ==> {
            &&& row_matches(#[trigger] inst.a@[k]@, cons[k].0, n_in)
            &&& row_matches(inst.b@[k]@, cons[k].1, n_in)
            &&& row_matches(inst.c@[k]@, cons[k].2, n_in)
        }
}

/// The values of a list of terms.
pub open spec fn terms_model(t: Seq<(Scalar, CsVariable)>) -> Seq<(nat, CsVariable)> {
    Seq::new(t.len(), |i: int| (t[i].0.value(), t[i].1))
}

pub open spec fn terms_wf(t: Seq<(Scalar, CsVariable)>) -> bool {
    forall|i: int| 0 <= i < t.len() ==> (#[trigger] t[i]).0.wf()
}

/// Errors while building constraints.
#[derive(Clone, Copy, Debug, PartialEq, Eq)]
pub enum CircuitError {
    /// `ark_relations` refused an operation.
    Synthesis,
}

/// `ConstraintSystem::new_ref()`: a fresh system, with no operations.
#[verifier::external_body]
fn cs_new() -> (cs: ConstraintSystemHandle)
    ensures
        cs_ops(cs) == Seq::<CsOp>::empty(),
        cs_bytes(cs) == Seq::<Seq<ByteVar>>::empty(),
{
    ConstraintSystemHandle { cs: ConstraintSystem::<Fr>::new_ref(), bytes: Vec::new() }
}

/// `ConstraintSystemRef::new_input_variable`: the next instance variable,
/// with the value recorded. It succeeds: a handle is only ever made by
/// `ConstraintSystem::new_ref`, so it holds a system in proving mode, where
/// `new_input_variable` with a closure that returns `Ok` records the value
/// and returns `Ok(Variable::Instance(index))`.
#[verifier::external_body]
fn cs_new_input(cs: &mut ConstraintSystemHandle, value: &Scalar) -> (r: Result<CsVariable, SynthesisError>)
    requires
        value.wf(),
    ensures
        r is Ok,
        match r {
            Ok(v) => cs_ops(*final(cs)) == cs_ops(*old(cs)).push(CsOp::Input(value.value()))
                && v == CsVariable::Instance(num_instance(cs_ops(*old(cs))) as usize)
                && num_instance(cs_ops(*old(cs))) <= usize::MAX,
            Err(_) => cs_ops(*final(cs)) == cs_ops(*old(cs)),
        },
        cs_bytes(*final(cs)) == cs_bytes(*old(cs)),
{
    let x = Fr::from_bigint(BigInt::new(value.limbs)).unwrap();
    match cs.cs.new_input_variable(|| Ok(x)) {
        Ok(Variable::Instance(i)) => Ok(CsVariable::Instance(i)),
        Ok(_) => Err(SynthesisError::Unsatisfiable),
        Err(e) => Err(e),
    }
}

/// `ConstraintSystemRef::new_witness_variable`: the next witness variable,
/// with the value recorded. It succeeds, as `cs_new_input` does:
/// `new_witness_variable` with a closure that returns `Ok` returns
/// `Ok(Variable::Witness(index))` on a system made by `new_ref`.
#[verifier::external_body]
fn cs_new_witness(cs: &mut ConstraintSystemHandle, value: &Scalar) -> (r: Result<CsVariable, SynthesisError>)
    requires
        value.wf(),
    ensures
        r is Ok,
        match r {
            Ok(v) => cs_ops(*final(cs)) == cs_ops(*old(cs)).push(CsOp::Witness(value.value()))
                && v == CsVariable::Witness(op_witnesses(cs_ops(*old(cs))).len() as usize)
                && op_witnesses(cs_ops(*old(cs))).len() <= usize::MAX,
            Err(_) => cs_ops(*final(cs)) == cs_ops(*old(cs)),
        },
        cs_bytes(*final(cs)) == cs_bytes(*old(cs)),
{
    let x = Fr::from_bigint(BigInt::new(value.limbs)).unwrap();
    match cs.cs.new_witness_variable(|| Ok(x)) {
        Ok(Variable::Witness(i)) => Ok(CsVariable::Witness(i)),
        Ok(_) => Err(SynthesisError::Unsatisfiable),
        Err(e) => Err(e),
    }
}

/// `ConstraintSystemRef::enforce_constraint` on the linear combinations
/// that sum the given terms. It succeeds: on a system made by `new_ref` it
/// stores the three combinations, records the constraint and returns `Ok`.
#[verifier::external_body]
fn cs_enforce(
    cs: &mut ConstraintSystemHandle,
    a: &[(Scalar, CsVariable)],
    b: &[(Scalar, CsVariable)],
    c: &[(Scalar, CsVariable)],
) -> (r: Result<(), SynthesisError>)
    requires
        terms_wf(a@),
        terms_wf(b@),
        terms_wf(c@),
    ensures
        r is Ok,
        match r {
            Ok(_) => cs_ops(*final(cs)) == cs_ops(*old(cs)).push(
                CsOp::Constraint(terms_model(a@), terms_model(b@), terms_model(c@)),
            ),
            Err(_) => cs_ops(*final(cs)) == cs_ops(*old(cs)),
        },
        cs_bytes(*final(cs)) == cs_bytes(*old(cs)),
{
    let var = |v: &CsVariable| match *v {
        CsVariable::One => Variable::One,
        CsVariable::Instance(i) => Variable::Instance(i),
        CsVariable::Witness(j) => Variable::Witness(j),
    };
    let lc = |t: &[(Scalar, CsVariable)]| t.iter().fold(LinearCombination::zero(), |l, (s, v)|
        l + (Fr::from_bigint(BigInt::new(s.limbs)).unwrap(), var(v)));
    cs.cs.enforce_constraint(lc(a), lc(b), lc(c))
}

/// `UInt8::new_witness_vec`: each byte as eight bits, each a new witness
/// variable constrained to be zero or one. It succeeds: on a system made by
/// `new_ref` every step is a `new_witness_variable` with a value present or
/// an `enforce_constraint`, which return `Ok`, and each bit is an allocated
/// `Boolean::Is`. It allocates no public input, and like every call it only
/// adds operations. The bytes are kept with the system; the result is their
/// place among its lists.
#[verifier::external_body]
fn cs_alloc_witness_bytes(cs: &mut ConstraintSystemHandle, b: &[u8]) -> (r: Result<usize, SynthesisError>)
    ensures
        r is Ok,
        match r {
            Ok(i) => {
                let (ops, v) = witness_bytes_alloc(cs_ops(*old(cs)), b@);
                &&& i == cs_bytes(*old(cs)).len()
                &&& cs_ops(*final(cs)) == ops
                &&& cs_ops(*old(cs)).is_prefix_of(ops)
                &&& op_inputs(ops) == op_inputs(cs_ops(*old(cs)))
                &&& cs_bytes(*final(cs)) == cs_bytes(*old(cs)).push(v)
                &&& v.len() == b@.len()
                &&& all_allocated(v)
            },
            Err(_) => true,
        },
{
    let v = UInt8::new_witness_vec(Namespace::from(cs.cs.clone()), b)?;
    let i = cs.bytes.len();
    cs.bytes.push(v);
    Ok(i)
}

/// `UInt8::new_input_vec`: the bytes packed into field elements allocated
/// as public inputs, each element decomposed into bits (new witness
/// variables) with the decomposition enforced and checked to lie below the
/// field's modulus, and the bits regrouped into bytes. It succeeds: every
/// bit is an allocated `Boolean::Is` with its value present, so none of the
/// steps meets the constant-against-constant case that alone fails. The
/// public inputs it allocates are exactly those field elements, in order
/// (`ToConstraintField` for `[u8]` reads each chunk of 31 bytes as a
/// little-endian integer); the bits are witnesses. Like every call it only
/// adds operations. The bytes are kept with the system; the result is their
/// place among its lists.
#[verifier::external_body]
fn cs_alloc_input_bytes(cs: &mut ConstraintSystemHandle, b: &[u8]) -> (r: Result<usize, SynthesisError>)
    ensures
        r is Ok,
        match r {
            Ok(i) => {
                let (ops, v) = input_bytes_alloc(cs_ops(*old(cs)), b@);
                &&& i == cs_bytes(*old(cs)).len()
                &&& cs_ops(*final(cs)) == ops
                &&& cs_ops(*old(cs)).is_prefix_of(ops)
                &&& op_inputs(ops) == op_inputs(cs_ops(*old(cs))) + packed_inputs(b@)
                &&& cs_bytes(*final(cs)) == cs_bytes(*old(cs)).push(v)
                &&& v.len() == b@.len()
                &&& all_allocated(v)
            },
            Err(_) => true,
        },
{
    let v = UInt8::new_input_vec(Namespace::from(cs.cs.clone()), b)?;
    let i = cs.bytes.len();
    cs.bytes.push(v);
    Ok(i)
}

/// `evaluate` of `ark_crypto_primitives`'s `Sha256Gadget`: the digest of the
/// message bytes (the list at place `input` among those kept with the
/// system), computed in constraints, as 32 bytes. The gadget adds its
/// constraints to the system its bytes were made in, which is this one. It
/// succeeds: its steps allocate variables with their values present and
/// enforce constraints, on a system made by `new_ref`, and only adds
/// operations. The digest is kept with the system; the result is its place
/// among the lists.
#[verifier::external_body]
fn cs_sha256_digest(cs: &mut ConstraintSystemHandle, input: usize) -> (r: Result<usize, SynthesisError>)
    requires
        input < cs_bytes(*old(cs)).len(),
    ensures
        r is Ok,
        match r {
            Ok(i) => {
                let (ops, v) = sha256_gadget(cs_ops(*old(cs)), cs_bytes(*old(cs))[input as int]);
                &&& i == cs_bytes(*old(cs)).len()
                &&& cs_ops(*final(cs)) == ops
                &&& cs_ops(*old(cs)).is_prefix_of(ops)
                &&& cs_bytes(*final(cs)) == cs_bytes(*old(cs)).push(v)
                &&& v.len() == 32
            },
            Err(_) => true,
        },
{
    let d = <Sha256Gadget<Fr> as CRHSchemeGadget<_, Fr>>::evaluate(&UnitVar::default(), &cs.bytes[input])?;
    let i = cs.bytes.len();
    cs.bytes.push(d.0);
    Ok(i)
}

/// `EqGadget::enforce_equal` on two lists of bytes of one length (it
/// asserts the lengths equal), the lists at places `a` and `b` among those
/// kept with the system: for each pair of bits a constraint, added to the
/// system the bytes were made in (this one), that their difference is zero.
/// It fails only where two bits at one place are constants of different
/// values, which `requires` leaves out. It only adds operations.
#[verifier::external_body]
fn cs_enforce_bytes_equal(cs: &mut ConstraintSystemHandle, a: usize, b: usize) -> (r: Result<(), SynthesisError>)
    requires
        a < cs_bytes(*old(cs)).len(),
        b < cs_bytes(*old(cs)).len(),
        cs_bytes(*old(cs))[a as int].len() == cs_bytes(*old(cs))[b as int].len(),
        no_constant_clash(cs_bytes(*old(cs))[a as int], cs_bytes(*old(cs))[b as int]),
    ensures
        r is Ok,
        cs_ops(*final(cs)) == bytes_equal_ops(
            cs_ops(*old(cs)),
            cs_bytes(*old(cs))[a as int],
            cs_bytes(*old(cs))[b as int],
        ),
        cs_ops(*old(cs)).is_prefix_of(cs_ops(*final(cs))),
        cs_bytes(*final(cs)) == cs_bytes(*old(cs)),
{
    cs.bytes[a].enforce_equal(&cs.bytes[b])
}

/// `ConstraintSystemRef::finalize` and `to_matrices`, with the instance and
/// witness assignments: the matrices' rows compute the constraints' linear
/// combinations (the terms merged and ordered by variable, zero
/// coefficients dropped).
#[verifier::external_body]
fn cs_to_instance(cs: &ConstraintSystemHandle) -> (inst: R1csInstance)
    ensures
        instance_of_ops(inst, cs_ops(*cs)),
{
    cs.cs.finalize();
    let m = cs.cs.to_matrices().unwrap();
    let z = cs.cs.borrow().unwrap();
    let s = |f: &Fr| Scalar { limbs: f.into_bigint().0 };
    let mat = |x: Vec<Vec<(Fr, usize)>>| x.iter().map(|r| r.iter().map(|(f, i)| (s(f), *i)).collect()).collect();
    R1csInstance {
        a: mat(m.a),
        b: mat(m.b),
        c: mat(m.c),
        num_constraints: m.num_constraints,
        instance_assignment: z.instance_assignment.iter().map(s).collect(),
        witness_assignment: z.witness_assignment.iter().map(s).collect(),
    }
}

impl ConstraintSystemHandle {
    /// A fresh constraint system.
    pub fn new() -> (cs: ConstraintSystemHandle)
        ensures
            cs_ops(cs) == Seq::<CsOp>::empty(),
    {
        cs_new()
    }

    /// The matrices and the assignment of the system.
    pub fn to_instance(&self) -> (inst: R1csInstance)
        ensures
            instance_of_ops(inst, cs_ops(*self)),
    {
        cs_to_instance(self)
    }
}

/// How the list operations see one more operation.
pub proof fn lemma_ops_push(ops: Seq<CsOp>, op: CsOp)
    ensures
        op_inputs(ops.push(op)) == (match op {
            CsOp::Input(v) => op_inputs(ops).push(v),
            _ => op_inputs(ops),
        }),
        op_witnesses(ops.push(op)) == (match op {
            CsOp::Witness(v) => op_witnesses(ops).push(v),
            _ => op_witnesses(ops),
        }),
        op_constraints(ops.push(op)) == (match op {
            CsOp::Constraint(a, b, c) => op_constraints(ops).push((a, b, c)),
            _ => op_constraints(ops),
        }),
{
    assert(ops.push(op).drop_last() =~= ops);
}

/// The value of an optional field element, zero when absent.
pub open spec fn value_or_zero(x: Option<Scalar>) -> nat {
    match x {
        Some(v) => v.value(),
        None => 0,
    }
}

pub open spec fn optional_wf(x: Option<Scalar>) -> bool {
    x matches Some(v) ==> v.wf()
}

/// The one-term linear combination `1 * v`.
pub open spec fn single(v: CsVariable) -> Seq<(nat, CsVariable)> {
    seq![(1nat, v)]
}

/// The operations of the cubic circuit on a system with `n_in` instance
/// variables and `n_wit` witnesses so far.
pub open spec fn cubic_ops(x: nat, out: nat, n_in: nat, n_wit: nat) -> Seq<CsOp> {
    let out_v = CsVariable::Instance(n_in as usize);
    let x_v = CsVariable::Witness(n_wit as usize);
    let x_sq = CsVariable::Witness((n_wit + 1) as usize);
    let x_cu = CsVariable::Witness((n_wit + 2) as usize);
    let x2 = (x * x) % fr_modulus();
    let x3 = (x2 * x) % fr_modulus();
    seq![
        CsOp::Input(out),
        CsOp::Witness(x),
        CsOp::Witness(x2),
        CsOp::Constraint(single(x_v), single(x_v), single(x_sq)),
        CsOp::Witness(x3),
        CsOp::Constraint(single(x_sq), single(x_v), single(x_cu)),
        CsOp::Constraint(
            single(CsVariable::One),
            seq![(1nat, x_cu), (1nat, x_v), (5nat, CsVariable::One)],
            single(out_v),
        ),
    ]
}

/// The circuit `x^3 + x + 5 = out` with public `out` and private `x`.
pub struct CubicCircuit {
    pub x: Option<Scalar>,
    pub out: Scalar,
}

fn one_term(v: CsVariable) -> (t: [(Scalar, CsVariable); 1])
    ensures
        terms_wf(t@),
        terms_model(t@) == single(v),
{
    let t = [(Scalar::one(), v)];
    assert(terms_model(t@) =~= single(v));
    t
}

impl CubicCircuit {
    /// Allocates `out` as a public input and `x`, `x^2`, `x^3` as
    /// witnesses (an absent `x` counts as zero), and enforces
    /// `x * x = x^2`, `x^2 * x = x^3` and `1 * (x^3 + x + 5) = out`.
    pub fn generate_constraints(self, cs: &mut ConstraintSystemHandle) -> (r: Result<(), CircuitError>)
        requires
            self.out.wf(),
            optional_wf(self.x),
        ensures
            r is Ok,
            cs_ops(*final(cs)) == cs_ops(*old(cs)) + cubic_ops(
                value_or_zero(self.x),
                self.out.value(),
                num_instance(cs_ops(*old(cs))),
                op_witnesses(cs_ops(*old(cs))).len(),
            ),
    {
        let ghost ops0 = cs_ops(*cs);
        let ghost n_in = num_instance(ops0);
        let ghost n_wit = op_witnesses(ops0).len();
        let out_var = match cs_new_input(cs, &self.out) {
            Ok(v) => v,
            Err(_) => return Err(CircuitError::Synthesis),
        };
        proof { lemma_ops_push(ops0, CsOp::Input(self.out.value())); }
        let x_val = match self.x {
            Some(v) => v,
            None => Scalar::zero(),
        };
        let ghost ops1 = cs_ops(*cs);
        let x_var = match cs_new_witness(cs, &x_val) {
            Ok(v) => v,
            Err(_) => return Err(CircuitError::Synthesis),
        };
        proof { lemma_ops_push(ops1, CsOp::Witness(x_val.value())); }
        let x_sq_val = x_val.mul(&x_val);
        let ghost ops2 = cs_ops(*cs);
        let x_sq_var = match cs_new_witness(cs, &x_sq_val) {
            Ok(v) => v,
            Err(_) => return Err(CircuitError::Synthesis),
        };
        proof { lemma_ops_push(ops2, CsOp::Witness(x_sq_val.value())); }
        let ghost ops3 = cs_ops(*cs);
        match cs_enforce(cs, &one_term(x_var), &one_term(x_var), &one_term(x_sq_var)) {
            Ok(_) => {},
            Err(_) => return Err(CircuitError::Synthesis),
        }
        proof { lemma_ops_push(ops3, CsOp::Constraint(single(x_var), single(x_var), single(x_sq_var))); }
        let x_cu_val = x_sq_val.mul(&x_val);
        let ghost ops4 = cs_ops(*cs);
        let x_cu_var = match cs_new_witness(cs, &x_cu_val) {
            Ok(v) => v,
            Err(_) => return Err(CircuitError::Synthesis),
        };
        proof { lemma_ops_push(ops4, CsOp::Witness(x_cu_val.value())); }
        match cs_enforce(cs, &one_term(x_sq_var), &one_term(x_var), &one_term(x_cu_var)) {
            Ok(_) => {},
            Err(_) => return Err(CircuitError::Synthesis),
        }
        let five = Scalar::from_u64(5);
        let sum = [(Scalar::one(), x_cu_var), (Scalar::one(), x_var), (five, CsVariable::One)];
        proof {
            assert(terms_model(sum@) =~= seq![(1nat, x_cu_var), (1nat, x_var), (5nat, CsVariable::One)]);
        }
        match cs_enforce(cs, &one_term(CsVariable::One), &sum, &one_term(out_var)) {
            Ok(_) => {},
            Err(_) => return Err(CircuitError::Synthesis),
        }
        proof {
            assert(cs_ops(*cs) =~= ops0 + cubic_ops(value_or_zero(self.x), self.out.value(), n_in, n_wit));
        }
        Ok(())
    }
}

proof fn lemma_lc_single(v: CsVariable, z: Seq<nat>, n_in: nat)
    ensures
        lc_eval(single(v), z, n_in) == z[var_index(v, n_in) as int],
{
    let lc = single(v);
    assert(lc.len() == 1);
    assert(lc[0] == (1nat, v));
    assert(lc_eval_prefix(lc, z, n_in, 0) == 0);
    assert(lc_eval_prefix(lc, z, n_in, 1) == 0 + 1 * z[var_index(v, n_in) as int]);
}

proof fn lemma_lc_three(t: Seq<(nat, CsVariable)>, z: Seq<nat>, n_in: nat)
    requires
        t.len() == 3,
    ensures
        lc_eval(t, z, n_in) == t[0].0 * z[var_index(t[0].1, n_in) as int] + t[1].0 * z[var_index(
            t[1].1,
            n_in,
        ) as int] + t[2].0 * z[var_index(t[2].1, n_in) as int],
{
    assert(lc_eval_prefix(t, z, n_in, 0) == 0);
    assert(lc_eval_prefix(t, z, n_in, 1) == lc_eval_prefix(t, z, n_in, 0) + t[0].0 * z[var_index(t[0].1, n_in) as int]);
    assert(lc_eval_prefix(t, z, n_in, 2) == lc_eval_prefix(t, z, n_in, 1) + t[1].0 * z[var_index(t[1].1, n_in) as int]);
    assert(lc_eval_prefix(t, z, n_in, 3) == lc_eval_prefix(t, z, n_in, 2) + t[2].0 * z[var_index(t[2].1, n_in) as int]);
}

/// The assignment and the rows of a system built by the cubic circuit
/// from scratch.
proof fn lemma_cubic_instance(x: nat, out: nat, inst: R1csInstance)
    requires
        instance_of_ops(inst, cubic_ops(x, out, 1, 0)),
    ensures
        ({
            let x2 = (x * x) % fr_modulus();
            let x3 = (x2 * x) % fr_modulus();
            let ops = cubic_ops(x, out, 1, 0);
            &&& inst.model().z == seq![1nat, out, x, x2, x3]
            &&& num_instance(ops) == 2
            &&& op_constraints(ops) == seq![
                (single(CsVariable::Witness(0)), single(CsVariable::Witness(0)), single(CsVariable::Witness(1))),
                (single(CsVariable::Witness(1)), single(CsVariable::Witness(0)), single(CsVariable::Witness(2))),
                (single(CsVariable::One), seq![(1nat, CsVariable::Witness(2)), (1nat, CsVariable::Witness(0)), (5nat, CsVariable::One)], single(CsVariable::Instance(1))),
            ]
        }),
{
    let ops = cubic_ops(x, out, 1, 0);
    reveal_with_fuel(op_inputs, 8);
    reveal_with_fuel(op_witnesses, 8);
    reveal_with_fuel(op_constraints, 8);
    let x2 = (x * x) % fr_modulus();
    let x3 = (x2 * x) % fr_modulus();
    assert(op_inputs(ops) =~= seq![out]);
    assert(op_witnesses(ops) =~= seq![x, x2, x3]);
    lemma_values_concat(inst.instance_assignment@, inst.witness_assignment@);
    assert(inst.model().z =~= seq![1nat, out, x, x2, x3]);
}

/// The cubic circuit, built from scratch, gives a well-formed system whose
/// constraints all hold exactly when `x^3 + x + 5 = out`.
pub proof fn lemma_cubic_circuit(x: nat, out: nat, inst: R1csInstance)
    requires
        x < fr_modulus(),
        out < fr_modulus(),
        instance_of_ops(inst, cubic_ops(x, out, 1, 0)),
    ensures
        inst.wf(),
        r1cs_satisfied(inst.model()) <==> (x * x * x + x + 5) % fr_modulus() == out,
{
    let m = fr_modulus();
    let x2 = (x * x) % m;
    let x3 = (x2 * x) % m;
    let ops = cubic_ops(x, out, 1, 0);
    lemma_cubic_instance(x, out, inst);
    let z = inst.model().z;
    let cons = op_constraints(ops);
    // Every row names columns of z.
    assert forall|k: int, j: int|
        0 <= k < 3 && 0 <= j < inst.a@[k]@.len() implies (#[trigger] inst.a@[k]@[j]).1 < 5 by {
        assert(row_matches(inst.a@[k]@, cons[k].0, 2));
        let t = choose|t: int| 0 <= t < cons[k].0.len() && inst.a@[k]@[j].1 == var_index(cons[k].0[t].1, 2);
    }
    assert forall|k: int, j: int|
        0 <= k < 3 && 0 <= j < inst.b@[k]@.len() implies (#[trigger] inst.b@[k]@[j]).1 < 5 by {
        assert(row_matches(inst.a@[k]@, cons[k].0, 2));
        assert(row_matches(inst.b@[k]@, cons[k].1, 2));
        let t = choose|t: int| 0 <= t < cons[k].1.len() && inst.b@[k]@[j].1 == var_index(cons[k].1[t].1, 2);
    }
    assert forall|k: int, j: int|
        0 <= k < 3 && 0 <= j < inst.c@[k]@.len() implies (#[trigger] inst.c@[k]@[j]).1 < 5 by {
        assert(row_matches(inst.a@[k]@, cons[k].0, 2));
        assert(row_matches(inst.c@[k]@, cons[k].2, 2));
        let t = choose|t: int| 0 <= t < cons[k].2.len() && inst.c@[k]@[j].1 == var_index(cons[k].2[t].1, 2);
    }
    assert(inst.z().len() == 5) by {
        assert(inst.model().z.len() == inst.z().len());
    }
    lemma_values_concat(inst.instance_assignment@, inst.witness_assignment@);
    assert(scalars_wf(inst.z()));
    // The three rows, evaluated.
    let av = matvec_spec(inst.a@, z, 3);
    let bv = matvec_spec(inst.b@, z, 3);
    let cv = matvec_spec(inst.c@, z, 3);
    assert(row_matches(inst.a@[0]@, cons[0].0, 2));
    assert(row_matches(inst.b@[0]@, cons[0].1, 2));
    assert(row_matches(inst.c@[0]@, cons[0].2, 2));
    assert(row_matches(inst.a@[1]@, cons[1].0, 2));
    assert(row_matches(inst.b@[1]@, cons[1].1, 2));
    assert(row_matches(inst.c@[1]@, cons[1].2, 2));
    assert(row_matches(inst.a@[2]@, cons[2].0, 2));
    assert(row_matches(inst.b@[2]@, cons[2].1, 2));
    assert(row_matches(inst.c@[2]@, cons[2].2, 2));
    assert(row_eval(inst.a@[0]@, z) % m == lc_eval(cons[0].0, z, 2) % m);
    assert(row_eval(inst.b@[0]@, z) % m == lc_eval(cons[0].1, z, 2) % m);
    assert(row_eval(inst.c@[0]@, z) % m == lc_eval(cons[0].2, z, 2) % m);
    assert(row_eval(inst.a@[1]@, z) % m == lc_eval(cons[1].0, z, 2) % m);
    assert(row_eval(inst.b@[1]@, z) % m == lc_eval(cons[1].1, z, 2) % m);
    assert(row_eval(inst.c@[1]@, z) % m == lc_eval(cons[1].2, z, 2) % m);
    assert(row_eval(inst.a@[2]@, z) % m == lc_eval(cons[2].0, z, 2) % m);
    assert(row_eval(inst.b@[2]@, z) % m == lc_eval(cons[2].1, z, 2) % m);
    assert(row_eval(inst.c@[2]@, z) % m == lc_eval(cons[2].2, z, 2) % m);
    lemma_lc_single(CsVariable::Witness(0), z, 2);
    lemma_lc_single(CsVariable::Witness(1), z, 2);
    lemma_lc_single(CsVariable::Witness(2), z, 2);
    lemma_lc_single(CsVariable::One, z, 2);
    lemma_lc_single(CsVariable::Instance(1), z, 2);
    lemma_lc_three(cons[2].1, z, 2);
    assert(cons[2].1[0] == (1nat, CsVariable::Witness(2)));
    assert(cons[2].1[1] == (1nat, CsVariable::Witness(0)));
    assert(cons[2].1[2] == (5nat, CsVariable::One));
    assert(z[0] == 1 && z[2] == x && z[4] == x3);
    assert(var_index(CsVariable::Witness(2), 2) == 4);
    assert(var_index(CsVariable::Witness(0), 2) == 2);
    assert(var_index(CsVariable::One, 2) == 0);
    assert(1nat * x3 == x3 && 1nat * x == x && 5nat * 1nat == 5) by (nonlinear_arith);
    assert(lc_eval(cons[0].0, z, 2) == x);
    assert(lc_eval(cons[1].0, z, 2) == x2);
    assert(lc_eval(cons[1].2, z, 2) == x3);
    assert(lc_eval(cons[2].0, z, 2) == 1);
    assert(lc_eval(cons[2].1, z, 2) == x3 + x + 5);
    assert(lc_eval(cons[2].2, z, 2) == out);
    vstd::arithmetic::div_mod::lemma_small_mod(x, m);
    vstd::arithmetic::div_mod::lemma_small_mod(x2, m);
    vstd::arithmetic::div_mod::lemma_small_mod(x3, m);
    vstd::arithmetic::div_mod::lemma_small_mod(out, m);
    vstd::arithmetic::div_mod::lemma_small_mod(1, m);
    assert(av[0] == x && bv[0] == x && cv[0] == x2);
    assert(av[1] == x2 && bv[1] == x && cv[1] == x3);
    assert(av[2] == 1 && bv[2] == (x3 + x + 5) % m && cv[2] == out);
    // x3 is x * x * x modulo r.
    crate::linalg::lemma_mul_mod(x * x, x);
    vstd::arithmetic::div_mod::lemma_add_mod_noop(x3 as int, (x + 5) as int, m as int);
    vstd::arithmetic::div_mod::lemma_add_mod_noop((x * x * x) as int, (x + 5) as int, m as int);
    vstd::arithmetic::div_mod::lemma_mod_twice((x * x * x) as int, m as int);
    assert((x3 + x + 5) % m == (x * x * x + x + 5) % m);
    vstd::arithmetic::div_mod::lemma_mod_twice((x3 + x + 5) as int, m as int);
    assert(1 * ((x3 + x + 5) % m) == (x3 + x + 5) % m);
    assert(inst.model().m == 3);
    assert(inst.model().a == inst.a@ && inst.model().b == inst.b@ && inst.model().c == inst.c@);
    assert((av[2] * bv[2]) % m == (x3 + x + 5) % m);
    if r1cs_satisfied(inst.model()) {
        assert((av[2] * bv[2]) % m == cv[2]);
    } else {
        assert((av[0] * bv[0]) % m == cv[0]);
        assert((av[1] * bv[1]) % m == cv[1]);
    }
}

/// The circuit `SHA-256(preimage) = expected_hash`, with the preimage
/// private and the digest public.
pub struct Sha256Circuit {
    pub preimage: Vec<u8>,
    pub expected_hash: Vec<u8>,
}

impl Sha256Circuit {
    /// Allocates the preimage bytes as witnesses and the expected digest
    /// bytes as public inputs, computes the digest of the first with the
    /// SHA-256 gadget and constrains it to equal the second. The digest must
    /// be 32 bytes long; then this always succeeds.
    pub fn generate_constraints(self, cs: &mut ConstraintSystemHandle) -> (r: Result<(), CircuitError>)
        requires
            self.expected_hash@.len() == 32,
        ensures
            r is Ok,
            cs_ops(*final(cs)) == sha256_circuit_ops(
                cs_ops(*old(cs)),
                self.preimage@,
                self.expected_hash@,
            ),
            (op_inputs(cs_ops(*old(cs))) + packed_inputs(self.expected_hash@)).is_prefix_of(
                op_inputs(cs_ops(*final(cs))),
            ),
    {
        let ghost ops0 = cs_ops(*cs);
        let pre = match cs_alloc_witness_bytes(cs, self.preimage.as_slice()) {
            Ok(v) => v,
            Err(_) => return Err(CircuitError::Synthesis),
        };
        let expected = match cs_alloc_input_bytes(cs, self.expected_hash.as_slice()) {
            Ok(v) => v,
            Err(_) => return Err(CircuitError::Synthesis),
        };
        let ghost ops2 = cs_ops(*cs);
        let digest = match cs_sha256_digest(cs, pre) {
            Ok(v) => v,
            Err(_) => return Err(CircuitError::Synthesis),
        };
        let ghost ops3 = cs_ops(*cs);
        let r = match cs_enforce_bytes_equal(cs, digest, expected) {
            Ok(_) => Ok(()),
            Err(_) => Err(CircuitError::Synthesis),
        };
        proof {
            lemma_ops_prefix_inputs(ops2, ops3);
            lemma_ops_prefix_inputs(ops3, cs_ops(*cs));
            let (i2, i3, i4) = (op_inputs(ops2), op_inputs(ops3), op_inputs(cs_ops(*cs)));
            assert(i2 =~= i4.subrange(0, i2.len() as int));
            assert(i2 == op_inputs(ops0) + packed_inputs(self.expected_hash@));
        }
        r
    }
}

/// Operations that only add to a system keep its public inputs in front.
pub proof fn lemma_ops_prefix_inputs(a: Seq<CsOp>, b: Seq<CsOp>)
    requires
        a.is_prefix_of(b),
    ensures
        op_inputs(a).is_prefix_of(op_inputs(b)),
{
    let rest = b.skip(a.len() as int);
    assert(b =~= a + rest);
    lemma_ops_concat(a, rest);
    assert(op_inputs(a) =~= op_inputs(b).subrange(0, op_inputs(a).len() as int));
}

/// Each list of a concatenation of operations is the concatenation of the
/// lists.
pub proof fn lemma_ops_concat(a: Seq<CsOp>, b: Seq<CsOp>)
    ensures
        op_inputs(a + b) == op_inputs(a) + op_inputs(b),
        op_witnesses(a + b) == op_witnesses(a) + op_witnesses(b),
        op_constraints(a + b) == op_constraints(a) + op_constraints(b),
    decreases b.len(),
{
    if b.len() == 0 {
        assert(a + b =~= a);
        assert(op_inputs(a) + op_inputs(b) =~= op_inputs(a));
        assert(op_witnesses(a) + op_witnesses(b) =~= op_witnesses(a));
        assert(op_constraints(a) + op_constraints(b) =~= op_constraints(a));
    } else {
        let b0 = b.drop_last();
        lemma_ops_concat(a, b0);
        assert(a + b =~= (a + b0).push(b.last()));
        assert(b =~= b0.push(b.last()));
        lemma_ops_push(a + b0, b.last());
        lemma_ops_push(b0, b.last());
        match b.last() {
            CsOp::Input(v) => {
                assert(op_inputs(a) + op_inputs(b0).push(v) =~= (op_inputs(a) + op_inputs(b0)).push(v));
            },
            CsOp::Witness(v) => {
                assert(op_witnesses(a) + op_witnesses(b0).push(v) =~= (op_witnesses(a) + op_witnesses(b0)).push(v));
            },
            CsOp::Constraint(x, y, z) => {
                assert(op_constraints(a) + op_constraints(b0).push((x, y, z)) =~= (op_constraints(a)
                    + op_constraints(b0)).push((x, y, z)));
            },
        }
    }
}

/// The constraint of round `i` (from one) of the power circuit with `k`
/// multiplications: `x^i * x = x^(i+1)`, the last one against `y`.
pub open spec fn power_constraint(n_in: nat, n_wit: nat, i: nat, k: nat) -> (
    Seq<(nat, CsVariable)>,
    Seq<(nat, CsVariable)>,
    Seq<(nat, CsVariable)>,
) {
    let prev = CsVariable::Witness((n_wit + i - 1) as usize);
    let x_v = CsVariable::Witness(n_wit as usize);
    let next = if i < k {
        CsVariable::Witness((n_wit + i) as usize)
    } else {
        CsVariable::Instance(n_in as usize)
    };
    (single(prev), single(x_v), single(next))
}

/// The operations of round `i` of the power circuit.
pub open spec fn power_round(x: nat, n_in: nat, n_wit: nat, i: nat, k: nat) -> Seq<CsOp> {
    let (a, b, c) = power_constraint(n_in, n_wit, i, k);
    if i < k {
        seq![CsOp::Witness(pow_mod(x, i + 1)), CsOp::Constraint(a, b, c)]
    } else {
        seq![CsOp::Constraint(a, b, c)]
    }
}

/// The operations of the first `j` rounds.
pub open spec fn power_rounds(x: nat, n_in: nat, n_wit: nat, j: nat, k: nat) -> Seq<CsOp>
    decreases j,
{
    if j == 0 {
        seq![]
    } else {
        power_rounds(x, n_in, n_wit, (j - 1) as nat, k) + power_round(x, n_in, n_wit, j, k)
    }
}

/// The operations of the power circuit with `k` multiplications.
pub open spec fn power_ops(x: nat, y: nat, n_in: nat, n_wit: nat, k: nat) -> Seq<CsOp> {
    seq![CsOp::Input(y), CsOp::Witness(x)] + power_rounds(x, n_in, n_wit, k, k)
}

/// The circuit `x^(num_mults + 1) = y` with public `y` and private `x`,
/// as a chain of `num_mults` multiplications.
pub struct PowerCircuit {
    pub x: Option<Scalar>,
    pub y: Scalar,
    pub num_mults: usize,
}

impl PowerCircuit {
    /// Allocates `y` as a public input and `x` as a witness (an absent `x`
    /// counts as zero); then for each round `i` from one to `num_mults`
    /// allocates `x^(i+1)` as a witness (the last round uses `y` instead)
    /// and enforces `x^i * x = x^(i+1)`.
    pub fn generate_constraints(self, cs: &mut ConstraintSystemHandle) -> (r: Result<(), CircuitError>)
        requires
            self.y.wf(),
            optional_wf(self.x),
        ensures
            r is Ok,
            cs_ops(*final(cs)) == cs_ops(*old(cs)) + power_ops(
                value_or_zero(self.x),
                self.y.value(),
                num_instance(cs_ops(*old(cs))),
                op_witnesses(cs_ops(*old(cs))).len(),
                self.num_mults as nat,
            ),
    {
        let ghost ops0 = cs_ops(*cs);
        let ghost n_in = num_instance(ops0);
        let ghost n_wit = op_witnesses(ops0).len();
        let ghost k = self.num_mults as nat;
        let y_var = match cs_new_input(cs, &self.y) {
            Ok(v) => v,
            Err(_) => return Err(CircuitError::Synthesis),
        };
        proof { lemma_ops_push(ops0, CsOp::Input(self.y.value())); }
        let x_val = match self.x {
            Some(v) => v,
            None => Scalar::zero(),
        };
        let ghost xv = x_val.value();
        let ghost ops1 = cs_ops(*cs);
        let x_var = match cs_new_witness(cs, &x_val) {
            Ok(v) => v,
            Err(_) => return Err(CircuitError::Synthesis),
        };
        proof {
            lemma_ops_push(ops1, CsOp::Witness(xv));
            assert(cs_ops(*cs) =~= ops0 + seq![CsOp::Input(self.y.value()), CsOp::Witness(xv)] + power_rounds(xv, n_in, n_wit, 0, k));
            vstd::arithmetic::div_mod::lemma_small_mod(xv, fr_modulus());
            assert(pow_mod(xv, 0) == 1);
            assert(pow_mod(xv, 1) == (1 * xv) % fr_modulus());
        }
        let mut prev_var = x_var;
        let mut prev_val = x_val;
        let mut j: usize = 0;
        while j < self.num_mults
            invariant
                j <= self.num_mults,
                k == self.num_mults as nat,
                xv == x_val.value(),
                x_val.wf(),
                xv == value_or_zero(self.x),
                y_var == CsVariable::Instance(n_in as usize),
                x_var == CsVariable::Witness(n_wit as usize),
                j < self.num_mults ==> prev_var == CsVariable::Witness((n_wit + j) as usize),
                prev_val.wf(),
                prev_val.value() == pow_mod(xv, (j + 1) as nat),
                num_instance(cs_ops(*cs)) == n_in + 1,
                j < self.num_mults ==> op_witnesses(cs_ops(*cs)).len() == n_wit + 1 + j,
                cs_ops(*cs) == ops0 + seq![CsOp::Input(self.y.value()), CsOp::Witness(xv)] + power_rounds(xv, n_in, n_wit, j as nat, k),
            decreases self.num_mults - j,
        {
            let i = j + 1;
            let new_val = prev_val.mul(&x_val);
            let ghost ops_before = cs_ops(*cs);
            let new_var = if i == self.num_mults {
                y_var
            } else {
                match cs_new_witness(cs, &new_val) {
                    Ok(v) => v,
                    Err(_) => return Err(CircuitError::Synthesis),
                }
            };
            let ghost ops_mid = cs_ops(*cs);
            proof {
                if i < self.num_mults {
                    lemma_ops_push(ops_before, CsOp::Witness(new_val.value()));
                }
            }
            match cs_enforce(cs, &one_term(prev_var), &one_term(x_var), &one_term(new_var)) {
                Ok(_) => {},
                Err(_) => return Err(CircuitError::Synthesis),
            }
            proof {
                let (a, b, c) = power_constraint(n_in, n_wit, i as nat, k);
                assert(a == single(prev_var) && b == single(x_var) && c == single(new_var));
                lemma_ops_push(ops_mid, CsOp::Constraint(a, b, c));
                assert(power_rounds(xv, n_in, n_wit, i as nat, k) == power_rounds(xv, n_in, n_wit, j as nat, k) + power_round(xv, n_in, n_wit, i as nat, k));
                assert(cs_ops(*cs) =~= ops0 + seq![CsOp::Input(self.y.value()), CsOp::Witness(xv)] + power_rounds(xv, n_in, n_wit, i as nat, k));
            }
            prev_var = new_var;
            prev_val = new_val;
            j = i;
        }
        proof {
            assert(cs_ops(*cs) =~= ops0 + power_ops(xv, self.y.value(), n_in, n_wit, k));
        }
        Ok(())
    }
}

/// The lists of the first `j` rounds of the power circuit.
proof fn lemma_power_rounds(x: nat, n_in: nat, n_wit: nat, j: nat, k: nat)
    requires
        1 <= k,
        j <= k,
    ensures
        op_inputs(power_rounds(x, n_in, n_wit, j, k)) == Seq::<nat>::empty(),
        op_witnesses(power_rounds(x, n_in, n_wit, j, k)) == Seq::new(
            if j < k {
                j
            } else {
                (k - 1) as nat
            },
            |t: int| pow_mod(x, (t + 2) as nat),
        ),
        op_constraints(power_rounds(x, n_in, n_wit, j, k)) == Seq::new(
            j,
            |t: int| power_constraint(n_in, n_wit, (t + 1) as nat, k),
        ),
    decreases j,
{
    reveal_with_fuel(op_inputs, 3);
    reveal_with_fuel(op_witnesses, 3);
    reveal_with_fuel(op_constraints, 3);
    if j == 0 {
        assert(op_witnesses(power_rounds(x, n_in, n_wit, 0, k)) =~= Seq::new(0, |t: int| pow_mod(x, (t + 2) as nat)));
        assert(op_constraints(power_rounds(x, n_in, n_wit, 0, k)) =~= Seq::new(0, |t: int| power_constraint(n_in, n_wit, (t + 1) as nat, k)));
    } else {
        let j0 = (j - 1) as nat;
        lemma_power_rounds(x, n_in, n_wit, j0, k);
        let prev = power_rounds(x, n_in, n_wit, j0, k);
        let round = power_round(x, n_in, n_wit, j, k);
        lemma_ops_concat(prev, round);
        let (a, b, c) = power_constraint(n_in, n_wit, j, k);
        if j < k {
            assert(round == seq![CsOp::Witness(pow_mod(x, j + 1)), CsOp::Constraint(a, b, c)]);
            assert(op_inputs(round) =~= Seq::<nat>::empty());
            assert(op_witnesses(round) =~= seq![pow_mod(x, j + 1)]);
            assert(op_constraints(round) =~= seq![(a, b, c)]);
        } else {
            assert(round == seq![CsOp::Constraint(a, b, c)]);
            assert(op_inputs(round) =~= Seq::<nat>::empty());
            assert(op_witnesses(round) =~= Seq::<nat>::empty());
            assert(op_constraints(round) =~= seq![(a, b, c)]);
        }
        assert(op_inputs(power_rounds(x, n_in, n_wit, j, k)) =~= Seq::<nat>::empty());
        assert(op_witnesses(power_rounds(x, n_in, n_wit, j, k)) =~= Seq::new(
            if j < k {
                j
            } else {
                (k - 1) as nat
            },
            |t: int| pow_mod(x, (t + 2) as nat),
        ));
        assert(op_constraints(power_rounds(x, n_in, n_wit, j, k)) =~= Seq::new(
            j,
            |t: int| power_constraint(n_in, n_wit, (t + 1) as nat, k),
        ));
    }
}

proof fn lemma_pow_mod_small(x: nat, e: nat)
    requires
        x < fr_modulus(),
    ensures
        pow_mod(x, e) < fr_modulus(),
        e >= 1 ==> pow_mod(x, e) == (pow_mod(x, (e - 1) as nat) * x) % fr_modulus(),
        pow_mod(x, 1) == x,
{
    assert(pow_mod(x, 0) == 1);
    assert(pow_mod(x, 1) == (1 * x) % fr_modulus());
    vstd::arithmetic::div_mod::lemma_small_mod(x, fr_modulus());
    if e >= 1 {
        vstd::arithmetic::div_mod::lemma_mod_bound((pow_mod(x, (e - 1) as nat) * x) as int, fr_modulus() as int);
    }
}

/// The power circuit with at least one multiplication, built from scratch,
/// gives a well-formed system whose constraints all hold exactly when
/// `x^(num_mults + 1) = y`.
pub proof fn lemma_power_circuit(x: nat, y: nat, k: nat, inst: R1csInstance)
    requires
        x < fr_modulus(),
        y < fr_modulus(),
        1 <= k,
        instance_of_ops(inst, power_ops(x, y, 1, 0, k)),
    ensures
        inst.wf(),
        r1cs_satisfied(inst.model()) <==> pow_mod(x, k + 1) == y,
{
    let m = fr_modulus();
    let ops = power_ops(x, y, 1, 0, k);
    let head = seq![CsOp::Input(y), CsOp::Witness(x)];
    reveal_with_fuel(op_inputs, 3);
    reveal_with_fuel(op_witnesses, 3);
    reveal_with_fuel(op_constraints, 3);
    assert(op_inputs(head) =~= seq![y]);
    assert(op_witnesses(head) =~= seq![x]);
    assert(op_constraints(head) =~= Seq::empty());
    lemma_power_rounds(x, 1, 0, k, k);
    lemma_ops_concat(head, power_rounds(x, 1, 0, k, k));
    lemma_pow_mod_small(x, 1);
    let cons = op_constraints(ops);
    assert(cons =~= Seq::new(k, |t: int| power_constraint(1, 0, (t + 1) as nat, k)));
    assert(num_instance(ops) == 2);
    let wit = op_witnesses(ops);
    assert(wit =~= Seq::new(k, |t: int| pow_mod(x, (t + 1) as nat)));
    lemma_values_concat(inst.instance_assignment@, inst.witness_assignment@);
    let z = inst.model().z;
    assert(z =~= seq![1nat, y] + wit);
    assert forall|t: int| 0 <= t < k implies #[trigger] z[t + 2] == pow_mod(x, (t + 1) as nat) && pow_mod(x, (t + 1) as nat) < m by {
        lemma_pow_mod_small(x, (t + 1) as nat);
    }
    // Every row names columns of z.
    assert forall|r: int, j: int|
        0 <= r < k && 0 <= j < inst.a@[r]@.len() implies (#[trigger] inst.a@[r]@[j]).1 < k + 2 by {
        assert(row_matches(inst.a@[r]@, cons[r].0, 2));
        let t = choose|t: int| 0 <= t < cons[r].0.len() && inst.a@[r]@[j].1 == var_index(cons[r].0[t].1, 2);
    }
    assert forall|r: int, j: int|
        0 <= r < k && 0 <= j < inst.b@[r]@.len() implies (#[trigger] inst.b@[r]@[j]).1 < k + 2 by {
        assert(row_matches(inst.a@[r]@, cons[r].0, 2));
        assert(row_matches(inst.b@[r]@, cons[r].1, 2));
        let t = choose|t: int| 0 <= t < cons[r].1.len() && inst.b@[r]@[j].1 == var_index(cons[r].1[t].1, 2);
    }
    assert forall|r: int, j: int|
        0 <= r < k && 0 <= j < inst.c@[r]@.len() implies (#[trigger] inst.c@[r]@[j]).1 < k + 2 by {
        assert(row_matches(inst.a@[r]@, cons[r].0, 2));
        assert(row_matches(inst.c@[r]@, cons[r].2, 2));
        let t = choose|t: int| 0 <= t < cons[r].2.len() && inst.c@[r]@[j].1 == var_index(cons[r].2[t].1, 2);
    }
    assert(inst.z().len() == k + 2) by {
        assert(inst.model().z.len() == inst.z().len());
    }
    assert(scalars_wf(inst.z()));
    // The rows, evaluated.
    let av = matvec_spec(inst.a@, z, k);
    let bv = matvec_spec(inst.b@, z, k);
    let cv = matvec_spec(inst.c@, z, k);
    assert(inst.model().m == k);
    assert(inst.model().a == inst.a@ && inst.model().b == inst.b@ && inst.model().c == inst.c@);
    assert forall|t: int| 0 <= t < k implies ((#[trigger] av[t] * bv[t]) % m == cv[t]) == (if t + 1 < k {
        true
    } else {
        pow_mod(x, k + 1) == y
    }) by {
        assert(row_matches(inst.a@[t]@, cons[t].0, 2));
        assert(row_matches(inst.b@[t]@, cons[t].1, 2));
        assert(row_matches(inst.c@[t]@, cons[t].2, 2));
        assert(row_eval(inst.a@[t]@, z) % m == lc_eval(cons[t].0, z, 2) % m);
        assert(row_eval(inst.b@[t]@, z) % m == lc_eval(cons[t].1, z, 2) % m);
        assert(row_eval(inst.c@[t]@, z) % m == lc_eval(cons[t].2, z, 2) % m);
        let (a, b, c) = power_constraint(1, 0, (t + 1) as nat, k);
        lemma_lc_single(CsVariable::Witness(t as usize), z, 2);
        lemma_lc_single(CsVariable::Witness(0), z, 2);
        lemma_lc_single(CsVariable::Witness((t + 1) as usize), z, 2);
        lemma_lc_single(CsVariable::Instance(1), z, 2);
        let pt = pow_mod(x, (t + 1) as nat);
        assert(lc_eval(a, z, 2) == pt);
        assert(lc_eval(b, z, 2) == x);
        vstd::arithmetic::div_mod::lemma_small_mod(pt, m);
        vstd::arithmetic::div_mod::lemma_small_mod(x, m);
        vstd::arithmetic::div_mod::lemma_small_mod(y, m);
        lemma_pow_mod_small(x, (t + 2) as nat);
        assert(av[t] == pt && bv[t] == x);
        assert((pt * x) % m == pow_mod(x, (t + 2) as nat));
        if t + 1 < k {
            assert(z[t + 3] == pow_mod(x, (t + 2) as nat)) by {
                assert(z[(t + 1) + 2] == pow_mod(x, ((t + 1) + 1) as nat));
            }
            assert(lc_eval(c, z, 2) == pow_mod(x, (t + 2) as nat));
            vstd::arithmetic::div_mod::lemma_small_mod(pow_mod(x, (t + 2) as nat), m);
            assert(cv[t] == pow_mod(x, (t + 2) as nat));
        } else {
            assert(lc_eval(c, z, 2) == y);
            assert(cv[t] == y);
        }
    }
    if r1cs_satisfied(inst.model()) {
        assert((av[k - 1] * bv[k - 1]) % m == cv[k - 1]);
    }
}


/// The full assignment `z` of a system built by `ops`: the constant one,
/// the public inputs, then the witnesses.
pub open spec fn ops_assignment(ops: Seq<CsOp>) -> Seq<nat> {
    seq![1nat] + op_inputs(ops) + op_witnesses(ops)
}

/// The constraint `<a, z> * <b, z> = <c, z>` holds modulo `r`.
pub open spec fn constraint_holds(
    c: (Seq<(nat, CsVariable)>, Seq<(nat, CsVariable)>, Seq<(nat, CsVariable)>),
    z: Seq<nat>,
    n_instance: nat,
) -> bool {
    (lc_eval(c.0, z, n_instance) * lc_eval(c.1, z, n_instance)) % fr_modulus() == lc_eval(
        c.2,
        z,
        n_instance,
    ) % fr_modulus()
}

/// Every constraint of the system from position `from` on holds on the
/// system's assignment.
pub open spec fn constraints_from_hold(ops: Seq<CsOp>, from: nat) -> bool {
    forall|k: int|
        from <= k < op_constraints(ops).len() ==> constraint_holds(
            #[trigger] op_constraints(ops)[k],
            ops_assignment(ops),
            num_instance(ops),
        )
}

/// The lists of the cubic circuit's own operations.
proof fn lemma_cubic_ops_lists(x: nat, out: nat, n0: nat, nw: nat)
    ensures
        ({
            let c = cubic_ops(x, out, n0, nw);
            let x2 = (x * x) % fr_modulus();
            let x3 = (x2 * x) % fr_modulus();
            let x_v = CsVariable::Witness(nw as usize);
            let x_sq = CsVariable::Witness((nw + 1) as usize);
            let x_cu = CsVariable::Witness((nw + 2) as usize);
            &&& op_inputs(c) == seq![out]
            &&& op_witnesses(c) == seq![x, x2, x3]
            &&& op_constraints(c) == seq![
                (single(x_v), single(x_v), single(x_sq)),
                (single(x_sq), single(x_v), single(x_cu)),
                (
                    single(CsVariable::One),
                    seq![(1nat, x_cu), (1nat, x_v), (5nat, CsVariable::One)],
                    single(CsVariable::Instance(n0 as usize)),
                ),
            ]
        }),
{
    let c = cubic_ops(x, out, n0, nw);
    reveal_with_fuel(op_inputs, 8);
    reveal_with_fuel(op_witnesses, 8);
    reveal_with_fuel(op_constraints, 8);
    let x2 = (x * x) % fr_modulus();
    let x3 = (x2 * x) % fr_modulus();
    assert(op_inputs(c) =~= seq![out]);
    assert(op_witnesses(c) =~= seq![x, x2, x3]);
    let x_v = CsVariable::Witness(nw as usize);
    let x_sq = CsVariable::Witness((nw + 1) as usize);
    let x_cu = CsVariable::Witness((nw + 2) as usize);
    assert(op_constraints(c) =~= seq![
        (single(x_v), single(x_v), single(x_sq)),
        (single(x_sq), single(x_v), single(x_cu)),
        (
            single(CsVariable::One),
            seq![(1nat, x_cu), (1nat, x_v), (5nat, CsVariable::One)],
            single(CsVariable::Instance(n0 as usize)),
        ),
    ]);
}

/// The assignment of a system after operations that add the inputs `ni`
/// and the witnesses `nw`: the earlier inputs and witnesses keep their
/// places, the new ones follow them.
proof fn lemma_assignment_extend(ops0: Seq<CsOp>, c: Seq<CsOp>)
    ensures
        ({
            let ops = ops0 + c;
            let z = ops_assignment(ops);
            let in0 = op_inputs(ops0);
            let w0 = op_witnesses(ops0);
            let n_in = num_instance(ops);
            &&& n_in == num_instance(ops0) + op_inputs(c).len()
            &&& op_constraints(ops) == op_constraints(ops0) + op_constraints(c)
            &&& z.len() == n_in + w0.len() + op_witnesses(c).len()
            &&& z[0] == 1
            &&& forall|i: int| 0 <= i < op_inputs(c).len() ==> z[num_instance(ops0) + i] == #[trigger] op_inputs(c)[i]
            &&& forall|j: int| 0 <= j < op_witnesses(c).len() ==> z[n_in + w0.len() + j] == #[trigger] op_witnesses(c)[j]
        }),
{
    lemma_ops_concat(ops0, c);
    let ops = ops0 + c;
    let z = ops_assignment(ops);
    let in0 = op_inputs(ops0);
    let w0 = op_witnesses(ops0);
    assert(z =~= seq![1nat] + in0 + op_inputs(c) + w0 + op_witnesses(c));
}

/// The cubic circuit built into any system, whatever it holds already:
/// `out` becomes its next public input and `x` its next witness, three
/// constraints are added, and they all hold exactly when
/// `x^3 + x + 5 = out` for this `x` and `out`. (The variable counts fit
/// the `usize` indices of `ark_relations`.)
pub proof fn lemma_cubic_circuit_in_any_system(ops0: Seq<CsOp>, x: nat, out: nat)
    requires
        x < fr_modulus(),
        out < fr_modulus(),
        num_instance(ops0) <= usize::MAX,
        op_witnesses(ops0).len() + 2 <= usize::MAX,
    ensures
        ({
            let ops = ops0 + cubic_ops(x, out, num_instance(ops0), op_witnesses(ops0).len());
            &&& op_inputs(ops) == op_inputs(ops0).push(out)
            &&& op_witnesses(ops)[op_witnesses(ops0).len() as int] == x
            &&& op_constraints(ops).len() == op_constraints(ops0).len() + 3
            &&& constraints_from_hold(ops, op_constraints(ops0).len())
                <==> (x * x * x + x + 5) % fr_modulus() == out
        }),
{
    let m = fr_modulus();
    let n0 = num_instance(ops0);
    let w0 = op_witnesses(ops0);
    let nw = w0.len();
    let c = cubic_ops(x, out, n0, nw);
    let ops = ops0 + c;
    let x2 = (x * x) % m;
    let x3 = (x2 * x) % m;
    lemma_cubic_ops_lists(x, out, n0, nw);
    lemma_ops_concat(ops0, c);
    lemma_assignment_extend(ops0, c);
    assert(op_inputs(ops) =~= op_inputs(ops0).push(out));
    assert(op_witnesses(ops) =~= w0 + seq![x, x2, x3]);
    let n_in = num_instance(ops);
    let z = ops_assignment(ops);
    assert(op_inputs(c)[0] == out);
    assert(op_witnesses(c)[0] == x && op_witnesses(c)[1] == x2 && op_witnesses(c)[2] == x3);
    assert(z[n0 + 0int] == out);
    assert(z[n_in + nw + 0int] == x);
    assert(z[n_in + nw + 1int] == x2);
    assert(z[n_in + nw + 2int] == x3);
    let x_v = CsVariable::Witness(nw as usize);
    let x_sq = CsVariable::Witness((nw + 1) as usize);
    let x_cu = CsVariable::Witness((nw + 2) as usize);
    let out_v = CsVariable::Instance(n0 as usize);
    let sum = seq![(1nat, x_cu), (1nat, x_v), (5nat, CsVariable::One)];
    assert(var_index(x_v, n_in) == n_in + nw);
    assert(var_index(x_sq, n_in) == n_in + nw + 1);
    assert(var_index(x_cu, n_in) == n_in + nw + 2);
    assert(var_index(out_v, n_in) == n0);
    let cons = op_constraints(ops);
    let k0: int = op_constraints(ops0).len() as int;
    assert(cons[k0] == (single(x_v), single(x_v), single(x_sq)));
    assert(cons[k0 + 1] == (single(x_sq), single(x_v), single(x_cu)));
    assert(cons[k0 + 2] == (single(CsVariable::One), sum, single(out_v)));
    lemma_lc_single(x_v, z, n_in);
    lemma_lc_single(x_sq, z, n_in);
    lemma_lc_single(x_cu, z, n_in);
    lemma_lc_single(out_v, z, n_in);
    lemma_lc_single(CsVariable::One, z, n_in);
    lemma_lc_three(sum, z, n_in);
    assert(sum[0] == (1nat, x_cu) && sum[1] == (1nat, x_v) && sum[2] == (5nat, CsVariable::One));
    assert(1nat * x3 == x3 && 1nat * x == x && 5nat * 1nat == 5) by (nonlinear_arith);
    assert(lc_eval(sum, z, n_in) == x3 + x + 5);
    vstd::arithmetic::div_mod::lemma_small_mod(x2, m);
    vstd::arithmetic::div_mod::lemma_small_mod(x3, m);
    vstd::arithmetic::div_mod::lemma_small_mod(out, m);
    assert(constraint_holds(cons[k0], z, n_in));
    assert(constraint_holds(cons[k0 + 1], z, n_in));
    assert((1 * (x3 + x + 5)) % m == (x3 + x + 5) % m);
    crate::linalg::lemma_mul_mod(x * x, x);
    vstd::arithmetic::div_mod::lemma_add_mod_noop(x3 as int, (x + 5) as int, m as int);
    vstd::arithmetic::div_mod::lemma_add_mod_noop((x * x * x) as int, (x + 5) as int, m as int);
    assert((x3 + x + 5) % m == (x * x * x + x + 5) % m);
    assert(constraint_holds(cons[k0 + 2], z, n_in) <==> (x * x * x + x + 5) % m == out);
    if (x * x * x + x + 5) % m == out {
        assert forall|k: int| k0 <= k < cons.len() implies constraint_holds(
            #[trigger] cons[k],
            z,
            n_in,
        ) by {
            assert(k == k0 || k == k0 + 1 || k == k0 + 2);
        }
    }
}


/// The power circuit with at least one multiplication built into any
/// system, whatever it holds already: `y` becomes its next public input and
/// `x` its next witness, `num_mults` constraints are added, and they all
/// hold exactly when `x^(num_mults + 1) = y` for this `x` and `y`. (The
/// variable counts fit the `usize` indices of `ark_relations`.)
pub proof fn lemma_power_circuit_in_any_system(ops0: Seq<CsOp>, x: nat, y: nat, k: nat)
    requires
        x < fr_modulus(),
        y < fr_modulus(),
        1 <= k,
        num_instance(ops0) <= usize::MAX,
        op_witnesses(ops0).len() + k <= usize::MAX,
    ensures
        ({
            let ops = ops0 + power_ops(x, y, num_instance(ops0), op_witnesses(ops0).len(), k);
            &&& op_inputs(ops) == op_inputs(ops0).push(y)
            &&& op_witnesses(ops)[op_witnesses(ops0).len() as int] == x
            &&& op_constraints(ops).len() == op_constraints(ops0).len() + k
            &&& constraints_from_hold(ops, op_constraints(ops0).len()) <==> pow_mod(x, k + 1) == y
        }),
{
    let m = fr_modulus();
    let n0 = num_instance(ops0);
    let w0 = op_witnesses(ops0);
    let nw = w0.len();
    let p = power_ops(x, y, n0, nw, k);
    let ops = ops0 + p;
    let head = seq![CsOp::Input(y), CsOp::Witness(x)];
    let rounds = power_rounds(x, n0, nw, k, k);
    reveal_with_fuel(op_inputs, 3);
    reveal_with_fuel(op_witnesses, 3);
    reveal_with_fuel(op_constraints, 3);
    assert(op_inputs(head) =~= seq![y]);
    assert(op_witnesses(head) =~= seq![x]);
    assert(op_constraints(head) =~= Seq::empty());
    lemma_power_rounds(x, n0, nw, k, k);
    lemma_ops_concat(head, rounds);
    lemma_pow_mod_small(x, 1);
    assert(op_inputs(p) =~= seq![y]);
    assert(op_witnesses(p) =~= Seq::new(k, |t: int| pow_mod(x, (t + 1) as nat)));
    assert(op_constraints(p) =~= Seq::new(k, |t: int| power_constraint(n0, nw, (t + 1) as nat, k)));
    lemma_ops_concat(ops0, p);
    lemma_assignment_extend(ops0, p);
    assert(op_inputs(ops) =~= op_inputs(ops0).push(y));
    let n_in = num_instance(ops);
    let z = ops_assignment(ops);
    assert(op_inputs(p)[0] == y);
    assert(z[n0 + 0int] == y);
    assert(op_witnesses(ops) == w0 + op_witnesses(p));
    assert(op_witnesses(p)[0] == x);
    assert forall|t: int| 0 <= t < k implies #[trigger] z[n_in + nw + t] == pow_mod(x, (t + 1) as nat)
        && pow_mod(x, (t + 1) as nat) < m by {
        assert(op_witnesses(p)[t] == pow_mod(x, (t + 1) as nat));
        lemma_pow_mod_small(x, (t + 1) as nat);
    }
    let cons = op_constraints(ops);
    let k0: int = op_constraints(ops0).len() as int;
    assert forall|t: int| 0 <= t < k implies constraint_holds(#[trigger] cons[k0 + t], z, n_in) == (
    if t + 1 < k {
        true
    } else {
        pow_mod(x, k + 1) == y
    }) by {
        let (a, b, c) = power_constraint(n0, nw, (t + 1) as nat, k);
        assert(cons[k0 + t] == (a, b, c));
        let prev = CsVariable::Witness((nw + t) as usize);
        let x_v = CsVariable::Witness(nw as usize);
        assert(a == single(prev) && b == single(x_v));
        assert(var_index(prev, n_in) == n_in + nw + t);
        assert(var_index(x_v, n_in) == n_in + nw + 0);
        lemma_lc_single(prev, z, n_in);
        lemma_lc_single(x_v, z, n_in);
        let pt = pow_mod(x, (t + 1) as nat);
        assert(z[n_in + nw + 0int] == pow_mod(x, 1));
        assert(lc_eval(a, z, n_in) == pt);
        assert(lc_eval(b, z, n_in) == x);
        lemma_pow_mod_small(x, (t + 2) as nat);
        assert((pt * x) % m == pow_mod(x, (t + 2) as nat));
        if t + 1 < k {
            let next = CsVariable::Witness((nw + t + 1) as usize);
            assert(c == single(next));
            assert(var_index(next, n_in) == n_in + nw + (t + 1));
            lemma_lc_single(next, z, n_in);
            assert(z[n_in + nw + (t + 1)] == pow_mod(x, ((t + 1) + 1) as nat));
            vstd::arithmetic::div_mod::lemma_small_mod(pow_mod(x, (t + 2) as nat), m);
        } else {
            let next = CsVariable::Instance(n0 as usize);
            assert(c == single(next));
            lemma_lc_single(next, z, n_in);
            vstd::arithmetic::div_mod::lemma_small_mod(y, m);
            assert(t + 2 == k + 1);
        }
    }
    if pow_mod(x, k + 1) == y {
        assert forall|q: int| k0 <= q < cons.len() implies constraint_holds(#[trigger] cons[q], z, n_in) by {
            assert(cons[k0 + (q - k0)] == cons[q]);
        }
    } else {
        assert(cons[k0 + (k - 1)] == cons[k0 + k - 1]);
        assert(!constraint_holds(cons[k0 + (k - 1)], z, n_in));
    }
}

} // verus!
