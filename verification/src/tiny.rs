//! A toy constraint system in the backend's form: three constraints over
//! five variables and two inputs,
//! `(Z0 + Z1) * I0 = Z2`, `(Z0 + I1) * Z2 = Z3`, `Z4 * 1 = 0`.

use crate::assignment::{AssignmentView, RemappedAssignment};
use crate::backend::{
    backend_assignment, backend_instance, backend_is_sat, built_from, instance_is_sat,
    to_backend_assignment, to_backend_instance,
};
use crate::circuit::pair_defect_with;
use crate::error::InstanceConstructionError;
use crate::field::{le_value, ristretto255_order, FieldElement};
use crate::instance::{InstanceView, RemappedInstance};
use crate::matrix::Entry;
use crate::satisfy::{combined_values, lemma_row_dot_push, row_dot, row_holds, target_satisfied};
use vstd::arithmetic::div_mod::{lemma_mul_mod_noop_left, lemma_small_mod};
use vstd::prelude::*;

verus! {

/// Why the toy system could not be produced.
#[derive(Clone, Copy, Debug, PartialEq, Eq)]
pub enum TinyError {
    /// The operating system gave no random bytes.
    NoRandomness,
    /// The backend did not take the instance or an assignment.
    Backend(InstanceConstructionError),
    /// The backend does not find the instance satisfied.
    NotSatisfied,
}

/// `curve25519_dalek::scalar::Scalar`'s `+`: addition modulo the order of
/// ristretto255. The operands are read with `Scalar::from_bytes_mod_order`
/// and the sum is written with `Scalar::to_bytes`, which is canonical.
#[verifier::external_body]
fn scalar_add(a: &FieldElement, b: &FieldElement) -> (r: FieldElement)
    ensures
        r.value() == (a.value() + b.value()) % ristretto255_order(),
{
    let x = curve25519_dalek::scalar::Scalar::from_bytes_mod_order(a.bytes);
    let y = curve25519_dalek::scalar::Scalar::from_bytes_mod_order(b.bytes);
    FieldElement { bytes: (x + y).to_bytes() }
}

/// `curve25519_dalek::scalar::Scalar`'s `*`: multiplication modulo the order
/// of ristretto255. The operands are read with `Scalar::from_bytes_mod_order`
/// and the product is written with `Scalar::to_bytes`, which is canonical.
#[verifier::external_body]
fn scalar_mul(a: &FieldElement, b: &FieldElement) -> (r: FieldElement)
    ensures
        r.value() == (a.value() * b.value()) % ristretto255_order(),
{
    let x = curve25519_dalek::scalar::Scalar::from_bytes_mod_order(a.bytes);
    let y = curve25519_dalek::scalar::Scalar::from_bytes_mod_order(b.bytes);
    FieldElement { bytes: (x * y).to_bytes() }
}

/// `curve25519_dalek::scalar::Scalar::from_bytes_mod_order_wide`: the
/// 512-bit number that the bytes denote, reduced modulo the order of
/// ristretto255.
#[verifier::external_body]
fn scalar_from_wide(bytes: &[u8; 64]) -> (r: FieldElement)
    ensures
        r.value() == le_value(bytes@) % ristretto255_order(),
{
    FieldElement { bytes: curve25519_dalek::scalar::Scalar::from_bytes_mod_order_wide(bytes).to_bytes() }
}

/// `rand::rngs::OsRng` through `rand::RngCore::try_fill_bytes`: 64 bytes
/// from the operating system, of which nothing is known, or none.
#[verifier::external_body]
fn os_random_wide() -> (r: Option<[u8; 64]>)
{
    let mut buf = [0u8; 64];
    match rand::RngCore::try_fill_bytes(&mut rand::rngs::OsRng, &mut buf) {
        Ok(_) => Some(buf),
        Err(_) => None,
    }
}

/// The matrix A of the toy system.
pub open spec fn tiny_a(one: [u8; 32]) -> Seq<Entry> {
    seq![
        (0usize, 0usize, one),
        (0usize, 1usize, one),
        (1usize, 0usize, one),
        (1usize, 7usize, one),
        (2usize, 4usize, one),
    ]
}

/// The matrix B of the toy system.
pub open spec fn tiny_b(one: [u8; 32]) -> Seq<Entry> {
    seq![(0usize, 6usize, one), (1usize, 2usize, one), (2usize, 5usize, one)]
}

/// The matrix C of the toy system.
pub open spec fn tiny_c(one: [u8; 32]) -> Seq<Entry> {
    seq![(0usize, 2usize, one), (1usize, 3usize, one)]
}

/// The toy system, every coefficient the given encoding of one.
pub open spec fn tiny_view(one: [u8; 32]) -> InstanceView {
    InstanceView {
        num_constraints: 3,
        num_vars: 5,
        num_inputs: 2,
        a: tiny_a(one),
        b: tiny_b(one),
        c: tiny_c(one),
    }
}

/// The toy system: rows `(Z0 + Z1) * I0 = Z2`, `(Z0 + I1) * Z2 = Z3` and
/// `Z4 * 1 = 0` over the columns `Z0 .. Z4, 1, I0, I1`.
pub fn tiny_instance() -> (inst: RemappedInstance)
    ensures
        inst@ == tiny_view(FieldElement::one_bytes()),
{
    let one: [u8; 32] = FieldElement::one().bytes;
    proof {
        assert(one =~= FieldElement::one_bytes());
    }
    let num_vars: usize = 5;
    let mut a: Vec<Entry> = Vec::new();
    let mut b: Vec<Entry> = Vec::new();
    let mut c: Vec<Entry> = Vec::new();
    a.push((0, 0, one));
    a.push((0, 1, one));
    b.push((0, num_vars + 1, one));
    c.push((0, 2, one));
    a.push((1, 0, one));
    a.push((1, num_vars + 2, one));
    b.push((1, 2, one));
    c.push((1, 3, one));
    a.push((2, 4, one));
    b.push((2, num_vars, one));
    proof {
        assert(a@ =~= tiny_a(one));
        assert(b@ =~= tiny_b(one));
        assert(c@ =~= tiny_c(one));
    }
    RemappedInstance {
        num_constraints: 3,
        num_vars,
        num_inputs: 2,
        sparse_a: a,
        sparse_b: b,
        sparse_c: c,
    }
}

/// What the rows of the toy system sum to over a vector of eight values.
pub proof fn lemma_tiny_rows(one: [u8; 32], z: Seq<nat>)
    requires
        le_value(one@) == 1,
        z.len() == 8,
    ensures
        row_dot(tiny_a(one), 0, z) == z[0] + z[1],
        row_dot(tiny_b(one), 0, z) == z[6],
        row_dot(tiny_c(one), 0, z) == z[2],
        row_dot(tiny_a(one), 1, z) == z[0] + z[7],
        row_dot(tiny_b(one), 1, z) == z[2],
        row_dot(tiny_c(one), 1, z) == z[3],
        row_dot(tiny_a(one), 2, z) == z[4],
        row_dot(tiny_b(one), 2, z) == z[5],
        row_dot(tiny_c(one), 2, z) == 0,
{
    let none = Seq::<Entry>::empty();
    let a1 = none.push((0usize, 0usize, one));
    let a2 = a1.push((0usize, 1usize, one));
    let a3 = a2.push((1usize, 0usize, one));
    let a4 = a3.push((1usize, 7usize, one));
    let a5 = a4.push((2usize, 4usize, one));
    assert(a5 =~= tiny_a(one));
    lemma_push_rows(none, (0usize, 0usize, one), z);
    lemma_push_rows(a1, (0usize, 1usize, one), z);
    lemma_push_rows(a2, (1usize, 0usize, one), z);
    lemma_push_rows(a3, (1usize, 7usize, one), z);
    lemma_push_rows(a4, (2usize, 4usize, one), z);
    let b1 = none.push((0usize, 6usize, one));
    let b2 = b1.push((1usize, 2usize, one));
    let b3 = b2.push((2usize, 5usize, one));
    assert(b3 =~= tiny_b(one));
    lemma_push_rows(none, (0usize, 6usize, one), z);
    lemma_push_rows(b1, (1usize, 2usize, one), z);
    lemma_push_rows(b2, (2usize, 5usize, one), z);
    let c1 = none.push((0usize, 2usize, one));
    let c2 = c1.push((1usize, 3usize, one));
    assert(c2 =~= tiny_c(one));
    lemma_push_rows(none, (0usize, 2usize, one), z);
    lemma_push_rows(c1, (1usize, 3usize, one), z);
}

/// What one more entry with the value one adds to the sums over the three rows.
proof fn lemma_push_rows(m: Seq<Entry>, e: Entry, z: Seq<nat>)
    requires
        le_value(e.2@) == 1,
    ensures
        row_dot(m.push(e), 0, z) == row_dot(m, 0, z) + if e.0 == 0 {
            z[e.1 as int] as int
        } else {
            0
        },
        row_dot(m.push(e), 1, z) == row_dot(m, 1, z) + if e.0 == 1 {
            z[e.1 as int] as int
        } else {
            0
        },
        row_dot(m.push(e), 2, z) == row_dot(m, 2, z) + if e.0 == 2 {
            z[e.1 as int] as int
        } else {
            0
        },
{
    lemma_row_dot_push(m, e, 0, z);
    lemma_row_dot_push(m, e, 1, z);
    lemma_row_dot_push(m, e, 2, z);
}

/// Whether the assignment is the one that the four free values determine:
/// `Z2 = (Z0 + Z1) * I0`, `Z3 = (Z0 + I1) * Z2` and `Z4 = 0` in the field.
pub open spec fn tiny_assignment_of(
    asg: AssignmentView,
    i0: FieldElement,
    i1: FieldElement,
    z0: FieldElement,
    z1: FieldElement,
) -> bool {
    let p = ristretto255_order();
    &&& asg.vars.len() == 5
    &&& asg.inputs == seq![i0, i1]
    &&& asg.vars[0] == z0
    &&& asg.vars[1] == z1
    &&& asg.vars[2].value() == (((z0.value() + z1.value()) % p) * i0.value()) % p
    &&& asg.vars[3].value() == (((z0.value() + i1.value()) % p) * asg.vars[2].value()) % p
    &&& asg.vars[4].value() == 0
}

/// The assignment that the four free values determine satisfies the toy system.
pub proof fn lemma_tiny_satisfied(
    one: [u8; 32],
    asg: AssignmentView,
    i0: FieldElement,
    i1: FieldElement,
    z0: FieldElement,
    z1: FieldElement,
)
    requires
        le_value(one@) == 1,
        tiny_assignment_of(asg, i0, i1, z0, z1),
    ensures
        target_satisfied(tiny_view(one), combined_values(asg), ristretto255_order() as int),
{
    let p = ristretto255_order() as int;
    let z = combined_values(asg);
    let inst = tiny_view(one);
    assert(z.len() == 8);
    assert(z[0] == z0.value() && z[1] == z1.value() && z[2] == asg.vars[2].value() && z[3]
        == asg.vars[3].value() && z[4] == 0 && z[5] == 1 && z[6] == i0.value() && z[7]
        == i1.value());
    lemma_tiny_rows(one, z);
    assert(row_holds(inst, 0, z, p)) by {
        lemma_mul_mod_noop_left((z[0] + z[1]) as int, z[6] as int, p);
        lemma_small_mod(z[2], p as nat);
    }
    assert(row_holds(inst, 1, z, p)) by {
        lemma_mul_mod_noop_left((z[0] + z[7]) as int, z[2] as int, p);
        lemma_small_mod(z[3], p as nat);
    }
    assert(row_holds(inst, 2, z, p)) by {
        assert(z[4] * z[5] == 0);
    }
    assert forall|row: int| 0 <= row < inst.num_constraints implies #[trigger] row_holds(
        inst,
        row,
        z,
        p,
    ) by {
        assert(row == 0 || row == 1 || row == 2);
    }
}

/// Computes the assignment that four free values determine.
pub fn tiny_assignment(i0: &FieldElement, i1: &FieldElement, z0: &FieldElement, z1: &FieldElement) -> (asg:
    RemappedAssignment)
    ensures
        tiny_assignment_of(asg@, *i0, *i1, *z0, *z1),
        target_satisfied(
            tiny_view(FieldElement::one_bytes()),
            combined_values(asg@),
            ristretto255_order() as int,
        ),
{
    let sum01 = scalar_add(z0, z1);
    let z2 = scalar_mul(&sum01, i0);
    let sum0i = scalar_add(z0, i1);
    let z3 = scalar_mul(&sum0i, &z2);
    let z4 = FieldElement::zero();
    let mut vars: Vec<FieldElement> = Vec::new();
    vars.push(*z0);
    vars.push(*z1);
    vars.push(z2);
    vars.push(z3);
    vars.push(z4);
    let mut inputs: Vec<FieldElement> = Vec::new();
    inputs.push(*i0);
    inputs.push(*i1);
    let asg = RemappedAssignment { vars, inputs };
    proof {
        assert(asg@.inputs =~= seq![*i0, *i1]);
        FieldElement::lemma_one_bytes();
        lemma_tiny_satisfied(FieldElement::one_bytes(), asg@, *i0, *i1, *z0, *z1);
    }
    asg
}

/// What the toy system is handed back as: constraints, variables, inputs,
/// non-zero entries, the backend's instance and its two assignments.
pub type TinyParts = (
    usize,
    usize,
    usize,
    usize,
    libspartan::Instance,
    libspartan::Assignment,
    libspartan::Assignment,
);

/// Whether the parts are what the backend builds from the toy system and an assignment.
pub open spec fn tiny_parts_of(parts: TinyParts, asg: AssignmentView) -> bool {
    let v = tiny_view(FieldElement::one_bytes());
    &&& parts.0 == 3
    &&& parts.1 == 5
    &&& parts.2 == 2
    &&& parts.3 == 5
    &&& backend_instance(3, 5, 2, v.a, v.b, v.c) == Some(parts.4)
    &&& backend_assignment(asg.vars) == Some(parts.5)
    &&& backend_assignment(asg.inputs) == Some(parts.6)
    &&& backend_is_sat(parts.4, parts.5, parts.6) == Some(true)
}

/// Hands the toy system and an assignment for it to the backend, and asks
/// the backend whether it is satisfied. An assignment of five variables and
/// two inputs, all scalars, comes back with the system exactly if it
/// satisfies the three rows.
pub fn tiny_r1cs_with(asg: &RemappedAssignment) -> (r: Result<TinyParts, TinyError>)
    ensures
        match r {
            Ok(parts) => tiny_parts_of(parts, asg@),
            Err(TinyError::Backend(e)) => pair_defect_with(
                tiny_view(FieldElement::one_bytes()),
                asg@,
            ) == Some(e),
            Err(TinyError::NotSatisfied) => pair_defect_with(
                tiny_view(FieldElement::one_bytes()),
                asg@,
            ) is None && !(asg@.vars.len() == 5 && asg@.inputs.len() == 2 && target_satisfied(
                tiny_view(FieldElement::one_bytes()),
                combined_values(asg@),
                ristretto255_order() as int,
            )),
            Err(TinyError::NoRandomness) => false,
        },
{
    let inst = tiny_instance();
    let num_non_zero_entries: usize = inst.num_non_zero_entries();
    let backend = match to_backend_instance(&inst) {
        Err(e) => { return Err(TinyError::Backend(e)); },
        Ok(x) => x,
    };
    let vars = match to_backend_assignment(&asg.vars) {
        Err(e) => { return Err(TinyError::Backend(e)); },
        Ok(x) => x,
    };
    let inputs = match to_backend_assignment(&asg.inputs) {
        Err(e) => { return Err(TinyError::Backend(e)); },
        Ok(x) => x,
    };
    proof {
        crate::backend::lemma_instance_defect_dims(inst@);
        if asg@.vars.len() == 5 && asg@.inputs.len() == 2 {
            assert(built_from(backend, vars, inputs, inst@, asg@));
        }
    }
    match instance_is_sat(&backend, &vars, &inputs) {
        Some(true) => Ok((3, 5, 2, num_non_zero_entries, backend, vars, inputs)),
        _ => Err(TinyError::NotSatisfied),
    }
}

/// The number that 64 bytes denote, reduced to the backend's field.
pub open spec fn reduced(bytes: [u8; 64]) -> nat {
    le_value(bytes@) % ristretto255_order()
}

/// Whether the parts are what the backend builds from the toy system and
/// the assignment that the four free values determine.
pub open spec fn tiny_parts_from(parts: TinyParts, i0: nat, i1: nat, z0: nat, z1: nat) -> bool {
    exists|asg: AssignmentView, a: FieldElement, b: FieldElement, c: FieldElement, d: FieldElement|
        #![trigger tiny_parts_of(parts, asg), tiny_assignment_of(asg, a, b, c, d)]
        tiny_parts_of(parts, asg) && tiny_assignment_of(asg, a, b, c, d) && a.value() == i0
            && b.value() == i1 && c.value() == z0 && d.value() == z1
}

/// The toy system has no defect, and neither has an assignment of scalars.
pub proof fn lemma_tiny_valid(asg: AssignmentView)
    requires
        crate::backend::scalars_valid(asg.vars),
        crate::backend::scalars_valid(asg.inputs),
    ensures
        pair_defect_with(tiny_view(FieldElement::one_bytes()), asg) is None,
{
    let one = FieldElement::one_bytes();
    let v = tiny_view(one);
    FieldElement::lemma_one_bytes();
    crate::backend::lemma_entries_defect(v.a, 3, 8);
    crate::backend::lemma_entries_defect(v.b, 3, 8);
    crate::backend::lemma_entries_defect(v.c, 3, 8);
    assert(crate::backend::entries_valid(v.a, 3, 8));
    assert(crate::backend::entries_valid(v.b, 3, 8));
    assert(crate::backend::entries_valid(v.c, 3, 8));
}

/// Makes the toy system from random bytes: the four free values `I0`, `I1`,
/// `Z0`, `Z1` are the bytes reduced to the field, the assignment is the one
/// they determine, and the backend, asked whether it satisfies the system,
/// finds that it does.
pub fn tiny_r1cs_from(i0: &[u8; 64], i1: &[u8; 64], z0: &[u8; 64], z1: &[u8; 64]) -> (r: Result<
    TinyParts,
    TinyError,
>)
    ensures
        r matches Ok(parts) && tiny_parts_from(
            parts,
            reduced(*i0),
            reduced(*i1),
            reduced(*z0),
            reduced(*z1),
        ),
{
    let a = scalar_from_wide(i0);
    let b = scalar_from_wide(i1);
    let c = scalar_from_wide(z0);
    let d = scalar_from_wide(z1);
    let asg = tiny_assignment(&a, &b, &c, &d);
    proof {
        let p = ristretto255_order();
        assert(crate::backend::scalars_valid(asg@.vars)) by {
            assert forall|k: int| 0 <= k < asg@.vars.len() implies (#[trigger] asg@.vars[k]).value()
                < p by {
                assert(k == 0 || k == 1 || k == 2 || k == 3 || k == 4);
            }
        }
        assert(crate::backend::scalars_valid(asg@.inputs));
        lemma_tiny_valid(asg@);
    }
    let r = tiny_r1cs_with(&asg);
    proof {
        if r is Ok {
            assert(tiny_parts_of(r->Ok_0, asg@) && tiny_assignment_of(asg@, a, b, c, d));
        }
    }
    r
}

/// Produces the toy system with a satisfying assignment whose four free
/// values are drawn at random. It fails only if the operating system gives
/// no random bytes.
pub fn produce_tiny_r1cs() -> (r: Result<TinyParts, TinyError>)
    ensures
        r matches Ok(parts) ==> exists|i0: nat, i1: nat, z0: nat, z1: nat|
            #[trigger] tiny_parts_from(parts, i0, i1, z0, z1),
        r matches Err(e) ==> e == TinyError::NoRandomness,
{
    let i0 = match os_random_wide() {
        None => { return Err(TinyError::NoRandomness); },
        Some(bytes) => bytes,
    };
    let i1 = match os_random_wide() {
        None => { return Err(TinyError::NoRandomness); },
        Some(bytes) => bytes,
    };
    let z0 = match os_random_wide() {
        None => { return Err(TinyError::NoRandomness); },
        Some(bytes) => bytes,
    };
    let z1 = match os_random_wide() {
        None => { return Err(TinyError::NoRandomness); },
        Some(bytes) => bytes,
    };
    let r = tiny_r1cs_from(&i0, &i1, &z0, &z1);
    proof {
        if r is Ok {
            assert(tiny_parts_from(r->Ok_0, reduced(i0), reduced(i1), reduced(z0), reduced(z1)));
        }
    }
    r
}

} // verus!
