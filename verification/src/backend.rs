//! Instance adapter: the remapped instance and assignment handed to the
//! sparse-matrix backend, which computes in the scalar field of ristretto255.
//!
//! The backend's own checks are made here first, so that a refusal has a
//! reason; what the backend then builds is known only by name.

use crate::assignment::AssignmentView;
use crate::error::InstanceConstructionError;
use crate::field::{le_value, ristretto255_order, FieldConfig, FieldElement};
use crate::instance::{InstanceView, RemappedInstance};
use crate::matrix::Entry;
use crate::satisfy::{combined_values, target_satisfied};
use vstd::prelude::*;

verus! {

/// `libspartan::Instance`: the backend's constraint system, carried through unread.
#[verifier::external_type_specification]
#[verifier::external_body]
pub struct ExInstance(libspartan::Instance);

/// `libspartan::Assignment`: the backend's vector of scalars, for variables
/// and for inputs alike, carried through unread.
#[verifier::external_type_specification]
#[verifier::external_body]
pub struct ExAssignment(libspartan::Assignment);

/// The largest number of constraints or variables that is handed to the
/// backend, which pads both to a power of two and doubles the latter.
pub const MAX_DIMENSION: usize = 1073741824;

/// Whether the backend can pad the dimensions without leaving the machine's integers.
pub open spec fn dimensions_fit(num_cons: nat, num_vars: nat, num_inputs: nat) -> bool {
    num_cons <= MAX_DIMENSION && num_vars <= MAX_DIMENSION && num_inputs < MAX_DIMENSION
}

/// What is wrong with a matrix entry, if anything: its place, then its value.
pub open spec fn entry_defect(e: Entry, rows: nat, cols: nat) -> Option<InstanceConstructionError> {
    if e.0 >= rows || e.1 >= cols {
        Some(InstanceConstructionError::InvalidIndex)
    } else if le_value(e.2@) >= ristretto255_order() {
        Some(InstanceConstructionError::InvalidScalar)
    } else {
        None
    }
}

/// What is wrong with the first entry of a matrix that has a defect.
pub open spec fn entries_defect(m: Seq<Entry>, rows: nat, cols: nat) -> Option<
    InstanceConstructionError,
>
    decreases m.len(),
{
    if m.len() == 0 {
        None
    } else {
        match entries_defect(m.drop_last(), rows, cols) {
            Some(e) => Some(e),
            None => entry_defect(m.last(), rows, cols),
        }
    }
}

/// Every entry lies within the matrix and holds a scalar of the backend's field.
pub open spec fn entries_valid(m: Seq<Entry>, rows: nat, cols: nat) -> bool {
    forall|i: int|
        0 <= i < m.len() ==> (#[trigger] m[i]).0 < rows && m[i].1 < cols && le_value(m[i].2@)
            < ristretto255_order()
}

/// Every entry of the three matrices lies within `num_cons` rows and the
/// columns `vars ++ [1] ++ inputs`, and holds a scalar of the backend's field.
pub open spec fn matrices_valid(
    num_cons: usize,
    num_vars: usize,
    num_inputs: usize,
    a: Seq<Entry>,
    b: Seq<Entry>,
    c: Seq<Entry>,
) -> bool {
    let cols = (num_vars + 1 + num_inputs) as nat;
    entries_valid(a, num_cons as nat, cols) && entries_valid(b, num_cons as nat, cols)
        && entries_valid(c, num_cons as nat, cols)
}

/// Every value is a scalar of the backend's field.
pub open spec fn scalars_valid(values: Seq<FieldElement>) -> bool {
    forall|i: int| 0 <= i < values.len() ==> (#[trigger] values[i]).value() < ristretto255_order()
}

/// Why the backend does not take an instance, if it does not: its
/// dimensions, or the first defect of its matrices in the order a, b, c.
pub open spec fn instance_defect(v: InstanceView) -> Option<InstanceConstructionError> {
    let cols = v.num_vars + 1 + v.num_inputs;
    if !dimensions_fit(v.num_constraints, v.num_vars, v.num_inputs) {
        Some(InstanceConstructionError::DimensionTooLarge)
    } else {
        match entries_defect(v.a, v.num_constraints, cols) {
            Some(e) => Some(e),
            None => match entries_defect(v.b, v.num_constraints, cols) {
                Some(e) => Some(e),
                None => entries_defect(v.c, v.num_constraints, cols),
            },
        }
    }
}

/// An instance without defect has dimensions that fit.
pub proof fn lemma_instance_defect_dims(v: InstanceView)
    ensures
        instance_defect(v) is None ==> dimensions_fit(v.num_constraints, v.num_vars, v.num_inputs),
{
}

/// A matrix has a defect exactly if not every entry is valid.
pub proof fn lemma_entries_defect(m: Seq<Entry>, rows: nat, cols: nat)
    ensures
        entries_defect(m, rows, cols) is None <==> entries_valid(m, rows, cols),
    decreases m.len(),
{
    if m.len() > 0 {
        let front = m.drop_last();
        lemma_entries_defect(front, rows, cols);
        if entries_valid(m, rows, cols) {
            assert forall|i: int| 0 <= i < front.len() implies (#[trigger] front[i]).0 < rows
                && front[i].1 < cols && le_value(front[i].2@) < ristretto255_order() by {
                assert(front[i] == m[i]);
            }
            assert(m[m.len() - 1] == m.last());
        }
        if entries_defect(m, rows, cols) is None {
            assert forall|i: int| 0 <= i < m.len() implies (#[trigger] m[i]).0 < rows && m[i].1
                < cols && le_value(m[i].2@) < ristretto255_order() by {
                if i < front.len() {
                    assert(front[i] == m[i]);
                }
            }
        }
    }
}

/// The instance that the backend builds from the given dimensions and matrices.
pub uninterp spec fn backend_instance(
    num_cons: usize,
    num_vars: usize,
    num_inputs: usize,
    a: Seq<Entry>,
    b: Seq<Entry>,
    c: Seq<Entry>,
) -> Option<libspartan::Instance>;

/// The assignment that the backend builds from the given values.
pub uninterp spec fn backend_assignment(values: Seq<FieldElement>) -> Option<libspartan::Assignment>;

/// What the backend's satisfiability check says of an instance and its two assignments.
pub uninterp spec fn backend_is_sat(
    inst: libspartan::Instance,
    vars: libspartan::Assignment,
    inputs: libspartan::Assignment,
) -> Option<bool>;

/// `libspartan::Instance::new`. Its result is a function of its arguments,
/// known here by name. It goes through `a`, then `b`, then `c`, and refuses
/// at the first entry whose row is not below `num_cons`, whose column is not
/// below `num_vars + 1 + num_inputs`, or whose bytes are not below the order
/// of ristretto255; otherwise it builds the instance. The dimensions are
/// bounded because it pads them to powers of two with unchecked arithmetic.
#[verifier::external_body]
pub(crate) fn instance_new(
    num_cons: usize,
    num_vars: usize,
    num_inputs: usize,
    a: &Vec<Entry>,
    b: &Vec<Entry>,
    c: &Vec<Entry>,
) -> (r: Option<libspartan::Instance>)
    requires
        dimensions_fit(num_cons as nat, num_vars as nat, num_inputs as nat),
    ensures
        r == backend_instance(num_cons, num_vars, num_inputs, a@, b@, c@),
        r is Some <==> matrices_valid(num_cons, num_vars, num_inputs, a@, b@, c@),
{
    libspartan::Instance::new(num_cons, num_vars, num_inputs, a, b, c).ok()
}

/// `libspartan::Assignment::new`. Its result is a function of the values,
/// known here by name. It refuses exactly if some value's bytes are not below
/// the order of ristretto255.
#[verifier::external_body]
pub(crate) fn assignment_new(values: &Vec<FieldElement>) -> (r: Option<libspartan::Assignment>)
    ensures
        r == backend_assignment(values@),
        r is Some <==> scalars_valid(values@),
{
    let raw: Vec<[u8; 32]> = values.iter().map(|x| x.bytes).collect();
    libspartan::Assignment::new(&raw).ok()
}

/// Whether the backend's instance and assignments are what it builds from a
/// plain instance and a plain assignment whose two vectors are as long as
/// the instance declares.
pub open spec fn built_from(
    inst: libspartan::Instance,
    vars: libspartan::Assignment,
    inputs: libspartan::Assignment,
    view: InstanceView,
    asg: AssignmentView,
) -> bool {
    &&& dimensions_fit(view.num_constraints, view.num_vars, view.num_inputs)
    &&& backend_instance(
        view.num_constraints as usize,
        view.num_vars as usize,
        view.num_inputs as usize,
        view.a,
        view.b,
        view.c,
    ) == Some(inst)
    &&& backend_assignment(asg.vars) == Some(vars)
    &&& backend_assignment(asg.inputs) == Some(inputs)
    &&& asg.vars.len() == view.num_vars
    &&& asg.inputs.len() == view.num_inputs
}

/// `libspartan::Instance::is_sat`. Its result is a function of the instance
/// and the two assignments, known here by name; a refusal is `None`. For an
/// instance and assignments built from plain values of matching lengths it
/// does not refuse, and answers as the backend's documentation defines
/// satisfiability: `Az o Bz = Cz` in the field, row by row, where
/// `z = (vars, 1, inputs)` and entries that share a place add up.
#[verifier::external_body]
pub(crate) fn instance_is_sat(
    inst: &libspartan::Instance,
    vars: &libspartan::Assignment,
    inputs: &libspartan::Assignment,
) -> (r: Option<bool>)
    ensures
        r == backend_is_sat(*inst, *vars, *inputs),
        forall|view: InstanceView, asg: AssignmentView| #[trigger]
            built_from(*inst, *vars, *inputs, view, asg) ==> r == Some(
                target_satisfied(view, combined_values(asg), ristretto255_order() as int),
            ),
{
    inst.is_sat(vars, inputs).ok()
}

/// The defect of the first entry of a matrix that has one.
fn find_defect(m: &Vec<Entry>, rows: usize, cols: usize) -> (r: Option<InstanceConstructionError>)
    ensures
        r == entries_defect(m@, rows as nat, cols as nat),
{
    let field = FieldConfig::ristretto255();
    let mut found: Option<InstanceConstructionError> = None;
    let mut i: usize = 0;
    while i < m.len()
        invariant
            i <= m.len(),
            field.modulus_value() == ristretto255_order(),
            found == entries_defect(m@.take(i as int), rows as nat, cols as nat),
        decreases m.len() - i,
    {
        proof {
            assert(m@.take(i + 1).drop_last() =~= m@.take(i as int));
        }
        if found.is_none() {
            let e: &Entry = &m[i];
            if e.0 >= rows || e.1 >= cols {
                found = Some(InstanceConstructionError::InvalidIndex);
            } else if !field.is_canonical(&e.2) {
                found = Some(InstanceConstructionError::InvalidScalar);
            }
        }
        i = i + 1;
    }
    proof {
        assert(m@.take(m.len() as int) =~= m@);
    }
    found
}

/// Whether every value is a scalar of the backend's field.
fn all_scalars(values: &Vec<FieldElement>) -> (ok: bool)
    ensures
        ok == scalars_valid(values@),
{
    let field = FieldConfig::ristretto255();
    let mut i: usize = 0;
    while i < values.len()
        invariant
            i <= values.len(),
            field.modulus_value() == ristretto255_order(),
            forall|k: int| 0 <= k < i ==> (#[trigger] values@[k]).value() < ristretto255_order(),
        decreases values.len() - i,
    {
        if !field.is_canonical(&values[i].bytes) {
            return false;
        }
        i = i + 1;
    }
    true
}

/// Hands a remapped instance to the backend. It is taken exactly if its
/// dimensions fit and every entry lies within them and holds a scalar of the
/// backend's field; else the first reason is returned.
pub fn to_backend_instance(inst: &RemappedInstance) -> (r: Result<
    libspartan::Instance,
    InstanceConstructionError,
>)
    ensures
        r is Ok <==> instance_defect(inst@) is None,
        r matches Ok(x) ==> backend_instance(
            inst.num_constraints,
            inst.num_vars,
            inst.num_inputs,
            inst.sparse_a@,
            inst.sparse_b@,
            inst.sparse_c@,
        ) == Some(x),
        r matches Err(e) ==> instance_defect(inst@) == Some(e),
{
    if inst.num_constraints > MAX_DIMENSION || inst.num_vars > MAX_DIMENSION || inst.num_inputs
        >= MAX_DIMENSION {
        return Err(InstanceConstructionError::DimensionTooLarge);
    }
    let cols: usize = inst.num_vars + 1 + inst.num_inputs;
    let mut found = find_defect(&inst.sparse_a, inst.num_constraints, cols);
    if found.is_none() {
        found = find_defect(&inst.sparse_b, inst.num_constraints, cols);
    }
    if found.is_none() {
        found = find_defect(&inst.sparse_c, inst.num_constraints, cols);
    }
    match found {
        Some(e) => {
            return Err(e);
        },
        None => {},
    }
    proof {
        lemma_entries_defect(inst.sparse_a@, inst.num_constraints as nat, cols as nat);
        lemma_entries_defect(inst.sparse_b@, inst.num_constraints as nat, cols as nat);
        lemma_entries_defect(inst.sparse_c@, inst.num_constraints as nat, cols as nat);
    }
    match instance_new(
        inst.num_constraints,
        inst.num_vars,
        inst.num_inputs,
        &inst.sparse_a,
        &inst.sparse_b,
        &inst.sparse_c,
    ) {
        Some(x) => Ok(x),
        None => Err(InstanceConstructionError::BackendRejected),
    }
}

/// Hands a vector of values to the backend as an assignment. It is taken
/// exactly if every value is a scalar of the backend's field.
pub fn to_backend_assignment(values: &Vec<FieldElement>) -> (r: Result<
    libspartan::Assignment,
    InstanceConstructionError,
>)
    ensures
        r is Ok <==> scalars_valid(values@),
        r matches Ok(x) ==> backend_assignment(values@) == Some(x),
        r matches Err(e) ==> e == InstanceConstructionError::InvalidScalar,
{
    if !all_scalars(values) {
        return Err(InstanceConstructionError::InvalidScalar);
    }
    match assignment_new(values) {
        Some(x) => Ok(x),
        None => Err(InstanceConstructionError::BackendRejected),
    }
}

} // verus!
