//! A circuit made ready for the backend: its dimensions, the backend's
//! instance and the backend's two assignments.

use crate::assignment::{AssignmentView, RemappedAssignment};
use crate::backend::{
    backend_assignment, backend_instance, backend_is_sat, built_from, dimensions_fit, entries_valid,
    instance_defect, instance_is_sat, lemma_entries_defect, scalars_valid, to_backend_assignment,
    to_backend_instance,
};
use crate::error::{CoreError, InstanceConstructionError};
use crate::field::{ristretto255_order, FieldConfig};
use crate::instance::{
    lemma_remapped_values, spec_build_instance, bridge, bridged_from, InstanceView,
    RemappedInstance, Bridged,
};
use crate::matrix::Side;
use crate::r1cs::{lemma_system_bad_wire, spec_parse_r1cs};
use crate::remap::RemapContext;
use crate::satisfy::{
    combined_values, lemma_build_instance_preserves, lemma_remapped_in_bounds, source_satisfied,
    target_satisfied, values_of,
};
use crate::wtns::spec_parse_wtns;
use vstd::prelude::*;

verus! {

/// A circuit in the backend's form. `num_vars` counts the internal
/// variables alone: the backend's variable space holds `num_vars + num_outputs`.
pub struct SpartanCircuit {
    pub num_cons: usize,
    pub num_inputs: usize,
    pub num_outputs: usize,
    pub num_vars: usize,
    pub num_non_zero_entries: usize,
    pub inst: libspartan::Instance,
    pub assignment_vars: libspartan::Assignment,
    pub assignment_inputs: libspartan::Assignment,
}

/// Whether a circuit is what the backend builds from a remapped pair with
/// `num_outputs` outputs among its variables.
pub open spec fn circuit_of(
    circuit: SpartanCircuit,
    inst: RemappedInstance,
    asg: AssignmentView,
    num_outputs: usize,
) -> bool {
    &&& circuit.num_cons == inst.num_constraints
    &&& circuit.num_inputs == inst.num_inputs
    &&& circuit.num_outputs == num_outputs
    &&& circuit.num_vars + num_outputs == inst.num_vars
    &&& circuit.num_non_zero_entries == inst@.max_entries()
    &&& backend_instance(
        inst.num_constraints,
        inst.num_vars,
        inst.num_inputs,
        inst.sparse_a@,
        inst.sparse_b@,
        inst.sparse_c@,
    ) == Some(circuit.inst)
    &&& backend_assignment(asg.vars) == Some(circuit.assignment_vars)
    &&& backend_assignment(asg.inputs) == Some(circuit.assignment_inputs)
}

/// Why the backend does not take a remapped pair, if it does not: more
/// outputs than variables, the instance's defect, then a variable, then an
/// input that is no scalar of its field.
pub open spec fn pair_defect(inst: InstanceView, asg: AssignmentView, num_outputs: usize) -> Option<
    InstanceConstructionError,
> {
    if num_outputs > inst.num_vars {
        Some(InstanceConstructionError::TooManyOutputs)
    } else {
        pair_defect_with(inst, asg)
    }
}

/// The same, the outputs apart.
pub open spec fn pair_defect_with(inst: InstanceView, asg: AssignmentView) -> Option<
    InstanceConstructionError,
> {
    match instance_defect(inst) {
        Some(e) => Some(e),
        None => if !scalars_valid(asg.vars) || !scalars_valid(asg.inputs) {
            Some(InstanceConstructionError::InvalidScalar)
        } else {
            None
        },
    }
}

impl SpartanCircuit {
    /// Hands a remapped pair to the backend. `num_outputs` says how many of
    /// the instance's variables are outputs.
    pub fn from_remapped(inst: &RemappedInstance, asg: &RemappedAssignment, num_outputs: usize) -> (r:
        Result<SpartanCircuit, InstanceConstructionError>)
        ensures
            r is Ok <==> pair_defect(inst@, asg@, num_outputs) is None,
            r matches Ok(circuit) ==> circuit_of(circuit, *inst, asg@, num_outputs),
            r matches Err(e) ==> pair_defect(inst@, asg@, num_outputs) == Some(e),
    {
        if num_outputs > inst.num_vars {
            return Err(InstanceConstructionError::TooManyOutputs);
        }
        let backend = match to_backend_instance(inst) {
            Err(e) => { return Err(e); },
            Ok(x) => x,
        };
        let assignment_vars = match to_backend_assignment(&asg.vars) {
            Err(e) => { return Err(e); },
            Ok(x) => x,
        };
        let assignment_inputs = match to_backend_assignment(&asg.inputs) {
            Err(e) => { return Err(e); },
            Ok(x) => x,
        };
        Ok(
            SpartanCircuit {
                num_cons: inst.num_constraints,
                num_inputs: inst.num_inputs,
                num_outputs,
                num_vars: inst.num_vars - num_outputs,
                num_non_zero_entries: inst.num_non_zero_entries(),
                inst: backend,
                assignment_vars,
                assignment_inputs,
            },
        )
    }

    /// Reads a constraint file and its witness file over the backend's field
    /// and hands the result to the backend. Whatever the readers and the
    /// conversion accept, the backend takes, unless the dimensions are
    /// beyond what it can pad.
    pub fn new(r1cs_bytes: &[u8], wtns_bytes: &[u8]) -> (r: Result<SpartanCircuit, CoreError>)
        ensures
            match spec_build_instance(r1cs_bytes@, wtns_bytes@, backend_field()) {
                Err(e) => r matches Err(e2) && e2 == e,
                Ok((inst, asg)) => if dimensions_fit(
                    inst.num_constraints,
                    inst.num_vars,
                    inst.num_inputs,
                ) {
                    &&& r matches Ok(circuit)
                    &&& circuit.num_cons == inst.num_constraints
                    &&& circuit.num_inputs == inst.num_inputs
                    &&& circuit.num_vars + circuit.num_outputs == inst.num_vars
                    &&& circuit.num_outputs == spec_parse_r1cs(
                        r1cs_bytes@,
                        backend_field(),
                    )->Ok_0.0.n_public_outputs
                    &&& circuit.num_non_zero_entries == inst.max_entries()
                    &&& built_from(
                        circuit.inst,
                        circuit.assignment_vars,
                        circuit.assignment_inputs,
                        inst,
                        asg,
                    )
                } else {
                    r matches Err(e2) && e2 == CoreError::InstanceConstruction(
                        InstanceConstructionError::DimensionTooLarge,
                    )
                },
            },
    {
        let field = FieldConfig::ristretto255();
        assert(field == backend_field()) by {
            assert(field.modulus =~= backend_field().modulus);
        }
        let t = match bridge(r1cs_bytes, wtns_bytes, &field) {
            Err(e) => { return Err(e); },
            Ok(t) => t,
        };
        let num_outputs: usize = t.context.n_public_outputs();
        proof {
            lemma_bridged_valid(t, r1cs_bytes@, wtns_bytes@, field);
        }
        match SpartanCircuit::from_remapped(&t.instance, &t.assignment, num_outputs) {
            Err(e) => Err(CoreError::InstanceConstruction(e)),
            Ok(circuit) => Ok(circuit),
        }
    }

    /// Asks the backend whether the assignments satisfy the instance. `None`
    /// where the backend refuses the question. Of a circuit built from a
    /// plain instance and assignment the answer is whether the assignment,
    /// put together as `vars ++ [1] ++ inputs`, satisfies every row.
    pub fn is_sat(&self) -> (r: Option<bool>)
        ensures
            r == backend_is_sat(self.inst, self.assignment_vars, self.assignment_inputs),
            forall|view: InstanceView, asg: AssignmentView| #[trigger]
                built_from(self.inst, self.assignment_vars, self.assignment_inputs, view, asg)
                    ==> r == Some(
                    target_satisfied(view, combined_values(asg), ristretto255_order() as int),
                ),
    {
        instance_is_sat(&self.inst, &self.assignment_vars, &self.assignment_inputs)
    }
}

/// Reads a constraint file and its witness file over the backend's field,
/// hands the result to the backend and asks whether it is satisfied.
/// The backend's answer is whether the witness in the file satisfies the
/// constraints in the file, in the compiler's own numbering.
pub fn files_satisfied(r1cs_bytes: &[u8], wtns_bytes: &[u8]) -> (r: Result<bool, CoreError>)
    ensures
        match spec_build_instance(r1cs_bytes@, wtns_bytes@, backend_field()) {
            Err(e) => r == Err::<bool, CoreError>(e),
            Ok((inst, asg)) => if dimensions_fit(
                inst.num_constraints,
                inst.num_vars,
                inst.num_inputs,
            ) {
                r == Ok::<bool, CoreError>(
                    source_satisfied(
                        spec_parse_r1cs(r1cs_bytes@, backend_field())->Ok_0.1,
                        values_of(spec_parse_wtns(wtns_bytes@, backend_field())->Ok_0.values),
                        ristretto255_order() as int,
                    ),
                )
            } else {
                r == Err::<bool, CoreError>(
                    CoreError::InstanceConstruction(InstanceConstructionError::DimensionTooLarge),
                )
            },
        },
{
    let circuit = match SpartanCircuit::new(r1cs_bytes, wtns_bytes) {
        Err(e) => { return Err(e); },
        Ok(circuit) => circuit,
    };
    proof {
        lemma_build_instance_preserves(
            r1cs_bytes@,
            wtns_bytes@,
            backend_field(),
            ristretto255_order() as int,
        );
    }
    match circuit.is_sat() {
        Some(answer) => Ok(answer),
        None => Err(CoreError::InstanceConstruction(InstanceConstructionError::BackendRejected)),
    }
}

/// The field in which the backend computes.
pub open spec fn backend_field() -> FieldConfig {
    FieldConfig { modulus: crate::field::RISTRETTO255_ORDER_BYTES }
}

/// A conversion over the backend's field has nothing that the backend
/// refuses but, possibly, its dimensions.
pub proof fn lemma_bridged_valid(
    t: Bridged,
    constraint_bytes: Seq<u8>,
    witness_bytes: Seq<u8>,
    cfg: FieldConfig,
)
    requires
        bridged_from(t, constraint_bytes, witness_bytes, cfg),
        t.context.wf(),
        cfg.modulus_value() == ristretto255_order(),
    ensures
        t.context.outputs() <= t.instance.num_vars,
        pair_defect_with(t.instance@, t.assignment@) is None || pair_defect_with(
            t.instance@,
            t.assignment@,
        ) == Some(InstanceConstructionError::DimensionTooLarge),
        dimensions_fit(
            t.instance@.num_constraints,
            t.instance@.num_vars,
            t.instance@.num_inputs,
        ) ==> pair_defect_with(t.instance@, t.assignment@) is None,
        t.context.outputs() == t.header.n_public_outputs,
        t.assignment@.vars.len() == t.instance@.num_vars,
        t.assignment@.inputs.len() == t.instance@.num_inputs,
{
    let (h, cs) = spec_parse_r1cs(constraint_bytes, cfg)->Ok_0;
    let w = spec_parse_wtns(witness_bytes, cfg)->Ok_0;
    let ctx = t.context;
    let inst = t.instance@;
    let asg = t.assignment@;
    RemapContext::lemma_from_counts(
        h.n_wires,
        h.n_public_outputs,
        h.n_public_inputs,
        h.n_private_inputs,
    );
    lemma_system_bad_wire(cs, h.n_wires);
    let cols = inst.num_vars + 1 + inst.num_inputs;
    lemma_remapped_in_bounds(ctx, cs, Side::A);
    lemma_remapped_in_bounds(ctx, cs, Side::B);
    lemma_remapped_in_bounds(ctx, cs, Side::C);
    lemma_remapped_values(ctx, cs, Side::A, cfg);
    lemma_remapped_values(ctx, cs, Side::B, cfg);
    lemma_remapped_values(ctx, cs, Side::C, cfg);
    lemma_entries_defect(inst.a, inst.num_constraints, cols);
    lemma_entries_defect(inst.b, inst.num_constraints, cols);
    lemma_entries_defect(inst.c, inst.num_constraints, cols);
    assert(entries_valid(inst.a, inst.num_constraints, cols));
    assert(entries_valid(inst.b, inst.num_constraints, cols));
    assert(entries_valid(inst.c, inst.num_constraints, cols));
    assert(scalars_valid(asg.vars)) by {
        assert forall|i: int| 0 <= i < asg.vars.len() implies (#[trigger] asg.vars[i]).value()
            < ristretto255_order() by {
            if i < ctx.outputs() {
                assert(asg.vars[i] == w.values[1 + i]);
            } else {
                assert(asg.vars[i] == w.values[1 + ctx.inputs() + i]);
            }
        }
    }
    assert(scalars_valid(asg.inputs)) by {
        assert forall|i: int| 0 <= i < asg.inputs.len() implies (#[trigger] asg.inputs[i]).value()
            < ristretto255_order() by {
            assert(asg.inputs[i] == w.values[1 + ctx.outputs() + i]);
        }
    }
}

} // verus!
