//! A circuit whose matrices and witness come already in the backend's
//! numbering, with its dimensions declared beside them.

use crate::assignment::{AssignmentView, RemappedAssignment};
use crate::backend::built_from;
use crate::circuit::{pair_defect, SpartanCircuit};
use crate::error::{InconsistentWitnessError, InstanceConstructionError};
use crate::field::{ristretto255_order, FieldElement};
use crate::instance::{InstanceView, RemappedInstance};
use crate::matrix::Entry;
use crate::satisfy::{combined_values, target_satisfied};
use vstd::prelude::*;

verus! {

/// The three matrices of a prepared circuit.
#[derive(Debug, PartialEq, Eq)]
pub struct Constraints {
    pub a: Vec<Entry>,
    pub b: Vec<Entry>,
    pub c: Vec<Entry>,
}

/// A prepared circuit. The witness is the full vector `vars ++ [1] ++ inputs`,
/// where the variables are the outputs and then the internal variables.
#[derive(Debug, PartialEq, Eq)]
pub struct Circuit {
    pub n_inputs: usize,
    pub n_outputs: usize,
    pub n_vars: usize,
    pub n_constraints: usize,
    pub wtns: Vec<FieldElement>,
    pub constraints: Constraints,
}

/// Why a prepared circuit is not taken.
#[derive(Clone, Copy, Debug, PartialEq, Eq)]
pub enum CircuitError {
    /// The declared dimensions do not fit the machine's integers.
    DimensionOverflow,
    /// The witness does not hold one value for each variable, the constant and each input.
    Witness(InconsistentWitnessError),
    /// The backend does not take the instance or an assignment.
    Backend(InstanceConstructionError),
    /// The backend does not find the instance satisfied by the witness.
    NotSatisfied,
}

impl Circuit {
    /// Length of the witness that the declared dimensions ask for.
    pub open spec fn witness_len(&self) -> int {
        self.n_vars + self.n_outputs + 1 + self.n_inputs
    }

    /// The instance of the circuit.
    pub open spec fn instance_view(&self) -> InstanceView {
        InstanceView {
            num_constraints: self.n_constraints as nat,
            num_vars: (self.n_vars + self.n_outputs) as nat,
            num_inputs: self.n_inputs as nat,
            a: self.constraints.a@,
            b: self.constraints.b@,
            c: self.constraints.c@,
        }
    }

    /// The assignment of the circuit: the witness without its constant.
    pub open spec fn assignment_view(&self) -> AssignmentView {
        AssignmentView {
            vars: self.wtns@.subrange(0, self.n_vars + self.n_outputs),
            inputs: self.wtns@.subrange(self.n_vars + self.n_outputs + 1, self.wtns@.len() as int),
        }
    }

    /// Why the circuit cannot be put before the backend, if it cannot.
    pub open spec fn defect(&self) -> Option<CircuitError> {
        if self.witness_len() > usize::MAX {
            Some(CircuitError::DimensionOverflow)
        } else if self.wtns@.len() != self.witness_len() {
            Some(
                CircuitError::Witness(
                    InconsistentWitnessError::WitnessLengthMismatch {
                        n_wires: self.witness_len() as usize,
                        n_elements: self.wtns@.len() as usize,
                    },
                ),
            )
        } else {
            match pair_defect(self.instance_view(), self.assignment_view(), self.n_outputs) {
                Some(e) => Some(CircuitError::Backend(e)),
                None => None,
            }
        }
    }
}

/// The elements at `[from, to)` of a vector.
fn copy_range(src: &Vec<FieldElement>, from: usize, to: usize) -> (out: Vec<FieldElement>)
    requires
        from <= to <= src.len(),
    ensures
        out@ == src@.subrange(from as int, to as int),
{
    let mut out: Vec<FieldElement> = Vec::new();
    let mut i: usize = from;
    while i < to
        invariant
            from <= i <= to,
            to <= src.len(),
            out@ == src@.subrange(from as int, i as int),
        decreases to - i,
    {
        out.push(src[i]);
        proof {
            assert(out@ =~= src@.subrange(from as int, i + 1));
        }
        i = i + 1;
    }
    out
}

/// The declared sum `n_vars + n_outputs + 1 + n_inputs`, if it fits.
fn declared_len(n_vars: usize, n_outputs: usize, n_inputs: usize) -> (r: Option<usize>)
    ensures
        r is Some <==> n_vars + n_outputs + 1 + n_inputs <= usize::MAX,
        r matches Some(n) ==> n == n_vars + n_outputs + 1 + n_inputs,
{
    match n_vars.checked_add(n_outputs) {
        None => None,
        Some(v) => match v.checked_add(1) {
            None => None,
            Some(w) => w.checked_add(n_inputs),
        },
    }
}

impl SpartanCircuit {
    /// Hands a prepared circuit to the backend: the instance over
    /// `n_vars + n_outputs` variables, the first that many witness values as
    /// variables and those after the constant as inputs.
    pub fn from_circuit(circuit: Circuit) -> (r: Result<SpartanCircuit, CircuitError>)
        ensures
            r is Ok <==> circuit.defect() is None,
            r matches Err(e) ==> circuit.defect() == Some(e),
            r matches Ok(ready) ==> ready.num_cons == circuit.n_constraints && ready.num_inputs
                == circuit.n_inputs && ready.num_outputs == circuit.n_outputs && ready.num_vars
                == circuit.n_vars && ready.num_non_zero_entries
                == circuit.instance_view().max_entries() && crate::backend::backend_instance(
                circuit.n_constraints,
                (circuit.n_vars + circuit.n_outputs) as usize,
                circuit.n_inputs,
                circuit.constraints.a@,
                circuit.constraints.b@,
                circuit.constraints.c@,
            ) == Some(ready.inst) && crate::backend::backend_assignment(
                circuit.assignment_view().vars,
            ) == Some(ready.assignment_vars) && crate::backend::backend_assignment(
                circuit.assignment_view().inputs,
            ) == Some(ready.assignment_inputs),
    {
        let expected: usize = match declared_len(circuit.n_vars, circuit.n_outputs, circuit.n_inputs) {
            None => { return Err(CircuitError::DimensionOverflow); },
            Some(n) => n,
        };
        if circuit.wtns.len() != expected {
            return Err(
                CircuitError::Witness(
                    InconsistentWitnessError::WitnessLengthMismatch {
                        n_wires: expected,
                        n_elements: circuit.wtns.len(),
                    },
                ),
            );
        }
        let num_vars: usize = circuit.n_vars + circuit.n_outputs;
        let asg = RemappedAssignment {
            vars: copy_range(&circuit.wtns, 0, num_vars),
            inputs: copy_range(&circuit.wtns, num_vars + 1, expected),
        };
        let ghost view = circuit.instance_view();
        let inst = RemappedInstance {
            num_constraints: circuit.n_constraints,
            num_vars,
            num_inputs: circuit.n_inputs,
            sparse_a: circuit.constraints.a,
            sparse_b: circuit.constraints.b,
            sparse_c: circuit.constraints.c,
        };
        assert(inst@ == view);
        match SpartanCircuit::from_remapped(&inst, &asg, circuit.n_outputs) {
            Err(e) => Err(CircuitError::Backend(e)),
            Ok(ready) => Ok(ready),
        }
    }
}

/// Puts a prepared circuit before the backend and has the backend check
/// that the witness satisfies it: the circuit comes back exactly if nothing
/// is wrong with it and its witness satisfies every row.
pub fn test_r1cs(circuit: Circuit) -> (r: Result<SpartanCircuit, CircuitError>)
    ensures
        r is Ok <==> circuit.defect() is None && target_satisfied(
            circuit.instance_view(),
            combined_values(circuit.assignment_view()),
            ristretto255_order() as int,
        ),
        r matches Ok(ready) ==> built_from(
            ready.inst,
            ready.assignment_vars,
            ready.assignment_inputs,
            circuit.instance_view(),
            circuit.assignment_view(),
        ) && ready.num_cons == circuit.n_constraints && ready.num_inputs == circuit.n_inputs
            && ready.num_outputs == circuit.n_outputs && ready.num_vars == circuit.n_vars
            && ready.num_non_zero_entries == circuit.instance_view().max_entries(),
        r matches Err(e) ==> match circuit.defect() {
            Some(d) => e == d,
            None => e == CircuitError::NotSatisfied,
        },
{
    let ghost view = circuit.instance_view();
    let ghost asg = circuit.assignment_view();
    let ready = match SpartanCircuit::from_circuit(circuit) {
        Err(e) => { return Err(e); },
        Ok(ready) => ready,
    };
    proof {
        crate::backend::lemma_instance_defect_dims(view);
        assert(built_from(ready.inst, ready.assignment_vars, ready.assignment_inputs, view, asg));
    }
    match ready.is_sat() {
        Some(true) => Ok(ready),
        _ => Err(CircuitError::NotSatisfied),
    }
}

} // verus!
