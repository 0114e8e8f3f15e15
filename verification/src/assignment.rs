//! Assignment partitioner: the witness split into the backend's two vectors.

use crate::error::InconsistentWitnessError;
use crate::field::FieldElement;
use crate::remap::RemapContext;
use vstd::prelude::*;

verus! {

/// The witness in the backend's numbering: the variables (outputs first, then
/// internal variables) and the inputs. The constant one is not stored.
#[derive(Debug, PartialEq, Eq)]
pub struct RemappedAssignment {
    pub vars: Vec<FieldElement>,
    pub inputs: Vec<FieldElement>,
}

/// An assignment as a mathematical value.
pub struct AssignmentView {
    pub vars: Seq<FieldElement>,
    pub inputs: Seq<FieldElement>,
}

impl View for RemappedAssignment {
    type V = AssignmentView;

    open spec fn view(&self) -> AssignmentView {
        AssignmentView { vars: self.vars@, inputs: self.inputs@ }
    }
}

/// The variables of a witness: the values at the output positions, then
/// those at the positions of the internal variables.
pub open spec fn spec_vars(ctx: RemapContext, witness: Seq<FieldElement>) -> Seq<FieldElement> {
    witness.subrange(1, 1 + ctx.outputs() as int) + witness.subrange(
        1 + ctx.outputs() as int + ctx.inputs() as int,
        ctx.n_wires() as int,
    )
}

/// The inputs of a witness: the values at the input positions.
pub open spec fn spec_inputs(ctx: RemapContext, witness: Seq<FieldElement>) -> Seq<FieldElement> {
    witness.subrange(
        1 + ctx.outputs() as int,
        1 + ctx.outputs() as int + ctx.inputs() as int,
    )
}

/// What `partition` returns.
pub open spec fn spec_partition(ctx: RemapContext, witness: Seq<FieldElement>) -> Result<
    AssignmentView,
    InconsistentWitnessError,
> {
    if witness.len() != ctx.n_wires() {
        Err(
            InconsistentWitnessError::WitnessLengthMismatch {
                n_wires: ctx.n_wires() as usize,
                n_elements: witness.len() as usize,
            },
        )
    } else if witness[0].value() != 1 {
        Err(InconsistentWitnessError::ConstantWireNotOne)
    } else {
        Ok(AssignmentView { vars: spec_vars(ctx, witness), inputs: spec_inputs(ctx, witness) })
    }
}

/// Appends the elements at `[from, to)` of `src` to `out`.
fn extend_from(out: &mut Vec<FieldElement>, src: &Vec<FieldElement>, from: usize, to: usize)
    requires
        from <= to <= src.len(),
    ensures
        final(out)@ == old(out)@ + src@.subrange(from as int, to as int),
{
    let ghost before = out@;
    let mut i: usize = from;
    while i < to
        invariant
            from <= i <= to,
            to <= src.len(),
            out@ == before + src@.subrange(from as int, i as int),
        decreases to - i,
    {
        out.push(src[i]);
        proof {
            assert(src@.subrange(from as int, i + 1) =~= src@.subrange(from as int, i as int).push(
                src@[i as int],
            ));
            assert(out@ =~= before + src@.subrange(from as int, i + 1));
        }
        i = i + 1;
    }
}

/// Splits a witness into the backend's variables and inputs. The witness
/// must hold one element for each wire, and the field's one at wire 0; that
/// element is checked and then left out.
pub fn partition(witness: &Vec<FieldElement>, ctx: &RemapContext) -> (r: Result<
    RemappedAssignment,
    InconsistentWitnessError,
>)
    ensures
        match r {
            Ok(asg) => spec_partition(*ctx, witness@) == Ok::<
                AssignmentView,
                InconsistentWitnessError,
            >(asg@),
            Err(e) => spec_partition(*ctx, witness@) == Err::<
                AssignmentView,
                InconsistentWitnessError,
            >(e),
        },
        r matches Ok(asg) ==> asg.vars@.len() == ctx.num_vars() && asg.inputs@.len()
            == ctx.num_inputs(),
        r == Err::<RemappedAssignment, InconsistentWitnessError>(
            InconsistentWitnessError::ConstantWireNotOne,
        ) <==> witness@.len() == ctx.n_wires() && witness@[0].value() != 1,
{
    let n_wires: usize = ctx.wire_count();
    if witness.len() != n_wires {
        return Err(
            InconsistentWitnessError::WitnessLengthMismatch { n_wires, n_elements: witness.len() },
        );
    }
    if !witness[0].is_one() {
        return Err(InconsistentWitnessError::ConstantWireNotOne);
    }
    let outputs: usize = ctx.n_public_outputs();
    let inputs_total: usize = ctx.n_public_inputs_total();
    let mut vars: Vec<FieldElement> = Vec::new();
    let mut inputs: Vec<FieldElement> = Vec::new();
    extend_from(&mut vars, witness, 1, 1 + outputs);
    extend_from(&mut vars, witness, 1 + outputs + inputs_total, n_wires);
    extend_from(&mut inputs, witness, 1 + outputs, 1 + outputs + inputs_total);
    proof {
        assert(vars@ =~= spec_vars(*ctx, witness@));
        assert(inputs@ =~= spec_inputs(*ctx, witness@));
    }
    Ok(RemappedAssignment { vars, inputs })
}

} // verus!
