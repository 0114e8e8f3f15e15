//! The conversion as a whole: two files in, the remapped instance and
//! assignment out.

use crate::assignment::{partition, spec_partition, AssignmentView, RemappedAssignment};
use crate::error::{CoreError, RemapInvariantError};
use crate::field::FieldConfig;
use crate::matrix::{build_matrices, entry_of, matrix_entries, side_of, Entry, Side};
use crate::r1cs::{
    lc_canonical, parse_r1cs, spec_parse_r1cs, system_canonical, wires_in_range, ConstraintSystem,
    ConstraintView, Header,
};
use crate::remap::RemapContext;
use crate::wtns::{parse_wtns, spec_parse_wtns};
use vstd::prelude::*;

verus! {

/// A constraint system in the backend's numbering: `num_constraints` rows
/// over the columns `vars ++ [1] ++ inputs`.
#[derive(Debug, PartialEq, Eq)]
pub struct RemappedInstance {
    pub num_constraints: usize,
    pub num_vars: usize,
    pub num_inputs: usize,
    pub sparse_a: Vec<Entry>,
    pub sparse_b: Vec<Entry>,
    pub sparse_c: Vec<Entry>,
}

/// A remapped instance as a mathematical value.
pub struct InstanceView {
    pub num_constraints: nat,
    pub num_vars: nat,
    pub num_inputs: nat,
    pub a: Seq<Entry>,
    pub b: Seq<Entry>,
    pub c: Seq<Entry>,
}

impl View for RemappedInstance {
    type V = InstanceView;

    open spec fn view(&self) -> InstanceView {
        InstanceView {
            num_constraints: self.num_constraints as nat,
            num_vars: self.num_vars as nat,
            num_inputs: self.num_inputs as nat,
            a: self.sparse_a@,
            b: self.sparse_b@,
            c: self.sparse_c@,
        }
    }
}

impl InstanceView {
    /// Every entry lies in a declared row and in a column of `vars ++ [1] ++ inputs`.
    pub open spec fn in_bounds(&self) -> bool {
        &&& entries_in_bounds(self.a, self.num_constraints, self.num_vars + 1 + self.num_inputs)
        &&& entries_in_bounds(self.b, self.num_constraints, self.num_vars + 1 + self.num_inputs)
        &&& entries_in_bounds(self.c, self.num_constraints, self.num_vars + 1 + self.num_inputs)
    }
}

/// Every entry lies below `rows` and `cols`.
pub open spec fn entries_in_bounds(m: Seq<Entry>, rows: nat, cols: nat) -> bool {
    forall|i: int| 0 <= i < m.len() ==> (#[trigger] m[i]).0 < rows && m[i].1 < cols
}

/// The instance that a constraint system becomes under a context.
pub open spec fn spec_remap_system(ctx: RemapContext, cs: Seq<ConstraintView>) -> InstanceView {
    InstanceView {
        num_constraints: cs.len(),
        num_vars: ctx.num_vars(),
        num_inputs: ctx.num_inputs(),
        a: matrix_entries(ctx, cs, Side::A),
        b: matrix_entries(ctx, cs, Side::B),
        c: matrix_entries(ctx, cs, Side::C),
    }
}

/// What `build_instance` returns: the first failure among reading the
/// constraint file, deriving the context, reading the witness file and
/// splitting the witness; else the remapped pair.
pub open spec fn spec_build_instance(
    constraint_bytes: Seq<u8>,
    witness_bytes: Seq<u8>,
    cfg: FieldConfig,
) -> Result<(InstanceView, AssignmentView), CoreError> {
    match spec_parse_r1cs(constraint_bytes, cfg) {
        Err(e) => Err(e),
        Ok((h, cs)) => match RemapContext::spec_from_header(h) {
            Err(e) => Err(CoreError::RemapInvariant(e)),
            Ok(ctx) => match spec_parse_wtns(witness_bytes, cfg) {
                Err(e) => Err(e),
                Ok(w) => match spec_partition(ctx, w.values) {
                    Err(e) => Err(CoreError::InconsistentWitness(e)),
                    Ok(asg) => Ok((spec_remap_system(ctx, cs), asg)),
                },
            },
        },
    }
}

/// The constant slot decides alone between a witness of the right length and
/// the conversion: `ConstantWireNotOne` is returned exactly if both files
/// are read, the header gives a context, the witness holds one element for
/// each wire, and wire 0 does not hold one.
pub proof fn lemma_constant_slot(constraint_bytes: Seq<u8>, witness_bytes: Seq<u8>, cfg: FieldConfig)
    ensures
        spec_build_instance(constraint_bytes, witness_bytes, cfg) == Err::<
            (InstanceView, AssignmentView),
            CoreError,
        >(
            CoreError::InconsistentWitness(
                crate::error::InconsistentWitnessError::ConstantWireNotOne,
            ),
        ) <==> {
            &&& spec_parse_r1cs(constraint_bytes, cfg) matches Ok((h, cs))
            &&& RemapContext::spec_from_header(h) matches Ok(ctx)
            &&& spec_parse_wtns(witness_bytes, cfg) matches Ok(w)
            &&& w.values.len() == ctx.n_wires()
            &&& w.values[0].value() != 1
        },
{
    crate::r1cs::lemma_parse_r1cs_errors(constraint_bytes, cfg);
}

impl InstanceView {
    /// The largest number of entries that one of the three matrices holds.
    pub open spec fn max_entries(&self) -> nat {
        if self.a.len() >= self.b.len() && self.a.len() >= self.c.len() {
            self.a.len()
        } else if self.b.len() >= self.c.len() {
            self.b.len()
        } else {
            self.c.len()
        }
    }
}

impl RemappedInstance {
    /// The largest number of entries that one of the three matrices holds.
    pub fn num_non_zero_entries(&self) -> (n: usize)
        ensures
            n == self@.max_entries(),
    {
        let mut n: usize = self.sparse_a.len();
        if self.sparse_b.len() > n {
            n = self.sparse_b.len();
        }
        if self.sparse_c.len() > n {
            n = self.sparse_c.len();
        }
        n
    }
}

/// Everything that the conversion of a pair of files yields.
#[derive(Debug, PartialEq, Eq)]
pub struct Bridged {
    pub header: Header,
    pub context: RemapContext,
    pub instance: RemappedInstance,
    pub assignment: RemappedAssignment,
}

/// Whether a conversion is what the two files give over the field.
pub open spec fn bridged_from(
    t: Bridged,
    constraint_bytes: Seq<u8>,
    witness_bytes: Seq<u8>,
    cfg: FieldConfig,
) -> bool {
    &&& spec_parse_r1cs(constraint_bytes, cfg) matches Ok((h, cs))
    &&& h == t.header
    &&& RemapContext::spec_from_header(h) == Ok::<RemapContext, RemapInvariantError>(t.context)
    &&& spec_parse_wtns(witness_bytes, cfg) matches Ok(w)
    &&& t.instance@ == spec_remap_system(t.context, cs)
    &&& spec_partition(t.context, w.values) == Ok::<
        AssignmentView,
        crate::error::InconsistentWitnessError,
    >(t.assignment@)
}

/// The values of a remapped matrix are the coefficients of the system:
/// elements of the field if those are.
pub proof fn lemma_remapped_values(
    ctx: RemapContext,
    cs: Seq<ConstraintView>,
    side: Side,
    cfg: FieldConfig,
)
    requires
        system_canonical(cs, cfg),
    ensures
        forall|i: int|
            0 <= i < matrix_entries(ctx, cs, side).len() ==> cfg.canonical(
                (#[trigger] matrix_entries(ctx, cs, side)[i]).2@,
            ),
    decreases cs.len(),
{
    if cs.len() > 0 {
        let front = cs.drop_last();
        let last = cs.last();
        assert(last == cs[cs.len() - 1]);
        assert forall|k: int| 0 <= k < front.len() implies lc_canonical(
            (#[trigger] front[k]).a,
            cfg,
        ) && lc_canonical(front[k].b, cfg) && lc_canonical(front[k].c, cfg) by {
            assert(front[k] == cs[k]);
        }
        lemma_remapped_values(ctx, front, side, cfg);
        let lc = side_of(last, side);
        let m = matrix_entries(ctx, cs, side);
        let head = matrix_entries(ctx, front, side);
        assert forall|i: int| 0 <= i < m.len() implies cfg.canonical((#[trigger] m[i]).2@) by {
            if i < head.len() {
                assert(m[i] == head[i]);
            } else {
                let j = i - head.len();
                assert(m[i] == entry_of(ctx, cs.len() - 1, lc[j]));
                assert(cfg.canonical(lc[j].coefficient.bytes@));
            }
        }
    }
}

/// Relabels a constraint system: the counts and the three matrices in the
/// backend's numbering. A wire that the context does not know ends the work.
pub fn remap_system(sys: &ConstraintSystem, ctx: &RemapContext) -> (r: Result<
    RemappedInstance,
    RemapInvariantError,
>)
    ensures
        r is Ok <==> wires_in_range(sys.rows(), ctx.n_wires()),
        r matches Ok(inst) ==> inst@ == spec_remap_system(*ctx, sys.rows()),
        r matches Err(e) ==> crate::r1cs::system_bad_wire(
            sys.rows(),
            ctx.n_wires() as u32,
        ) matches Some(w) && e == (RemapInvariantError::IndexOutOfRange {
            index: w as usize,
            bound: ctx.n_wires() as usize,
        }),
{
    match build_matrices(&sys.constraints, ctx) {
        Err(e) => Err(e),
        Ok(m) => Ok(
            RemappedInstance {
                num_constraints: sys.constraints.len(),
                num_vars: ctx.var_count(),
                num_inputs: ctx.input_count(),
                sparse_a: m.a,
                sparse_b: m.b,
                sparse_c: m.c,
            },
        ),
    }
}

/// Converts a constraint file and its witness file, and keeps the header
/// and the context beside the remapped pair.
pub fn bridge(constraint_bytes: &[u8], witness_bytes: &[u8], field_config: &FieldConfig) -> (r:
    Result<Bridged, CoreError>)
    ensures
        match r {
            Ok(t) => spec_build_instance(constraint_bytes@, witness_bytes@, *field_config) == Ok::<
                (InstanceView, AssignmentView),
                CoreError,
            >((t.instance@, t.assignment@)) && bridged_from(
                t,
                constraint_bytes@,
                witness_bytes@,
                *field_config,
            ) && t.context.wf(),
            Err(e) => spec_build_instance(constraint_bytes@, witness_bytes@, *field_config) == Err::<
                (InstanceView, AssignmentView),
                CoreError,
            >(e),
        },
{
    let sys = match parse_r1cs(constraint_bytes, field_config) {
        Err(e) => { return Err(e); },
        Ok(sys) => sys,
    };
    let context = match RemapContext::from_header(&sys.header) {
        Err(e) => { return Err(CoreError::RemapInvariant(e)); },
        Ok(ctx) => ctx,
    };
    let w = match parse_wtns(witness_bytes, field_config) {
        Err(e) => { return Err(e); },
        Ok(w) => w,
    };
    let assignment = match partition(&w.values, &context) {
        Err(e) => { return Err(CoreError::InconsistentWitness(e)); },
        Ok(asg) => asg,
    };
    match remap_system(&sys, &context) {
        // Every wire was checked against the header when the file was read.
        Err(e) => Err(CoreError::RemapInvariant(e)),
        Ok(instance) => Ok(Bridged { header: sys.header, context, instance, assignment }),
    }
}

/// Converts a constraint file and its witness file into the backend's
/// instance and assignment, over the given field.
pub fn build_instance(constraint_bytes: &[u8], witness_bytes: &[u8], field_config: &FieldConfig) -> (r:
    Result<(RemappedInstance, RemappedAssignment), CoreError>)
    ensures
        match r {
            Ok((inst, asg)) => spec_build_instance(
                constraint_bytes@,
                witness_bytes@,
                *field_config,
            ) == Ok::<(InstanceView, AssignmentView), CoreError>((inst@, asg@)),
            Err(e) => spec_build_instance(constraint_bytes@, witness_bytes@, *field_config) == Err::<
                (InstanceView, AssignmentView),
                CoreError,
            >(e),
        },
{
    match bridge(constraint_bytes, witness_bytes, field_config) {
        Err(e) => Err(e),
        Ok(t) => Ok((t.instance, t.assignment)),
    }
}

} // verus!
