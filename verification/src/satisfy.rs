//! What it means for a witness to satisfy a constraint system, in the
//! compiler's numbering and in the backend's, and the proof that the
//! conversion keeps it.
//!
//! Sums are taken over the integers and compared modulo the field's modulus,
//! so the statements hold for every field.

use crate::assignment::{spec_inputs, spec_vars, AssignmentView};

use crate::field::{le_value, FieldConfig, FieldElement};
use crate::instance::{entries_in_bounds, spec_build_instance, spec_remap_system, InstanceView};
use crate::matrix::{entry_of, matrix_entries, row_entries, side_of, Entry, Side};
use crate::r1cs::{lc_in_range, spec_parse_r1cs, wires_in_range, ConstraintView, Term};
use crate::remap::{lemma_remap_bijective, RemapContext};
use crate::wtns::spec_parse_wtns;
use vstd::prelude::*;

verus! {

/// The numbers that a vector of field elements stands for.
pub open spec fn values_of(w: Seq<FieldElement>) -> Seq<nat> {
    Seq::new(w.len(), |i: int| w[i].value())
}

/// The backend's full vector for an assignment: `vars ++ [1] ++ inputs`.
pub open spec fn combined_values(asg: AssignmentView) -> Seq<nat> {
    values_of(asg.vars) + seq![1nat] + values_of(asg.inputs)
}

/// The sum of coefficient times wire value over a linear combination.
pub open spec fn lc_dot(lc: Seq<Term>, z: Seq<nat>) -> int
    decreases lc.len(),
{
    if lc.len() == 0 {
        0
    } else {
        lc_dot(lc.drop_last(), z) + lc.last().coefficient.value() * z[lc.last().wire_id as int]
    }
}

/// The sum of value times column value over the entries of one row of a
/// matrix. Entries that share a row and a column add up.
pub open spec fn row_dot(m: Seq<Entry>, row: int, z: Seq<nat>) -> int
    decreases m.len(),
{
    if m.len() == 0 {
        0
    } else {
        row_dot(m.drop_last(), row, z) + if m.last().0 == row {
            le_value(m.last().2@) * z[m.last().1 as int]
        } else {
            0
        }
    }
}

/// Whether `z` satisfies one constraint modulo `p`.
pub open spec fn constraint_holds(c: ConstraintView, z: Seq<nat>, p: int) -> bool {
    (lc_dot(c.a, z) * lc_dot(c.b, z)) % p == lc_dot(c.c, z) % p
}

/// Whether `z`, in the compiler's numbering, satisfies every constraint modulo `p`.
pub open spec fn source_satisfied(cs: Seq<ConstraintView>, z: Seq<nat>, p: int) -> bool {
    forall|k: int| 0 <= k < cs.len() ==> constraint_holds(#[trigger] cs[k], z, p)
}

/// Whether `z` satisfies row `row` of an instance modulo `p`.
pub open spec fn row_holds(inst: InstanceView, row: int, z: Seq<nat>, p: int) -> bool {
    (row_dot(inst.a, row, z) * row_dot(inst.b, row, z)) % p == row_dot(inst.c, row, z) % p
}

/// Whether `z`, in the backend's numbering, satisfies every row modulo `p`.
pub open spec fn target_satisfied(inst: InstanceView, z: Seq<nat>, p: int) -> bool {
    forall|row: int| 0 <= row < inst.num_constraints ==> #[trigger] row_holds(inst, row, z, p)
}

/// One more entry adds its product to the sum over its own row and nothing
/// to the sum over another.
pub proof fn lemma_row_dot_push(m: Seq<Entry>, e: Entry, row: int, z: Seq<nat>)
    ensures
        row_dot(m.push(e), row, z) == row_dot(m, row, z) + if e.0 == row {
            le_value(e.2@) * z[e.1 as int]
        } else {
            0
        },
{
    assert(m.push(e).drop_last() =~= m);
    assert(m.push(e).last() == e);
}

/// The sum over a row of two lists of entries is the sum of the two sums.
pub proof fn lemma_row_dot_concat(x: Seq<Entry>, y: Seq<Entry>, row: int, z: Seq<nat>)
    ensures
        row_dot(x + y, row, z) == row_dot(x, row, z) + row_dot(y, row, z),
    decreases y.len(),
{
    if y.len() == 0 {
        assert(x + y =~= x);
    } else {
        assert((x + y).drop_last() =~= x + y.drop_last());
        assert((x + y).last() == y.last());
        lemma_row_dot_concat(x, y.drop_last(), row, z);
    }
}

/// The entries of row `r` sum, over that row, to what the linear combination
/// sums to, and over any other row to nothing.
pub proof fn lemma_row_entries_dot(
    ctx: RemapContext,
    r: int,
    lc: Seq<Term>,
    row: int,
    z: Seq<nat>,
    z2: Seq<nat>,
)
    requires
        ctx.wf(),
        0 <= r <= usize::MAX,
        0 <= row,
        lc_in_range(lc, ctx.n_wires()),
        forall|i: nat| i < ctx.n_wires() ==> z2[#[trigger] ctx.spec_remap(i) as int] == z[i as int],
    ensures
        row_dot(row_entries(ctx, r, lc), row, z2) == if r == row {
            lc_dot(lc, z)
        } else {
            0
        },
    decreases lc.len(),
{
    let m = row_entries(ctx, r, lc);
    if lc.len() > 0 {
        let front = lc.drop_last();
        assert(m.drop_last() =~= row_entries(ctx, r, front));
        assert forall|j: int| 0 <= j < front.len() implies (#[trigger] front[j]).wire_id
            < ctx.n_wires() by {
            assert(front[j] == lc[j]);
        }
        lemma_row_entries_dot(ctx, r, front, row, z, z2);
        let t = lc.last();
        assert(t == lc[lc.len() - 1]);
        assert(m.last() == entry_of(ctx, r, t));
        lemma_remap_bijective(ctx);
        let i = t.wire_id as nat;
        assert(ctx.spec_remap(i) < ctx.n_wires());
        assert(z2[ctx.spec_remap(i) as int] == z[i as int]);
    }
}

/// A matrix sums, over a row, to what that constraint's linear combination
/// sums to, and over a row beyond the constraints to nothing.
pub proof fn lemma_matrix_dot(
    ctx: RemapContext,
    cs: Seq<ConstraintView>,
    side: Side,
    row: int,
    z: Seq<nat>,
    z2: Seq<nat>,
)
    requires
        ctx.wf(),
        cs.len() <= usize::MAX,
        0 <= row,
        wires_in_range(cs, ctx.n_wires()),
        forall|i: nat| i < ctx.n_wires() ==> z2[#[trigger] ctx.spec_remap(i) as int] == z[i as int],
    ensures
        row_dot(matrix_entries(ctx, cs, side), row, z2) == if row < cs.len() {
            lc_dot(side_of(cs[row], side), z)
        } else {
            0
        },
    decreases cs.len(),
{
    if cs.len() > 0 {
        let front = cs.drop_last();
        let last = cs.last();
        assert(last == cs[cs.len() - 1]);
        assert forall|k: int| 0 <= k < front.len() implies lc_in_range(
            (#[trigger] front[k]).a,
            ctx.n_wires(),
        ) && lc_in_range(front[k].b, ctx.n_wires()) && lc_in_range(front[k].c, ctx.n_wires()) by {
            assert(front[k] == cs[k]);
        }
        lemma_matrix_dot(ctx, front, side, row, z, z2);
        lemma_row_entries_dot(ctx, cs.len() - 1, side_of(last, side), row, z, z2);
        lemma_row_dot_concat(
            matrix_entries(ctx, front, side),
            row_entries(ctx, cs.len() - 1, side_of(last, side)),
            row,
            z2,
        );
        if row < front.len() {
            assert(front[row] == cs[row]);
        }
    }
}

/// The split witness, put together as `vars ++ [1] ++ inputs`, holds at the
/// remapped position of every wire the value that the witness holds at the wire.
pub proof fn lemma_partition_relabels(ctx: RemapContext, witness: Seq<FieldElement>)
    requires
        ctx.wf(),
        witness.len() == ctx.n_wires(),
        witness[0].value() == 1,
    ensures
        ({
            let z2 = combined_values(
                AssignmentView { vars: spec_vars(ctx, witness), inputs: spec_inputs(ctx, witness) },
            );
            &&& z2.len() == ctx.n_wires()
            &&& forall|i: nat|
                i < ctx.n_wires() ==> z2[#[trigger] ctx.spec_remap(i) as int] == values_of(
                    witness,
                )[i as int]
        }),
{
}

/// Every entry of a remapped system lies within the declared rows and the
/// columns `vars ++ [1] ++ inputs`.
pub proof fn lemma_remapped_in_bounds(ctx: RemapContext, cs: Seq<ConstraintView>, side: Side)
    requires
        ctx.wf(),
        cs.len() <= usize::MAX,
        wires_in_range(cs, ctx.n_wires()),
    ensures
        entries_in_bounds(
            matrix_entries(ctx, cs, side),
            cs.len(),
            ctx.num_vars() + 1 + ctx.num_inputs(),
        ),
    decreases cs.len(),
{
    if cs.len() > 0 {
        let front = cs.drop_last();
        let last = cs.last();
        assert(last == cs[cs.len() - 1]);
        assert forall|k: int| 0 <= k < front.len() implies lc_in_range(
            (#[trigger] front[k]).a,
            ctx.n_wires(),
        ) && lc_in_range(front[k].b, ctx.n_wires()) && lc_in_range(front[k].c, ctx.n_wires()) by {
            assert(front[k] == cs[k]);
        }
        lemma_remapped_in_bounds(ctx, front, side);
        lemma_remap_bijective(ctx);
        let lc = side_of(last, side);
        let m = matrix_entries(ctx, cs, side);
        let head = matrix_entries(ctx, front, side);
        assert forall|i: int| 0 <= i < m.len() implies (#[trigger] m[i]).0 < cs.len() && m[i].1
            < ctx.num_vars() + 1 + ctx.num_inputs() by {
            if i < head.len() {
                assert(m[i] == head[i]);
            } else {
                let j = i - head.len();
                assert(m[i] == entry_of(ctx, cs.len() - 1, lc[j]));
                assert(lc[j].wire_id < ctx.n_wires());
                assert(ctx.spec_remap(lc[j].wire_id as nat) < ctx.n_wires());
            }
        }
    }
}

/// Satisfiability is preserved: a witness satisfies a constraint system in
/// the compiler's numbering exactly if its split, put together as
/// `vars ++ [1] ++ inputs`, satisfies the remapped system, whatever the modulus.
pub proof fn lemma_satisfiability_preserved(
    ctx: RemapContext,
    cs: Seq<ConstraintView>,
    witness: Seq<FieldElement>,
    p: int,
)
    requires
        ctx.wf(),
        cs.len() <= usize::MAX,
        wires_in_range(cs, ctx.n_wires()),
        witness.len() == ctx.n_wires(),
        witness[0].value() == 1,
    ensures
        source_satisfied(cs, values_of(witness), p) <==> target_satisfied(
            spec_remap_system(ctx, cs),
            combined_values(
                AssignmentView { vars: spec_vars(ctx, witness), inputs: spec_inputs(ctx, witness) },
            ),
            p,
        ),
{
    let z = values_of(witness);
    let asg = AssignmentView { vars: spec_vars(ctx, witness), inputs: spec_inputs(ctx, witness) };
    let z2 = combined_values(asg);
    let inst = spec_remap_system(ctx, cs);
    lemma_partition_relabels(ctx, witness);
    assert forall|k: int| 0 <= k < cs.len() implies (constraint_holds(cs[k], z, p) <==> row_holds(
        inst,
        k,
        z2,
        p,
    )) by {
        lemma_matrix_dot(ctx, cs, Side::A, k, z, z2);
        lemma_matrix_dot(ctx, cs, Side::B, k, z, z2);
        lemma_matrix_dot(ctx, cs, Side::C, k, z, z2);
    }
    if source_satisfied(cs, z, p) {
        assert forall|row: int| 0 <= row < inst.num_constraints implies #[trigger] row_holds(
            inst,
            row,
            z2,
            p,
        ) by {
            assert(constraint_holds(cs[row], z, p));
        }
    }
    if target_satisfied(inst, z2, p) {
        assert forall|k: int| 0 <= k < cs.len() implies constraint_holds(#[trigger] cs[k], z, p) by {
            assert(row_holds(inst, k, z2, p));
        }
    }
}

/// The same of the conversion as a whole: where `build_instance` succeeds,
/// the witness in the file satisfies the constraints in the file exactly if
/// the returned assignment satisfies the returned instance, and every entry
/// of the returned instance lies within its declared dimensions.
pub proof fn lemma_build_instance_preserves(
    constraint_bytes: Seq<u8>,
    witness_bytes: Seq<u8>,
    cfg: FieldConfig,
    p: int,
)
    requires
        spec_build_instance(constraint_bytes, witness_bytes, cfg) is Ok,
    ensures
        ({
            let (inst, asg) = spec_build_instance(constraint_bytes, witness_bytes, cfg)->Ok_0;
            let cs = spec_parse_r1cs(constraint_bytes, cfg)->Ok_0.1;
            let w = spec_parse_wtns(witness_bytes, cfg)->Ok_0.values;
            &&& source_satisfied(cs, values_of(w), p) <==> target_satisfied(
                inst,
                combined_values(asg),
                p,
            )
            &&& inst.in_bounds()
            &&& asg.vars.len() == inst.num_vars
            &&& asg.inputs.len() == inst.num_inputs
        }),
{
    let (h, cs) = spec_parse_r1cs(constraint_bytes, cfg)->Ok_0;
    let ctx = RemapContext::spec_from_header(h)->Ok_0;
    let w = spec_parse_wtns(witness_bytes, cfg)->Ok_0.values;
    RemapContext::lemma_from_counts(
        h.n_wires,
        h.n_public_outputs,
        h.n_public_inputs,
        h.n_private_inputs,
    );
    crate::r1cs::lemma_system_bad_wire(cs, h.n_wires);
    lemma_satisfiability_preserved(ctx, cs, w, p);
    lemma_remapped_in_bounds(ctx, cs, Side::A);
    lemma_remapped_in_bounds(ctx, cs, Side::B);
    lemma_remapped_in_bounds(ctx, cs, Side::C);
}

} // verus!
