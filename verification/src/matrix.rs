//! Sparse matrix builder: the three constraint matrices as lists of
//! `(row, column, value)` entries in the backend's numbering.
//!
//! Rows follow the constraints in file order and entries follow the terms.
//! Entries with the same row and column are not merged: they stand for the
//! sum of their values.

use crate::error::RemapInvariantError;
use crate::r1cs::{
    lemma_system_bad_wire,
    lc_bad_wire, lc_in_range, lemma_lc_bad_wire, system_bad_wire, wires_in_range, Constraint,
    ConstraintView, Term, constraints_view,
};
use crate::remap::RemapContext;
use vstd::prelude::*;

verus! {

/// A matrix entry: row, column, and the value as 32 bytes, least significant first.
pub type Entry = (usize, usize, [u8; 32]);

/// Which of the three matrices.
#[derive(Clone, Copy, Debug, PartialEq, Eq)]
pub enum Side {
    A,
    B,
    C,
}

/// The three matrices of a constraint system.
#[derive(Debug, PartialEq, Eq)]
pub struct SparseMatrices {
    pub a: Vec<Entry>,
    pub b: Vec<Entry>,
    pub c: Vec<Entry>,
}

/// The linear combination on one side of a constraint.
pub open spec fn side_of(c: ConstraintView, side: Side) -> Seq<Term> {
    match side {
        Side::A => c.a,
        Side::B => c.b,
        Side::C => c.c,
    }
}

/// The entry that a term of row `row` becomes.
pub open spec fn entry_of(ctx: RemapContext, row: int, t: Term) -> Entry {
    (row as usize, ctx.spec_remap(t.wire_id as nat) as usize, t.coefficient.bytes)
}

/// The entries of one row: one for each term, in order.
pub open spec fn row_entries(ctx: RemapContext, row: int, lc: Seq<Term>) -> Seq<Entry> {
    Seq::new(lc.len(), |j: int| entry_of(ctx, row, lc[j]))
}

/// The entries of one matrix: row after row.
pub open spec fn matrix_entries(ctx: RemapContext, cs: Seq<ConstraintView>, side: Side) -> Seq<Entry>
    decreases cs.len(),
{
    if cs.len() == 0 {
        Seq::empty()
    } else {
        matrix_entries(ctx, cs.drop_last(), side) + row_entries(
            ctx,
            cs.len() - 1,
            side_of(cs.last(), side),
        )
    }
}

/// A wire out of range that stands first in a prefix stands first in the whole.
pub proof fn lemma_lc_bad_wire_prefix(lc: Seq<Term>, n_wires: u32, j: int)
    requires
        0 <= j <= lc.len(),
        lc_bad_wire(lc.take(j), n_wires) is Some,
    ensures
        lc_bad_wire(lc, n_wires) == lc_bad_wire(lc.take(j), n_wires),
    decreases lc.len() - j,
{
    if j < lc.len() {
        assert(lc.take(j + 1).drop_last() =~= lc.take(j));
        lemma_lc_bad_wire_prefix(lc, n_wires, j + 1);
    } else {
        assert(lc.take(j) =~= lc);
    }
}

/// A wire out of range that stands first in a prefix of the rows stands first in all.
pub proof fn lemma_system_bad_wire_prefix(cs: Seq<ConstraintView>, n_wires: u32, k: int)
    requires
        0 <= k <= cs.len(),
        system_bad_wire(cs.take(k), n_wires) is Some,
    ensures
        system_bad_wire(cs, n_wires) == system_bad_wire(cs.take(k), n_wires),
    decreases cs.len() - k,
{
    if k < cs.len() {
        assert(cs.take(k + 1).drop_last() =~= cs.take(k));
        lemma_system_bad_wire_prefix(cs, n_wires, k + 1);
    } else {
        assert(cs.take(k) =~= cs);
    }
}

/// Appends the entries of one row to a matrix. Stops at the first wire that
/// the context does not know.
fn push_row(out: &mut Vec<Entry>, ctx: &RemapContext, row: usize, lc: &Vec<Term>) -> (r: Result<
    (),
    RemapInvariantError,
>)
    ensures
        r is Ok <==> lc_in_range(lc@, ctx.n_wires()),
        r is Ok ==> final(out)@ == old(out)@ + row_entries(*ctx, row as int, lc@),
        r matches Err(e) ==> lc_bad_wire(lc@, ctx.n_wires() as u32) matches Some(w) && e == (
        RemapInvariantError::IndexOutOfRange { index: w as usize, bound: ctx.n_wires() as usize }),
{
    let ghost before = out@;
    let n_wires: usize = ctx.wire_count();
    let mut j: usize = 0;
    while j < lc.len()
        invariant
            j <= lc.len(),
            ctx.wf(),
            n_wires == ctx.n_wires(),
            lc_in_range(lc@.take(j as int), ctx.n_wires()),
            out@ == before + row_entries(*ctx, row as int, lc@.take(j as int)),
        decreases lc.len() - j,
    {
        let t: Term = lc[j];
        proof {
            lemma_lc_bad_wire(lc@.take(j as int), n_wires as u32);
            assert(lc@.take(j + 1).drop_last() =~= lc@.take(j as int));
        }
        match ctx.remap(t.wire_id as usize) {
            Err(e) => {
                proof {
                    lemma_lc_bad_wire_prefix(lc@, n_wires as u32, j + 1);
                    lemma_lc_bad_wire(lc@, n_wires as u32);
                }
                return Err(e);
            },
            Ok(col) => {
                out.push((row, col, t.coefficient.bytes));
                proof {
                    let shorter = lc@.take(j as int);
                    let longer = lc@.take(j + 1);
                    assert forall|i: int| 0 <= i < longer.len() implies (#[trigger] longer[i]).wire_id
                        < ctx.n_wires() by {
                        if i < j {
                            assert(shorter[i] == longer[i]);
                        }
                    }
                    assert(row_entries(*ctx, row as int, longer) =~= row_entries(
                        *ctx,
                        row as int,
                        shorter,
                    ).push(entry_of(*ctx, row as int, t)));
                    assert(out@ =~= before + row_entries(*ctx, row as int, longer));
                }
            },
        }
        j = j + 1;
    }
    proof {
        assert(lc@.take(lc.len() as int) =~= lc@);
    }
    Ok(())
}

/// Builds the three matrices: for each constraint, in order, and each term of
/// each of its combinations, the entry `(row, remapped wire, coefficient)`.
/// A wire that the context does not know ends the work: the first such wire
/// in file order is reported.
pub fn build_matrices(constraints: &Vec<Constraint>, ctx: &RemapContext) -> (r: Result<
    SparseMatrices,
    RemapInvariantError,
>)
    ensures
        r is Ok <==> wires_in_range(constraints_view(constraints@), ctx.n_wires()),
        r matches Ok(m) ==> m.a@ == matrix_entries(*ctx, constraints_view(constraints@), Side::A)
            && m.b@ == matrix_entries(*ctx, constraints_view(constraints@), Side::B) && m.c@
            == matrix_entries(*ctx, constraints_view(constraints@), Side::C),
        r matches Err(e) ==> system_bad_wire(
            constraints_view(constraints@),
            ctx.n_wires() as u32,
        ) matches Some(w) && e == (RemapInvariantError::IndexOutOfRange {
            index: w as usize,
            bound: ctx.n_wires() as usize,
        }),
{
    let ghost rows = constraints_view(constraints@);
    let n_wires: usize = ctx.wire_count();
    let mut a: Vec<Entry> = Vec::new();
    let mut b: Vec<Entry> = Vec::new();
    let mut c: Vec<Entry> = Vec::new();
    let mut k: usize = 0;
    while k < constraints.len()
        invariant
            k <= constraints.len(),
            ctx.wf(),
            n_wires == ctx.n_wires(),
            rows == constraints_view(constraints@),
            wires_in_range(rows.take(k as int), ctx.n_wires()),
            a@ == matrix_entries(*ctx, rows.take(k as int), Side::A),
            b@ == matrix_entries(*ctx, rows.take(k as int), Side::B),
            c@ == matrix_entries(*ctx, rows.take(k as int), Side::C),
        decreases constraints.len() - k,
    {
        let row = &constraints[k];
        proof {
            assert(rows.take(k + 1).drop_last() =~= rows.take(k as int));
            assert(rows.take(k + 1).last() == row@);
            lemma_system_bad_wire(rows.take(k as int), n_wires as u32);
            lemma_lc_bad_wire(row@.a, n_wires as u32);
            lemma_lc_bad_wire(row@.b, n_wires as u32);
            lemma_lc_bad_wire(row@.c, n_wires as u32);
        }
        let ra = push_row(&mut a, ctx, k, &row.a);
        let rb = if ra.is_ok() {
            push_row(&mut b, ctx, k, &row.b)
        } else {
            ra
        };
        let rc = if rb.is_ok() {
            push_row(&mut c, ctx, k, &row.c)
        } else {
            rb
        };
        match rc {
            Err(e) => {
                proof {
                    lemma_system_bad_wire_prefix(rows, n_wires as u32, k + 1);
                    lemma_system_bad_wire(rows, n_wires as u32);
                }
                return Err(e);
            },
            Ok(_) => {
                proof {
                    let longer = rows.take(k + 1);
                    assert forall|i: int| 0 <= i < longer.len() implies lc_in_range(
                        (#[trigger] longer[i]).a,
                        ctx.n_wires(),
                    ) && lc_in_range(longer[i].b, ctx.n_wires()) && lc_in_range(
                        longer[i].c,
                        ctx.n_wires(),
                    ) by {
                        if i < k {
                            assert(rows.take(k as int)[i] == longer[i]);
                        }
                    }
                }
            },
        }
        k = k + 1;
    }
    proof {
        assert(rows.take(constraints.len() as int) =~= rows);
    }
    Ok(SparseMatrices { a, b, c })
}

} // verus!
