//! Index remapper: the relabelling of wires from the compiler's numbering
//! `(1, outputs, inputs, internal)` to the backend's `(outputs, internal, 1, inputs)`.

use crate::error::RemapInvariantError;
use crate::r1cs::Header;
use vstd::prelude::*;

verus! {

/// The counts that fix the relabelling. Derived once from a header and never
/// changed; the wires it describes always fit a 32-bit wire id.
#[derive(Clone, Copy, Debug, PartialEq, Eq)]
pub struct RemapContext {
    n_public_outputs: usize,
    n_public_inputs_total: usize,
    n_internal_vars: usize,
}

/// Where a wire lands when the backend's two index spaces are kept apart.
#[derive(Clone, Copy, Debug, PartialEq, Eq)]
pub enum Slot {
    /// A position among the variables: outputs first, then internal variables.
    Var(usize),
    /// The constant one, which the backend keeps between variables and inputs.
    Constant,
    /// A position among the inputs.
    Input(usize),
}

impl RemapContext {
    /// Number of public outputs.
    pub closed spec fn outputs(&self) -> nat {
        self.n_public_outputs as nat
    }

    /// Number of inputs, public and private together.
    pub closed spec fn inputs(&self) -> nat {
        self.n_public_inputs_total as nat
    }

    /// Number of internal variables.
    pub closed spec fn internals(&self) -> nat {
        self.n_internal_vars as nat
    }

    /// Size of the source numbering: the constant, outputs, inputs and internal variables.
    pub open spec fn n_wires(&self) -> nat {
        1 + self.outputs() + self.inputs() + self.internals()
    }

    /// Size of the backend's variable space.
    pub open spec fn num_vars(&self) -> nat {
        self.internals() + self.outputs()
    }

    /// Size of the backend's input space.
    pub open spec fn num_inputs(&self) -> nat {
        self.inputs()
    }

    /// The wires fit a 32-bit wire id.
    #[verifier::type_invariant]
    pub open spec fn wf(&self) -> bool {
        self.n_wires() <= u32::MAX
    }

    /// Position of source wire `i` in the combined vector `vars ++ [1] ++ inputs`.
    pub open spec fn spec_remap(&self, i: nat) -> nat {
        if i == 0 {
            self.num_vars()
        } else if i <= self.outputs() {
            (i - 1) as nat
        } else if i <= self.outputs() + self.inputs() {
            i + self.internals()
        } else {
            (i - self.inputs() - 1) as nat
        }
    }

    /// Source wire whose position in the combined vector is `t`.
    pub open spec fn spec_unmap(&self, t: nat) -> nat {
        if t < self.outputs() {
            t + 1
        } else if t < self.num_vars() {
            t + self.inputs() + 1
        } else if t == self.num_vars() {
            0
        } else {
            (t - self.internals()) as nat
        }
    }

    /// Whether some source wire lands at position `t` of the combined vector.
    pub open spec fn reached(&self, t: nat) -> bool {
        exists|i: nat| i < self.n_wires() && #[trigger] self.spec_remap(i) == t
    }

    /// Where source wire `i` lands when variables and inputs are numbered apart.
    pub open spec fn spec_slot(&self, i: nat) -> Slot {
        if i == 0 {
            Slot::Constant
        } else if i <= self.outputs() {
            Slot::Var((i - 1) as usize)
        } else if i <= self.outputs() + self.inputs() {
            Slot::Input((i - self.outputs() - 1) as usize)
        } else {
            Slot::Var((i - self.inputs() - 1) as usize)
        }
    }

    /// Position in the combined vector of a slot of the two separate spaces.
    pub open spec fn combined(&self, slot: Slot) -> nat {
        match slot {
            Slot::Var(p) => p as nat,
            Slot::Constant => self.num_vars(),
            Slot::Input(p) => self.num_vars() + 1 + p as nat,
        }
    }

    /// The context for the given counts, if they fit a 32-bit wire id.
    pub fn new(n_public_outputs: u32, n_public_inputs_total: u32, n_internal_vars: u32) -> (r:
        Option<RemapContext>)
        ensures
            r is Some <==> 1 + n_public_outputs + n_public_inputs_total + n_internal_vars
                <= u32::MAX,
            r matches Some(ctx) ==> ctx.wf() && ctx.outputs() == n_public_outputs && ctx.inputs()
                == n_public_inputs_total && ctx.internals() == n_internal_vars,
    {
        let total: u64 = 1 + n_public_outputs as u64 + n_public_inputs_total as u64
            + n_internal_vars as u64;
        if total <= u32::MAX as u64 {
            Some(
                RemapContext {
                    n_public_outputs: n_public_outputs as usize,
                    n_public_inputs_total: n_public_inputs_total as usize,
                    n_internal_vars: n_internal_vars as usize,
                },
            )
        } else {
            None
        }
    }

    /// Whether the declared wires cover the constant, the outputs and the inputs.
    pub open spec fn counts_consistent(
        n_wires: u32,
        n_public_outputs: u32,
        n_public_inputs: u32,
        n_private_inputs: u32,
    ) -> bool {
        1 + n_public_outputs + n_public_inputs + n_private_inputs <= n_wires
    }

    /// The context that a header's counts determine: the internal variables
    /// are what is left of the wires after the constant, the outputs and the
    /// inputs.
    pub closed spec fn spec_from_counts(
        n_wires: u32,
        n_public_outputs: u32,
        n_public_inputs: u32,
        n_private_inputs: u32,
    ) -> RemapContext {
        RemapContext {
            n_public_outputs: n_public_outputs as usize,
            n_public_inputs_total: (n_public_inputs + n_private_inputs) as usize,
            n_internal_vars: (n_wires - 1 - n_public_outputs - n_public_inputs
                - n_private_inputs) as usize,
        }
    }

    /// What `from_counts` returns.
    pub open spec fn spec_derive(
        n_wires: u32,
        n_public_outputs: u32,
        n_public_inputs: u32,
        n_private_inputs: u32,
    ) -> Result<RemapContext, RemapInvariantError> {
        if Self::counts_consistent(n_wires, n_public_outputs, n_public_inputs, n_private_inputs) {
            Ok(
                Self::spec_from_counts(
                    n_wires,
                    n_public_outputs,
                    n_public_inputs,
                    n_private_inputs,
                ),
            )
        } else {
            Err(
                RemapInvariantError::NegativeInternalVars {
                    n_wires,
                    required: (1 + n_public_outputs + n_public_inputs + n_private_inputs) as u64,
                },
            )
        }
    }

    /// The counts of the context that consistent header counts determine.
    pub proof fn lemma_from_counts(
        n_wires: u32,
        n_public_outputs: u32,
        n_public_inputs: u32,
        n_private_inputs: u32,
    )
        requires
            Self::counts_consistent(n_wires, n_public_outputs, n_public_inputs, n_private_inputs),
        ensures
            ({
                let ctx = Self::spec_from_counts(
                    n_wires,
                    n_public_outputs,
                    n_public_inputs,
                    n_private_inputs,
                );
                &&& ctx.wf()
                &&& ctx.n_wires() == n_wires
                &&& ctx.outputs() == n_public_outputs
                &&& ctx.inputs() == n_public_inputs + n_private_inputs
                &&& ctx.internals() == n_wires - 1 - n_public_outputs - n_public_inputs
                    - n_private_inputs
            }),
    {
    }

    /// Derives the context from a header's counts. Where the declared wires
    /// do not cover the constant, the outputs and the inputs, there is none.
    pub fn from_counts(
        n_wires: u32,
        n_public_outputs: u32,
        n_public_inputs: u32,
        n_private_inputs: u32,
    ) -> (r: Result<RemapContext, RemapInvariantError>)
        ensures
            r == Self::spec_derive(n_wires, n_public_outputs, n_public_inputs, n_private_inputs),
            r is Ok <==> Self::counts_consistent(
                n_wires,
                n_public_outputs,
                n_public_inputs,
                n_private_inputs,
            ),
            r matches Ok(ctx) ==> ctx.wf() && ctx.n_wires() == n_wires && ctx.outputs()
                == n_public_outputs && ctx.inputs() == n_public_inputs + n_private_inputs,
    {
        let required: u64 = 1 + n_public_outputs as u64 + n_public_inputs as u64
            + n_private_inputs as u64;
        if required <= n_wires as u64 {
            Ok(
                RemapContext {
                    n_public_outputs: n_public_outputs as usize,
                    n_public_inputs_total: (n_public_inputs as u64 + n_private_inputs as u64) as usize,
                    n_internal_vars: (n_wires as u64 - required) as usize,
                },
            )
        } else {
            Err(RemapInvariantError::NegativeInternalVars { n_wires, required })
        }
    }

    /// The context that a header determines, if its counts are consistent.
    pub open spec fn spec_from_header(h: Header) -> Result<RemapContext, RemapInvariantError> {
        Self::spec_derive(h.n_wires, h.n_public_outputs, h.n_public_inputs, h.n_private_inputs)
    }

    /// Derives the context from a header.
    pub fn from_header(h: &Header) -> (r: Result<RemapContext, RemapInvariantError>)
        ensures
            r == Self::spec_from_header(*h),
            r is Ok <==> Self::counts_consistent(
                h.n_wires,
                h.n_public_outputs,
                h.n_public_inputs,
                h.n_private_inputs,
            ),
            r matches Ok(ctx) ==> ctx.wf() && ctx.n_wires() == h.n_wires && ctx.outputs()
                == h.n_public_outputs && ctx.inputs() == h.n_public_inputs + h.n_private_inputs,
    {
        Self::from_counts(h.n_wires, h.n_public_outputs, h.n_public_inputs, h.n_private_inputs)
    }

    /// Number of public outputs.
    pub fn n_public_outputs(&self) -> (n: usize)
        ensures
            n == self.outputs(),
    {
        self.n_public_outputs
    }

    /// Number of inputs, public and private together.
    pub fn n_public_inputs_total(&self) -> (n: usize)
        ensures
            n == self.inputs(),
    {
        self.n_public_inputs_total
    }

    /// Number of internal variables.
    pub fn n_internal_vars(&self) -> (n: usize)
        ensures
            n == self.internals(),
    {
        self.n_internal_vars
    }

    /// Number of wires in the source numbering.
    pub fn wire_count(&self) -> (n: usize)
        ensures
            n == self.n_wires(),
            self.wf(),
    {
        proof {
            use_type_invariant(self);
        }
        1 + self.n_public_outputs + self.n_public_inputs_total + self.n_internal_vars
    }

    /// Size of the backend's variable space.
    pub fn var_count(&self) -> (n: usize)
        ensures
            n == self.num_vars(),
    {
        proof {
            use_type_invariant(self);
        }
        self.n_internal_vars + self.n_public_outputs
    }

    /// Size of the backend's input space.
    pub fn input_count(&self) -> (n: usize)
        ensures
            n == self.num_inputs(),
    {
        self.n_public_inputs_total
    }

    /// Position of source wire `i` in the combined vector `vars ++ [1] ++ inputs`.
    /// An index outside the source numbering has no position.
    pub fn remap(&self, i: usize) -> (r: Result<usize, RemapInvariantError>)
        ensures
            i < self.n_wires() ==> r == Ok::<usize, RemapInvariantError>(
                self.spec_remap(i as nat) as usize,
            ),
            i < self.n_wires() ==> self.spec_remap(i as nat) < self.n_wires(),
            i >= self.n_wires() ==> r == Err::<usize, RemapInvariantError>(
                RemapInvariantError::IndexOutOfRange { index: i, bound: self.n_wires() as usize },
            ),
    {
        let n_wires = self.wire_count();
        if i >= n_wires {
            Err(RemapInvariantError::IndexOutOfRange { index: i, bound: n_wires })
        } else if i == 0 {
            Ok(self.n_internal_vars + self.n_public_outputs)
        } else if i <= self.n_public_outputs {
            Ok(i - 1)
        } else if i <= self.n_public_outputs + self.n_public_inputs_total {
            Ok(i + self.n_internal_vars)
        } else {
            Ok(i - self.n_public_inputs_total - 1)
        }
    }

    /// Where source wire `i` lands when variables and inputs are numbered apart.
    pub fn slot(&self, i: usize) -> (r: Result<Slot, RemapInvariantError>)
        ensures
            i < self.n_wires() ==> r == Ok::<Slot, RemapInvariantError>(self.spec_slot(i as nat)),
            i < self.n_wires() ==> self.combined(self.spec_slot(i as nat)) == self.spec_remap(
                i as nat,
            ),
            i >= self.n_wires() ==> r == Err::<Slot, RemapInvariantError>(
                RemapInvariantError::IndexOutOfRange { index: i, bound: self.n_wires() as usize },
            ),
    {
        let n_wires = self.wire_count();
        if i >= n_wires {
            Err(RemapInvariantError::IndexOutOfRange { index: i, bound: n_wires })
        } else if i == 0 {
            Ok(Slot::Constant)
        } else if i <= self.n_public_outputs {
            Ok(Slot::Var(i - 1))
        } else if i <= self.n_public_outputs + self.n_public_inputs_total {
            Ok(Slot::Input(i - self.n_public_outputs - 1))
        } else {
            Ok(Slot::Var(i - self.n_public_inputs_total - 1))
        }
    }
}

/// The relabelling is a bijection from the source numbering `[0, n_wires)` onto
/// the combined numbering `[0, num_vars) + {num_vars} + (num_vars, num_vars + num_inputs]`:
/// it stays in range, `spec_unmap` undoes it on either side, no two wires share a
/// position and every position is taken.
pub proof fn lemma_remap_bijective(ctx: RemapContext)
    ensures
        ctx.n_wires() == ctx.num_vars() + 1 + ctx.num_inputs(),
        ctx.spec_remap(0) == ctx.num_vars(),
        forall|i: nat| i < ctx.n_wires() ==> #[trigger] ctx.spec_remap(i) < ctx.n_wires(),
        forall|i: nat| i < ctx.n_wires() ==> ctx.spec_unmap(#[trigger] ctx.spec_remap(i)) == i,
        forall|t: nat|
            t < ctx.n_wires() ==> #[trigger] ctx.spec_unmap(t) < ctx.n_wires() && ctx.spec_remap(
                ctx.spec_unmap(t),
            ) == t,
        forall|i: nat, j: nat|
            i < ctx.n_wires() && j < ctx.n_wires() && i != j ==> #[trigger] ctx.spec_remap(i)
                != #[trigger] ctx.spec_remap(j),
        forall|t: nat| t < ctx.n_wires() ==> #[trigger] ctx.reached(t),
{
    assert forall|i: nat, j: nat|
        i < ctx.n_wires() && j < ctx.n_wires() && i != j implies #[trigger] ctx.spec_remap(i)
        != #[trigger] ctx.spec_remap(j) by {
        assert(ctx.spec_unmap(ctx.spec_remap(i)) == i);
        assert(ctx.spec_unmap(ctx.spec_remap(j)) == j);
    }
    assert forall|t: nat| t < ctx.n_wires() implies #[trigger] ctx.reached(t) by {
        let i = ctx.spec_unmap(t);
        assert(i < ctx.n_wires() && ctx.spec_remap(i) == t);
    }
}

/// The separate numbering and the combined one name the same place: outputs
/// and internal variables keep their position, an input at position `p` of the
/// input space stands at `num_vars + 1 + p`.
pub proof fn lemma_slot_combined(ctx: RemapContext, i: nat)
    requires
        ctx.wf(),
        i < ctx.n_wires(),
    ensures
        ctx.combined(ctx.spec_slot(i)) == ctx.spec_remap(i),
        ctx.spec_slot(i) matches Slot::Var(p) ==> p < ctx.num_vars(),
        ctx.spec_slot(i) matches Slot::Input(p) ==> p < ctx.num_inputs(),
        ctx.spec_slot(i) is Constant <==> i == 0,
{
}

} // verus!
