use sparta::error::RemapInvariantError;
use sparta::remap::{RemapContext, Slot};

#[test]
fn remap_follows_the_four_ranges() {
    // wires: 0 = one, 1..=2 outputs, 3..=5 inputs, 6..=9 internal
    let ctx = RemapContext::new(2, 3, 4).unwrap();
    assert_eq!(ctx.wire_count(), 10);
    assert_eq!(ctx.var_count(), 6);
    assert_eq!(ctx.input_count(), 3);
    assert_eq!(ctx.remap(0), Ok(6));
    assert_eq!(ctx.remap(1), Ok(0));
    assert_eq!(ctx.remap(2), Ok(1));
    assert_eq!(ctx.remap(3), Ok(7));
    assert_eq!(ctx.remap(5), Ok(9));
    assert_eq!(ctx.remap(6), Ok(2));
    assert_eq!(ctx.remap(9), Ok(5));
}

#[test]
fn remap_is_a_bijection_on_small_contexts() {
    for outs in 0u32..4 {
        for ins in 0u32..4 {
            for vars in 0u32..4 {
                let ctx = RemapContext::new(outs, ins, vars).unwrap();
                let n = ctx.wire_count();
                assert_eq!(n as u32, 1 + outs + ins + vars);
                let mut seen = vec![false; n];
                for i in 0..n {
                    let t = ctx.remap(i).unwrap();
                    assert!(t < n);
                    assert!(!seen[t]);
                    seen[t] = true;
                }
                assert!(seen.iter().all(|s| *s));
            }
        }
    }
}

#[test]
fn remap_refuses_an_index_beyond_the_wires() {
    let ctx = RemapContext::new(1, 1, 1).unwrap();
    assert_eq!(
        ctx.remap(4),
        Err(RemapInvariantError::IndexOutOfRange { index: 4, bound: 4 })
    );
    assert_eq!(
        ctx.slot(9),
        Err(RemapInvariantError::IndexOutOfRange { index: 9, bound: 4 })
    );
}

#[test]
fn slot_keeps_the_two_spaces_apart() {
    let ctx = RemapContext::new(2, 3, 4).unwrap();
    assert_eq!(ctx.slot(0), Ok(Slot::Constant));
    assert_eq!(ctx.slot(2), Ok(Slot::Var(1)));
    assert_eq!(ctx.slot(3), Ok(Slot::Input(0)));
    assert_eq!(ctx.slot(5), Ok(Slot::Input(2)));
    assert_eq!(ctx.slot(6), Ok(Slot::Var(2)));
}

#[test]
fn context_needs_room_for_constant_outputs_and_inputs() {
    assert!(RemapContext::from_counts(4, 1, 1, 1).is_ok());
    assert_eq!(
        RemapContext::from_counts(3, 1, 1, 1),
        Err(RemapInvariantError::NegativeInternalVars { n_wires: 3, required: 4 })
    );
    assert_eq!(
        RemapContext::from_counts(0, 0, 0, 0),
        Err(RemapInvariantError::NegativeInternalVars { n_wires: 0, required: 1 })
    );
    let ctx = RemapContext::from_counts(10, 2, 2, 1).unwrap();
    assert_eq!(ctx.n_public_outputs(), 2);
    assert_eq!(ctx.n_public_inputs_total(), 3);
    assert_eq!(ctx.n_internal_vars(), 4);
    assert!(RemapContext::new(u32::MAX, 0, 0).is_none());
    assert!(RemapContext::new(u32::MAX - 1, 0, 0).is_some());
}

#[test]
fn no_outputs_leaves_the_variables_at_the_front() {
    // wires: 0 = one, 1..=2 inputs, 3..=5 internal
    let ctx = RemapContext::new(0, 2, 3).unwrap();
    assert_eq!(ctx.var_count(), 3);
    assert_eq!(ctx.remap(0), Ok(3));
    assert_eq!(ctx.remap(1), Ok(4));
    assert_eq!(ctx.remap(2), Ok(5));
    assert_eq!(ctx.remap(3), Ok(0));
    assert_eq!(ctx.remap(5), Ok(2));
}
