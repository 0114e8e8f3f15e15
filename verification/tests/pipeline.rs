use libspartan::{NIZKGens, SNARKGens, NIZK, SNARK};
use merlin::Transcript;
use sparta::circuit::{files_satisfied, SpartanCircuit};
use sparta::error::{
    CoreError, EncodingError, InconsistentWitnessError, InstanceConstructionError, ParseError,
    RemapInvariantError,
};
use sparta::field::{FieldConfig, FieldElement, BN254_ORDER_BYTES, RISTRETTO255_ORDER_BYTES};
use sparta::instance::build_instance;
use sparta::prepared::{test_r1cs, Circuit, CircuitError, Constraints};
use sparta::tiny::produce_tiny_r1cs;

fn le(n: u64) -> [u8; 32] {
    let mut out = [0u8; 32];
    out[..8].copy_from_slice(&n.to_le_bytes());
    out
}

fn lc(terms: &[(u64, u32)]) -> Vec<(r1cs_file::FieldElement<32>, u32)> {
    terms
        .iter()
        .map(|(value, wire)| (r1cs_file::FieldElement::from(le(*value)), *wire))
        .collect()
}

fn r1cs_bytes(
    prime: [u8; 32],
    counts: (u32, u32, u32, u32),
    constraints: Vec<r1cs_file::Constraint<32>>,
) -> Vec<u8> {
    let (n_wires, n_pub_out, n_pub_in, n_prvt_in) = counts;
    let file = r1cs_file::R1csFile::<32> {
        header: r1cs_file::Header {
            prime: r1cs_file::FieldElement::from(prime),
            n_wires,
            n_pub_out,
            n_pub_in,
            n_prvt_in,
            n_labels: n_wires as u64,
            n_constraints: constraints.len() as u32,
        },
        constraints: r1cs_file::Constraints(constraints),
        map: r1cs_file::WireMap((0..n_wires as u64).collect()),
    };
    let mut out = Vec::new();
    file.write(&mut out).unwrap();
    out
}

fn wtns_bytes(prime: [u8; 32], values: &[u64]) -> Vec<u8> {
    let witness = values
        .iter()
        .map(|v| wtns_file::FieldElement::from(le(*v)))
        .collect();
    let file = wtns_file::WtnsFile::<32>::from_vec(witness, wtns_file::FieldElement::from(prime));
    let mut out = Vec::new();
    file.write(&mut out).unwrap();
    out
}

// wires: 0 = one, 1 = out, 2 = in1, 3 = in2, 4..=6 = v1, v2, v3
//   in1 * in2 = v1;  v1 * in1 = v2;  v2 * 1 = v3;  (v3 + in2) * 1 = out
fn multiply_constraints() -> Vec<r1cs_file::Constraint<32>> {
    vec![
        r1cs_file::Constraint(lc(&[(1, 2)]), lc(&[(1, 3)]), lc(&[(1, 4)])),
        r1cs_file::Constraint(lc(&[(1, 4)]), lc(&[(1, 2)]), lc(&[(1, 5)])),
        r1cs_file::Constraint(lc(&[(1, 5)]), lc(&[(1, 0)]), lc(&[(1, 6)])),
        r1cs_file::Constraint(lc(&[(1, 6), (1, 3)]), lc(&[(1, 0)]), lc(&[(1, 1)])),
    ]
}

fn multiply_r1cs() -> Vec<u8> {
    r1cs_bytes(RISTRETTO255_ORDER_BYTES, (7, 1, 2, 0), multiply_constraints())
}

fn multiply_wtns() -> Vec<u8> {
    // one, out = 40, in1 = 3, in2 = 4, v1 = 12, v2 = 36, v3 = 36
    wtns_bytes(RISTRETTO255_ORDER_BYTES, &[1, 40, 3, 4, 12, 36, 36])
}

#[test]
fn test_prove_verify() {
    let params = SpartanCircuit::new(&multiply_r1cs(), &multiply_wtns()).unwrap();

    let gens = NIZKGens::new(params.num_cons, params.num_vars, params.num_inputs);

    let mut prover_transcript = Transcript::new(b"snark_example");

    let proof = NIZK::prove(
        &params.inst,
        params.assignment_vars,
        &params.assignment_inputs,
        &gens,
        &mut prover_transcript,
    );

    let mut verifier_transcript = Transcript::new(b"snark_example");
    assert!(proof
        .verify(&params.inst, &params.assignment_inputs, &mut verifier_transcript, &gens)
        .is_ok());
}

#[test]
fn circuit_from_files_has_the_dimensions_of_the_header() {
    let params = SpartanCircuit::new(&multiply_r1cs(), &multiply_wtns()).unwrap();
    assert_eq!(params.num_cons, 4);
    assert_eq!(params.num_inputs, 2);
    assert_eq!(params.num_outputs, 1);
    assert_eq!(params.num_vars, 3);
    assert_eq!(params.num_non_zero_entries, 5);
    assert_eq!(params.is_sat(), Some(true));
}

#[test]
fn a_witness_that_breaks_a_constraint_is_not_satisfying() {
    let wtns = wtns_bytes(RISTRETTO255_ORDER_BYTES, &[1, 41, 3, 4, 12, 36, 36]);
    let params = SpartanCircuit::new(&multiply_r1cs(), &wtns).unwrap();
    assert_eq!(params.is_sat(), Some(false));
}

#[test]
fn build_instance_remaps_every_term_and_splits_the_witness() {
    let field = FieldConfig::ristretto255();
    let (inst, asg) = build_instance(&multiply_r1cs(), &multiply_wtns(), &field).unwrap();
    assert_eq!(inst.num_constraints, 4);
    assert_eq!(inst.num_vars, 4);
    assert_eq!(inst.num_inputs, 2);
    // columns: out, v1, v2, v3 | one | in1, in2
    assert_eq!(
        inst.sparse_a,
        vec![(0, 5, le(1)), (1, 1, le(1)), (2, 2, le(1)), (3, 3, le(1)), (3, 6, le(1))]
    );
    assert_eq!(
        inst.sparse_b,
        vec![(0, 6, le(1)), (1, 5, le(1)), (2, 4, le(1)), (3, 4, le(1))]
    );
    assert_eq!(
        inst.sparse_c,
        vec![(0, 1, le(1)), (1, 2, le(1)), (2, 3, le(1)), (3, 0, le(1))]
    );
    let values = |v: &Vec<FieldElement>| v.iter().map(|x| x.bytes).collect::<Vec<_>>();
    assert_eq!(values(&asg.vars), vec![le(40), le(12), le(36), le(36)]);
    assert_eq!(values(&asg.inputs), vec![le(3), le(4)]);
    assert_eq!(inst.num_non_zero_entries(), 5);
}

// The toy system (Z0 + Z1) * I0 = Z2, (Z0 + I1) * Z2 = Z3, Z4 * 1 = 0 in the
// compiler's numbering: 0 = one, 1..=2 = Z0, Z1 (outputs), 3..=4 = I0, I1,
// 5..=7 = Z2, Z3, Z4.
fn toy_r1cs() -> Vec<u8> {
    r1cs_bytes(
        RISTRETTO255_ORDER_BYTES,
        (8, 2, 2, 0),
        vec![
            r1cs_file::Constraint(lc(&[(1, 1), (1, 2)]), lc(&[(1, 3)]), lc(&[(1, 5)])),
            r1cs_file::Constraint(lc(&[(1, 1), (1, 4)]), lc(&[(1, 5)]), lc(&[(1, 6)])),
            r1cs_file::Constraint(lc(&[(1, 7)]), lc(&[(1, 0)]), lc(&[])),
        ],
    )
}

#[test]
fn toy_system_remaps_to_a_satisfiable_instance() {
    // Z0 = 2, Z1 = 3, I0 = 5, I1 = 7: Z2 = 25, Z3 = (2 + 7) * 25 = 225, Z4 = 0
    let wtns = wtns_bytes(RISTRETTO255_ORDER_BYTES, &[1, 2, 3, 5, 7, 25, 225, 0]);
    let field = FieldConfig::ristretto255();
    let (inst, asg) = build_instance(&toy_r1cs(), &wtns, &field).unwrap();
    assert_eq!((inst.num_constraints, inst.num_vars, inst.num_inputs), (3, 5, 2));
    assert_eq!(
        inst.sparse_a,
        vec![(0, 0, le(1)), (0, 1, le(1)), (1, 0, le(1)), (1, 7, le(1)), (2, 4, le(1))]
    );
    assert_eq!(inst.sparse_b, vec![(0, 6, le(1)), (1, 2, le(1)), (2, 5, le(1))]);
    assert_eq!(inst.sparse_c, vec![(0, 2, le(1)), (1, 3, le(1))]);
    let circuit = SpartanCircuit::from_remapped(&inst, &asg, 2).unwrap();
    assert_eq!(circuit.is_sat(), Some(true));
    let same = SpartanCircuit::new(&toy_r1cs(), &wtns).unwrap();
    assert_eq!(same.is_sat(), Some(true));
    assert_eq!((same.num_cons, same.num_vars, same.num_outputs, same.num_inputs), (3, 3, 2, 2));
}

#[test]
fn corrupt_version_is_reported_as_unsupported() {
    let mut r1cs = multiply_r1cs();
    r1cs[4] = 2;
    let field = FieldConfig::ristretto255();
    assert_eq!(
        build_instance(&r1cs, &multiply_wtns(), &field),
        Err(CoreError::Parse(ParseError::UnsupportedVersion { found: 2 }))
    );
    assert!(r1cs_file::R1csFile::<32>::read(r1cs.as_slice()).is_err());
    assert!(matches!(
        SpartanCircuit::new(&r1cs, &multiply_wtns()),
        Err(CoreError::Parse(ParseError::UnsupportedVersion { found: 2 }))
    ));
}

#[test]
fn witness_of_the_wrong_length_is_inconsistent() {
    let field = FieldConfig::ristretto255();
    let short = wtns_bytes(RISTRETTO255_ORDER_BYTES, &[1, 40, 3, 4, 12, 36]);
    assert_eq!(
        build_instance(&multiply_r1cs(), &short, &field),
        Err(CoreError::InconsistentWitness(InconsistentWitnessError::WitnessLengthMismatch {
            n_wires: 7,
            n_elements: 6
        }))
    );
    let long = wtns_bytes(RISTRETTO255_ORDER_BYTES, &[1, 40, 3, 4, 12, 36, 36, 0]);
    assert_eq!(
        build_instance(&multiply_r1cs(), &long, &field),
        Err(CoreError::InconsistentWitness(InconsistentWitnessError::WitnessLengthMismatch {
            n_wires: 7,
            n_elements: 8
        }))
    );
}

#[test]
fn constant_wire_must_hold_one() {
    let field = FieldConfig::ristretto255();
    let wtns = wtns_bytes(RISTRETTO255_ORDER_BYTES, &[2, 40, 3, 4, 12, 36, 36]);
    assert_eq!(
        build_instance(&multiply_r1cs(), &wtns, &field),
        Err(CoreError::InconsistentWitness(InconsistentWitnessError::ConstantWireNotOne))
    );
    let zero = wtns_bytes(RISTRETTO255_ORDER_BYTES, &[0, 40, 3, 4, 12, 36, 36]);
    assert_eq!(
        build_instance(&multiply_r1cs(), &zero, &field),
        Err(CoreError::InconsistentWitness(InconsistentWitnessError::ConstantWireNotOne))
    );
    assert!(build_instance(&multiply_r1cs(), &multiply_wtns(), &field).is_ok());
}

#[test]
fn no_public_outputs_puts_internal_variables_first() {
    // wires: 0 = one, 1..=2 = inputs a, b, 3 = internal v;  a * b = v
    let r1cs = r1cs_bytes(
        RISTRETTO255_ORDER_BYTES,
        (4, 0, 1, 1),
        vec![r1cs_file::Constraint(lc(&[(1, 1)]), lc(&[(1, 2)]), lc(&[(1, 3)]))],
    );
    let wtns = wtns_bytes(RISTRETTO255_ORDER_BYTES, &[1, 6, 7, 42]);
    let field = FieldConfig::ristretto255();
    let (inst, asg) = build_instance(&r1cs, &wtns, &field).unwrap();
    assert_eq!((inst.num_constraints, inst.num_vars, inst.num_inputs), (1, 1, 2));
    assert_eq!(inst.sparse_a, vec![(0, 2, le(1))]);
    assert_eq!(inst.sparse_b, vec![(0, 3, le(1))]);
    assert_eq!(inst.sparse_c, vec![(0, 0, le(1))]);
    assert_eq!(asg.vars, vec![FieldElement::from_bytes(le(42))]);
    assert_eq!(
        asg.inputs,
        vec![FieldElement::from_bytes(le(6)), FieldElement::from_bytes(le(7))]
    );
    let circuit = SpartanCircuit::new(&r1cs, &wtns).unwrap();
    assert_eq!(circuit.num_outputs, 0);
    assert_eq!(circuit.num_vars, 1);
    assert_eq!(circuit.is_sat(), Some(true));
}

#[test]
fn header_that_leaves_no_room_for_internal_variables_is_refused() {
    let r1cs = r1cs_bytes(RISTRETTO255_ORDER_BYTES, (3, 1, 1, 1), vec![]);
    let wtns = wtns_bytes(RISTRETTO255_ORDER_BYTES, &[1, 1, 1]);
    let field = FieldConfig::ristretto255();
    assert_eq!(
        build_instance(&r1cs, &wtns, &field),
        Err(CoreError::RemapInvariant(RemapInvariantError::NegativeInternalVars {
            n_wires: 3,
            required: 4
        }))
    );
}

#[test]
fn coefficients_of_another_field_are_not_canonical() {
    // BN254's order minus one is no scalar of ristretto255.
    let mut minus_one = BN254_ORDER_BYTES;
    minus_one[0] -= 1;
    let mut constraints = multiply_constraints();
    constraints[0].0[0].0 = r1cs_file::FieldElement::from(minus_one);
    let r1cs = r1cs_bytes(BN254_ORDER_BYTES, (7, 1, 2, 0), constraints);
    let wtns = wtns_bytes(BN254_ORDER_BYTES, &[1, 40, 3, 4, 12, 36, 36]);
    assert_eq!(
        build_instance(&r1cs, &wtns, &FieldConfig::ristretto255()),
        Err(CoreError::Encoding(EncodingError::NonCanonicalValue))
    );
    assert!(build_instance(&r1cs, &wtns, &FieldConfig::bn254()).is_ok());
    assert!(matches!(
        SpartanCircuit::new(&r1cs, &wtns),
        Err(CoreError::Encoding(EncodingError::NonCanonicalValue))
    ));
}

fn toy_circuit(z: [u64; 5], i: [u64; 2]) -> Circuit {
    let one = le(1);
    let num_vars = 5;
    Circuit {
        n_inputs: 2,
        n_outputs: 2,
        n_vars: 3,
        n_constraints: 3,
        wtns: [z[0], z[1], z[2], z[3], z[4], 1, i[0], i[1]]
            .iter()
            .map(|v| FieldElement::from_bytes(le(*v)))
            .collect(),
        constraints: Constraints {
            a: vec![
                (0, 0, one),
                (0, 1, one),
                (1, 0, one),
                (1, num_vars + 2, one),
                (2, 4, one),
            ],
            b: vec![(0, num_vars + 1, one), (1, 2, one), (2, num_vars, one)],
            c: vec![(0, 2, one), (1, 3, one)],
        },
    }
}

#[test]
fn test_spartan_from_r1cs() {
    let circuit = test_r1cs(toy_circuit([2, 3, 25, 225, 0], [5, 7])).unwrap();
    println!("{:?}", (circuit.num_cons, circuit.num_vars, circuit.num_inputs));

    let num_vars = circuit.num_vars + circuit.num_outputs;
    let gens = SNARKGens::new(
        circuit.num_cons,
        num_vars,
        circuit.num_inputs,
        circuit.num_non_zero_entries,
    );
    let (comm, decomm) = SNARK::encode(&circuit.inst, &gens);
    let mut prover_transcript = Transcript::new(b"snark_example");
    let proof = SNARK::prove(
        &circuit.inst,
        &comm,
        &decomm,
        circuit.assignment_vars,
        &circuit.assignment_inputs,
        &gens,
        &mut prover_transcript,
    );
    let mut verifier_transcript = Transcript::new(b"snark_example");
    assert!(proof
        .verify(&comm, &circuit.assignment_inputs, &mut verifier_transcript, &gens)
        .is_ok());
}

#[test]
fn prepared_circuit_with_a_wrong_witness_is_not_satisfied() {
    assert!(matches!(
        test_r1cs(toy_circuit([2, 3, 26, 225, 0], [5, 7])),
        Err(CircuitError::NotSatisfied)
    ));
}

#[test]
fn prepared_circuit_needs_a_witness_of_the_declared_length() {
    let mut circuit = toy_circuit([2, 3, 25, 225, 0], [5, 7]);
    circuit.wtns.pop();
    assert!(matches!(
        test_r1cs(circuit),
        Err(CircuitError::Witness(InconsistentWitnessError::WitnessLengthMismatch {
            n_wires: 8,
            n_elements: 7
        }))
    ));
    let mut circuit = toy_circuit([2, 3, 25, 225, 0], [5, 7]);
    circuit.n_vars = usize::MAX;
    assert!(matches!(test_r1cs(circuit), Err(CircuitError::DimensionOverflow)));
}

#[test]
fn tiny_system_is_satisfied_and_proves() {
    let (num_cons, num_vars, num_inputs, num_non_zero_entries, inst, vars, inputs) =
        produce_tiny_r1cs().unwrap();
    assert_eq!((num_cons, num_vars, num_inputs, num_non_zero_entries), (3, 5, 2, 5));
    assert_eq!(inst.is_sat(&vars, &inputs).unwrap(), true);

    let gens = SNARKGens::new(num_cons, num_vars, num_inputs, num_non_zero_entries);
    let (comm, decomm) = SNARK::encode(&inst, &gens);
    let mut prover_transcript = Transcript::new(b"snark_example");
    let proof = SNARK::prove(
        &inst,
        &comm,
        &decomm,
        vars,
        &inputs,
        &gens,
        &mut prover_transcript,
    );
    let mut verifier_transcript = Transcript::new(b"snark_example");
    assert!(proof
        .verify(&comm, &inputs, &mut verifier_transcript, &gens)
        .is_ok());
}

#[test]
fn backend_answer_is_whether_the_files_agree() {
    assert_eq!(files_satisfied(&multiply_r1cs(), &multiply_wtns()), Ok(true));
    // out = 41 breaks the last constraint, v1 = 13 the first
    for wrong in [[1, 41, 3, 4, 12, 36, 36], [1, 40, 3, 4, 13, 36, 36]] {
        let wtns = wtns_bytes(RISTRETTO255_ORDER_BYTES, &wrong);
        assert_eq!(files_satisfied(&multiply_r1cs(), &wtns), Ok(false));
    }
    let toy_wtns = wtns_bytes(RISTRETTO255_ORDER_BYTES, &[1, 2, 3, 5, 7, 25, 225, 0]);
    assert_eq!(files_satisfied(&toy_r1cs(), &toy_wtns), Ok(true));
    let toy_wtns = wtns_bytes(RISTRETTO255_ORDER_BYTES, &[1, 2, 3, 5, 7, 25, 225, 1]);
    assert_eq!(files_satisfied(&toy_r1cs(), &toy_wtns), Ok(false));
    let mut corrupt = multiply_r1cs();
    corrupt[0] = b'R';
    assert_eq!(
        files_satisfied(&corrupt, &multiply_wtns()),
        Err(CoreError::Parse(ParseError::BadMagic))
    );
}

#[test]
fn constraints_that_wrap_around_the_order_are_satisfied_in_the_field() {
    // wires: 0 = one, 1 = x (input), 2 = y (internal);  (order - 1) * x = y
    let mut minus_one = RISTRETTO255_ORDER_BYTES;
    minus_one[0] -= 1;
    let mut constraints = vec![r1cs_file::Constraint(lc(&[(1, 0)]), lc(&[(1, 1)]), lc(&[(1, 2)]))];
    constraints[0].0[0].0 = r1cs_file::FieldElement::from(minus_one);
    let r1cs = r1cs_bytes(RISTRETTO255_ORDER_BYTES, (3, 0, 1, 0), constraints);
    // x = 2: y = -2 = order - 2
    let mut minus_two = RISTRETTO255_ORDER_BYTES;
    minus_two[0] -= 2;
    let witness = vec![
        wtns_file::FieldElement::from(le(1)),
        wtns_file::FieldElement::from(le(2)),
        wtns_file::FieldElement::from(minus_two),
    ];
    let file = wtns_file::WtnsFile::<32>::from_vec(
        witness,
        wtns_file::FieldElement::from(RISTRETTO255_ORDER_BYTES),
    );
    let mut wtns = Vec::new();
    file.write(&mut wtns).unwrap();
    assert_eq!(files_satisfied(&r1cs, &wtns), Ok(true));
}

#[test]
fn prepared_circuit_that_the_backend_refuses() {
    let mut circuit = toy_circuit([2, 3, 25, 225, 0], [5, 7]);
    circuit.constraints.b.push((3, 0, le(1)));
    assert!(matches!(
        test_r1cs(circuit),
        Err(CircuitError::Backend(InstanceConstructionError::InvalidIndex))
    ));
    let mut circuit = toy_circuit([2, 3, 25, 225, 0], [5, 7]);
    circuit.constraints.c.push((0, 8, le(1)));
    assert!(matches!(
        test_r1cs(circuit),
        Err(CircuitError::Backend(InstanceConstructionError::InvalidIndex))
    ));
    let mut circuit = toy_circuit([2, 3, 25, 225, 0], [5, 7]);
    circuit.wtns[6] = FieldElement::from_bytes(RISTRETTO255_ORDER_BYTES);
    assert!(matches!(
        test_r1cs(circuit),
        Err(CircuitError::Backend(InstanceConstructionError::InvalidScalar))
    ));
}
