use sparta::error::{CoreError, EncodingError, ParseError};
use sparta::field::{FieldConfig, FieldElement, BN254_ORDER_BYTES, RISTRETTO255_ORDER_BYTES};
use sparta::r1cs::{parse_r1cs, read_r1cs, Constraint, Term};
use sparta::wtns::{parse_wtns, read_wtns_layout};

fn le(n: u64) -> [u8; 32] {
    let mut out = [0u8; 32];
    out[..8].copy_from_slice(&n.to_le_bytes());
    out
}

fn header_body(counts: (u32, u32, u32, u32), n_constraints: u32) -> Vec<u8> {
    let mut out = Vec::new();
    out.extend_from_slice(&32u32.to_le_bytes());
    out.extend_from_slice(&RISTRETTO255_ORDER_BYTES);
    out.extend_from_slice(&counts.0.to_le_bytes());
    out.extend_from_slice(&counts.1.to_le_bytes());
    out.extend_from_slice(&counts.2.to_le_bytes());
    out.extend_from_slice(&counts.3.to_le_bytes());
    out.extend_from_slice(&1000u64.to_le_bytes());
    out.extend_from_slice(&n_constraints.to_le_bytes());
    out
}

fn lc_body(terms: &[(u32, u64)]) -> Vec<u8> {
    let mut out = Vec::new();
    out.extend_from_slice(&(terms.len() as u32).to_le_bytes());
    for (wire, value) in terms {
        out.extend_from_slice(&wire.to_le_bytes());
        out.extend_from_slice(&le(*value));
    }
    out
}

// 3 * w1 * w2 = w3 + 5 and w3 * 1 = w4, over wires 0..5
fn constraints_body() -> Vec<u8> {
    let mut out = Vec::new();
    out.extend(lc_body(&[(1, 3)]));
    out.extend(lc_body(&[(2, 1)]));
    out.extend(lc_body(&[(3, 1), (0, 5)]));
    out.extend(lc_body(&[(3, 1)]));
    out.extend(lc_body(&[(0, 1)]));
    out.extend(lc_body(&[(4, 1)]));
    out
}

fn labels_body(n: u64) -> Vec<u8> {
    (0..n).flat_map(|i| i.to_le_bytes()).collect()
}

fn section(ty: u32, body: &[u8]) -> Vec<u8> {
    let mut out = Vec::new();
    out.extend_from_slice(&ty.to_le_bytes());
    out.extend_from_slice(&(body.len() as u64).to_le_bytes());
    out.extend_from_slice(body);
    out
}

fn file(tag: &[u8; 4], version: u32, sections: &[Vec<u8>]) -> Vec<u8> {
    let mut out = Vec::new();
    out.extend_from_slice(tag);
    out.extend_from_slice(&version.to_le_bytes());
    out.extend_from_slice(&(sections.len() as u32).to_le_bytes());
    for s in sections {
        out.extend_from_slice(s);
    }
    out
}

fn good_r1cs() -> Vec<u8> {
    file(
        b"r1cs",
        1,
        &[
            section(1, &header_body((5, 1, 1, 1), 2)),
            section(2, &constraints_body()),
            section(3, &labels_body(5)),
        ],
    )
}

fn term(wire_id: u32, value: u64) -> Term {
    Term { wire_id, coefficient: FieldElement::from_bytes(le(value)) }
}

fn parse_err(e: ParseError) -> CoreError {
    CoreError::Parse(e)
}

#[test]
fn constraint_file_is_read_field_by_field() {
    let sys = parse_r1cs(&good_r1cs(), &FieldConfig::ristretto255()).unwrap();
    assert_eq!(sys.header.field_byte_width, 32);
    assert_eq!(sys.header.prime, RISTRETTO255_ORDER_BYTES);
    assert_eq!(sys.header.n_wires, 5);
    assert_eq!(sys.header.n_public_outputs, 1);
    assert_eq!(sys.header.n_public_inputs, 1);
    assert_eq!(sys.header.n_private_inputs, 1);
    assert_eq!(sys.header.n_labels, 1000);
    assert_eq!(sys.header.n_constraints, 2);
    assert_eq!(
        sys.constraints,
        vec![
            Constraint {
                a: vec![term(1, 3)],
                b: vec![term(2, 1)],
                c: vec![term(3, 1), term(0, 5)]
            },
            Constraint { a: vec![term(3, 1)], b: vec![term(0, 1)], c: vec![term(4, 1)] },
        ]
    );
}

#[test]
fn sections_may_come_in_any_order() {
    let reordered = file(
        b"r1cs",
        1,
        &[
            section(3, &labels_body(5)),
            section(2, &constraints_body()),
            section(1, &header_body((5, 1, 1, 1), 2)),
        ],
    );
    let field = FieldConfig::ristretto255();
    assert_eq!(parse_r1cs(&reordered, &field), parse_r1cs(&good_r1cs(), &field));
    assert!(parse_r1cs(&reordered, &field).is_ok());
}

#[test]
fn bytes_after_the_last_section_are_not_read() {
    let mut bytes = good_r1cs();
    bytes.extend_from_slice(&[0xff; 9]);
    let field = FieldConfig::ristretto255();
    assert_eq!(parse_r1cs(&bytes, &field), parse_r1cs(&good_r1cs(), &field));
}

#[test]
fn constraint_file_with_a_wrong_tag_is_refused() {
    let bytes = file(b"r1cz", 1, &[]);
    assert_eq!(read_r1cs(&bytes), Err(parse_err(ParseError::BadMagic)));
    let witness = file(b"wtns", 1, &[]);
    assert_eq!(read_r1cs(&witness), Err(parse_err(ParseError::BadMagic)));
}

#[test]
fn constraint_file_of_another_version_is_refused() {
    let mut bytes = good_r1cs();
    bytes[4] = 0;
    assert_eq!(read_r1cs(&bytes), Err(parse_err(ParseError::UnsupportedVersion { found: 0 })));
    bytes[4] = 1;
    bytes[7] = 1;
    assert_eq!(
        read_r1cs(&bytes),
        Err(parse_err(ParseError::UnsupportedVersion { found: 0x0100_0001 }))
    );
}

#[test]
fn every_proper_prefix_of_a_constraint_file_is_truncated() {
    let bytes = good_r1cs();
    for len in 0..bytes.len() {
        assert_eq!(
            read_r1cs(&bytes[..len]),
            Err(parse_err(ParseError::TruncatedInput)),
            "prefix of {} bytes",
            len
        );
    }
    assert!(read_r1cs(&bytes).is_ok());
}

#[test]
fn section_kinds_are_checked() {
    let unknown = file(b"r1cs", 1, &[section(4, &[])]);
    assert_eq!(read_r1cs(&unknown), Err(parse_err(ParseError::UnknownSection { ty: 4 })));
    let twice = file(
        b"r1cs",
        1,
        &[section(3, &labels_body(1)), section(3, &labels_body(1))],
    );
    assert_eq!(read_r1cs(&twice), Err(parse_err(ParseError::DuplicateSection { ty: 3 })));
    let twice = file(
        b"r1cs",
        1,
        &[
            section(1, &header_body((5, 1, 1, 1), 2)),
            section(1, &header_body((5, 1, 1, 1), 2)),
        ],
    );
    assert_eq!(read_r1cs(&twice), Err(parse_err(ParseError::DuplicateSection { ty: 1 })));
    let twice = file(b"r1cs", 1, &[section(2, &[]), section(2, &[])]);
    assert_eq!(read_r1cs(&twice), Err(parse_err(ParseError::DuplicateSection { ty: 2 })));
}

#[test]
fn every_section_kind_is_required() {
    let h = section(1, &header_body((5, 1, 1, 1), 2));
    let c = section(2, &constraints_body());
    let l = section(3, &labels_body(5));
    assert_eq!(
        read_r1cs(&file(b"r1cs", 1, &[c.clone(), l.clone()])),
        Err(parse_err(ParseError::MissingSection { ty: 1 }))
    );
    assert_eq!(
        read_r1cs(&file(b"r1cs", 1, &[h.clone(), l])),
        Err(parse_err(ParseError::MissingSection { ty: 2 }))
    );
    assert_eq!(
        read_r1cs(&file(b"r1cs", 1, &[h, c])),
        Err(parse_err(ParseError::MissingSection { ty: 3 }))
    );
    assert_eq!(
        read_r1cs(&file(b"r1cs", 1, &[])),
        Err(parse_err(ParseError::MissingSection { ty: 1 }))
    );
}

#[test]
fn section_sizes_are_checked() {
    let mut long_header = header_body((5, 1, 1, 1), 2);
    long_header.push(0);
    assert_eq!(
        read_r1cs(&file(b"r1cs", 1, &[section(1, &long_header)])),
        Err(parse_err(ParseError::BadSectionSize { ty: 1, size: 65 }))
    );
    assert_eq!(
        read_r1cs(&file(b"r1cs", 1, &[section(3, &[0; 12])])),
        Err(parse_err(ParseError::BadSectionSize { ty: 3, size: 12 }))
    );
    // a declared size far beyond the input is refused before anything is reserved
    let mut huge = Vec::new();
    huge.extend_from_slice(&3u32.to_le_bytes());
    huge.extend_from_slice(&0xffff_ffff_ffff_fff8u64.to_le_bytes());
    assert_eq!(
        read_r1cs(&file(b"r1cs", 1, &[huge])),
        Err(parse_err(ParseError::TruncatedInput))
    );
    let mut huge = Vec::new();
    huge.extend_from_slice(&2u32.to_le_bytes());
    huge.extend_from_slice(&u64::MAX.to_le_bytes());
    assert_eq!(
        read_r1cs(&file(b"r1cs", 1, &[huge])),
        Err(parse_err(ParseError::TruncatedInput))
    );
}

#[test]
fn constraints_must_fill_their_section() {
    let mut body = constraints_body();
    body.extend_from_slice(&[0, 0, 0, 0]);
    let bytes = file(
        b"r1cs",
        1,
        &[section(1, &header_body((5, 1, 1, 1), 2)), section(2, &body), section(3, &[])],
    );
    assert_eq!(read_r1cs(&bytes), Err(parse_err(ParseError::TruncatedInput)));
    // a term count that asks for more than the section holds
    let mut body = Vec::new();
    body.extend_from_slice(&u32::MAX.to_le_bytes());
    body.extend_from_slice(&[0; 80]);
    let bytes = file(b"r1cs", 1, &[section(2, &body)]);
    assert_eq!(read_r1cs(&bytes), Err(parse_err(ParseError::TruncatedInput)));
}

#[test]
fn element_width_other_than_32_is_refused() {
    let mut header = header_body((5, 1, 1, 1), 2);
    header[0] = 48;
    assert_eq!(
        read_r1cs(&file(b"r1cs", 1, &[section(1, &header)])),
        Err(CoreError::Encoding(EncodingError::ByteWidthMismatch { declared: 48 }))
    );
}

#[test]
fn declared_constraint_count_must_match() {
    let bytes = file(
        b"r1cs",
        1,
        &[
            section(1, &header_body((5, 1, 1, 1), 3)),
            section(2, &constraints_body()),
            section(3, &labels_body(5)),
        ],
    );
    assert!(read_r1cs(&bytes).is_ok());
    assert_eq!(
        parse_r1cs(&bytes, &FieldConfig::ristretto255()),
        Err(parse_err(ParseError::ConstraintCountMismatch { declared: 3, counted: 2 }))
    );
}

#[test]
fn wire_beyond_the_declared_wires_is_refused() {
    let bytes = file(
        b"r1cs",
        1,
        &[
            section(1, &header_body((4, 1, 1, 1), 2)),
            section(2, &constraints_body()),
            section(3, &labels_body(4)),
        ],
    );
    assert_eq!(
        parse_r1cs(&bytes, &FieldConfig::ristretto255()),
        Err(parse_err(ParseError::WireIndexOutOfRange { wire_id: 4, n_wires: 4 }))
    );
    // the first offending wire in file order is the one reported
    let bytes = file(
        b"r1cs",
        1,
        &[
            section(1, &header_body((2, 0, 0, 0), 2)),
            section(2, &constraints_body()),
            section(3, &labels_body(2)),
        ],
    );
    assert_eq!(
        parse_r1cs(&bytes, &FieldConfig::ristretto255()),
        Err(parse_err(ParseError::WireIndexOutOfRange { wire_id: 2, n_wires: 2 }))
    );
}

#[test]
fn coefficient_at_the_modulus_is_refused() {
    let mut body = Vec::new();
    body.extend_from_slice(&1u32.to_le_bytes());
    body.extend_from_slice(&0u32.to_le_bytes());
    body.extend_from_slice(&RISTRETTO255_ORDER_BYTES);
    body.extend(lc_body(&[]));
    body.extend(lc_body(&[]));
    let bytes = file(
        b"r1cs",
        1,
        &[
            section(1, &header_body((1, 0, 0, 0), 1)),
            section(2, &body),
            section(3, &labels_body(1)),
        ],
    );
    assert_eq!(
        parse_r1cs(&bytes, &FieldConfig::ristretto255()),
        Err(CoreError::Encoding(EncodingError::NonCanonicalValue))
    );
    assert!(parse_r1cs(&bytes, &FieldConfig::bn254()).is_ok());
}

fn outside_view(file: &r1cs_file::R1csFile<32>) -> Vec<Constraint> {
    let side = |lc: &Vec<(r1cs_file::FieldElement<32>, u32)>| {
        lc.iter()
            .map(|(value, wire)| Term {
                wire_id: *wire,
                coefficient: FieldElement::from_bytes(**value),
            })
            .collect::<Vec<_>>()
    };
    file.constraints
        .0
        .iter()
        .map(|c| Constraint { a: side(&c.0), b: side(&c.1), c: side(&c.2) })
        .collect()
}

#[test]
fn reader_agrees_with_the_format_crate_on_a_good_file() {
    let bytes = good_r1cs();
    let theirs = r1cs_file::R1csFile::<32>::read(bytes.as_slice()).unwrap();
    let ours = read_r1cs(&bytes).unwrap();
    assert_eq!(ours.header.prime, *theirs.header.prime);
    assert_eq!(ours.header.n_wires, theirs.header.n_wires);
    assert_eq!(ours.header.n_public_outputs, theirs.header.n_pub_out);
    assert_eq!(ours.header.n_public_inputs, theirs.header.n_pub_in);
    assert_eq!(ours.header.n_private_inputs, theirs.header.n_prvt_in);
    assert_eq!(ours.header.n_labels, theirs.header.n_labels);
    assert_eq!(ours.header.n_constraints, theirs.header.n_constraints);
    assert_eq!(ours.constraints, outside_view(&theirs));
    let mut written = Vec::new();
    theirs.write(&mut written).unwrap();
    assert_eq!(read_r1cs(&written), Ok(ours));
}

#[test]
fn whatever_the_reader_accepts_the_format_crate_reads_alike() {
    let good = good_r1cs();
    let mut accepted = 0;
    for at in 0..good.len() {
        for change in [1u8, 0x80, 0xff] {
            let mut bytes = good.clone();
            bytes[at] ^= change;
            if let Ok(ours) = read_r1cs(&bytes) {
                accepted += 1;
                let theirs = r1cs_file::R1csFile::<32>::read(bytes.as_slice()).unwrap();
                assert_eq!(ours.header.n_wires, theirs.header.n_wires);
                assert_eq!(ours.header.n_constraints, theirs.header.n_constraints);
                assert_eq!(ours.header.prime, *theirs.header.prime);
                assert_eq!(ours.constraints, outside_view(&theirs));
            }
        }
    }
    assert!(accepted > 0);
}

fn wtns_file_bytes(version: u32, n_sections: u32, width: u32, values: &[[u8; 32]]) -> Vec<u8> {
    let mut out = Vec::new();
    out.extend_from_slice(b"wtns");
    out.extend_from_slice(&version.to_le_bytes());
    out.extend_from_slice(&n_sections.to_le_bytes());
    out.extend_from_slice(&1u32.to_le_bytes());
    out.extend_from_slice(&40u64.to_le_bytes());
    out.extend_from_slice(&width.to_le_bytes());
    out.extend_from_slice(&RISTRETTO255_ORDER_BYTES);
    out.extend_from_slice(&(values.len() as u32).to_le_bytes());
    out.extend_from_slice(&2u32.to_le_bytes());
    out.extend_from_slice(&(32 * values.len() as u64).to_le_bytes());
    for v in values {
        out.extend_from_slice(v);
    }
    out
}

#[test]
fn witness_file_is_read_element_by_element() {
    let bytes = wtns_file_bytes(2, 2, 32, &[le(1), le(40), le(3)]);
    let w = parse_wtns(&bytes, &FieldConfig::ristretto255()).unwrap();
    assert_eq!(w.field_byte_width, 32);
    assert_eq!(w.prime, RISTRETTO255_ORDER_BYTES);
    assert_eq!(
        w.values,
        vec![
            FieldElement::from_bytes(le(1)),
            FieldElement::from_bytes(le(40)),
            FieldElement::from_bytes(le(3))
        ]
    );
    let empty = wtns_file_bytes(1, 2, 32, &[]);
    assert_eq!(parse_wtns(&empty, &FieldConfig::ristretto255()).unwrap().values, vec![]);
}

#[test]
fn reader_agrees_with_the_witness_crate() {
    let values = [le(1), le(7), le(u64::MAX)];
    let theirs = wtns_file::WtnsFile::<32>::from_vec(
        values.iter().map(|v| wtns_file::FieldElement::from(*v)).collect(),
        wtns_file::FieldElement::from(BN254_ORDER_BYTES),
    );
    let mut bytes = Vec::new();
    theirs.write(&mut bytes).unwrap();
    let ours = read_wtns_layout(&bytes).unwrap();
    assert_eq!(ours.prime, BN254_ORDER_BYTES);
    assert_eq!(ours.values.iter().map(|x| x.bytes).collect::<Vec<_>>(), values.to_vec());
    let back = wtns_file::WtnsFile::<32>::read(bytes.as_slice()).unwrap();
    assert_eq!(back, theirs);
    for at in 0..bytes.len() {
        let mut changed = bytes.clone();
        changed[at] ^= 0x01;
        if let Ok(ours) = read_wtns_layout(&changed) {
            let theirs = wtns_file::WtnsFile::<32>::read(changed.as_slice()).unwrap();
            assert_eq!(
                ours.values.iter().map(|x| x.bytes).collect::<Vec<_>>(),
                theirs.witness.0.iter().map(|x| **x).collect::<Vec<_>>()
            );
        }
    }
}

#[test]
fn every_proper_prefix_of_a_witness_file_is_truncated() {
    let bytes = wtns_file_bytes(2, 2, 32, &[le(1), le(2)]);
    for len in 0..bytes.len() {
        assert_eq!(
            read_wtns_layout(&bytes[..len]),
            Err(parse_err(ParseError::TruncatedInput)),
            "prefix of {} bytes",
            len
        );
    }
}

#[test]
fn witness_file_errors_name_what_is_wrong() {
    let good = wtns_file_bytes(2, 2, 32, &[le(1), le(2)]);
    let with = |at: usize, value: u8| {
        let mut bytes = good.clone();
        bytes[at] = value;
        read_wtns_layout(&bytes)
    };
    assert_eq!(with(0, b'r'), Err(parse_err(ParseError::BadMagic)));
    assert_eq!(with(4, 3), Err(parse_err(ParseError::UnsupportedVersion { found: 3 })));
    assert!(with(4, 0).is_ok());
    assert_eq!(with(8, 3), Err(parse_err(ParseError::TooManySections { found: 3 })));
    assert_eq!(with(12, 2), Err(parse_err(ParseError::UnknownSection { ty: 2 })));
    assert_eq!(with(16, 41), Err(parse_err(ParseError::BadSectionSize { ty: 1, size: 41 })));
    assert_eq!(
        with(24, 31),
        Err(CoreError::Encoding(EncodingError::ByteWidthMismatch { declared: 31 }))
    );
    assert_eq!(with(64, 1), Err(parse_err(ParseError::UnknownSection { ty: 1 })));
    assert_eq!(with(68, 65), Err(parse_err(ParseError::BadSectionSize { ty: 2, size: 65 })));
    // three elements declared, two present
    assert_eq!(with(60, 3), Err(parse_err(ParseError::BadSectionSize { ty: 2, size: 64 })));
    let mut short = wtns_file_bytes(2, 2, 32, &[le(1), le(2), le(3)]);
    short.truncate(short.len() - 1);
    assert_eq!(read_wtns_layout(&short), Err(parse_err(ParseError::TruncatedInput)));
}

#[test]
fn witness_element_at_the_modulus_is_refused() {
    let bytes = wtns_file_bytes(2, 2, 32, &[le(1), RISTRETTO255_ORDER_BYTES]);
    assert_eq!(
        parse_wtns(&bytes, &FieldConfig::ristretto255()),
        Err(CoreError::Encoding(EncodingError::NonCanonicalValue))
    );
    assert!(parse_wtns(&bytes, &FieldConfig::bn254()).is_ok());
    assert!(read_wtns_layout(&bytes).is_ok());
}

#[test]
fn test_r1cs() {
    let r1cs = read_r1cs(&good_r1cs()).unwrap();
    println!("Constraints Count: {:?}", r1cs.constraints.len());
    println!("Wires: {}", &r1cs.header.n_wires);
    for (i, constraint) in r1cs.constraints.iter().enumerate() {
        println!("Constraint #{}:", i + 1);
        println!("A: {:?}", &constraint.a);
        println!("B: {:?}", &constraint.b);
        println!("C: {:?}", &constraint.c);
        println!();
    }
    assert_eq!(r1cs.constraints.len(), 2);
    assert_eq!(r1cs.header.n_wires, 5);
}
