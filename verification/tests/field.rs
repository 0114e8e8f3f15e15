use ark_ff::{BigInteger, PrimeField};
use curve25519_dalek::scalar::Scalar;
use sparta::error::EncodingError;
use sparta::field::{
    bytes_equal, FieldConfig, FieldElement, BN254_ORDER_BYTES, FIELD_BYTES,
    RISTRETTO255_ORDER_BYTES,
};

fn le(n: u64) -> [u8; 32] {
    let mut out = [0u8; 32];
    out[..8].copy_from_slice(&n.to_le_bytes());
    out
}

fn minus_one(modulus: [u8; 32]) -> [u8; 32] {
    let mut out = modulus;
    let mut i = 0;
    while out[i] == 0 {
        out[i] = 0xff;
        i += 1;
    }
    out[i] -= 1;
    out
}

fn plus_one(modulus: [u8; 32]) -> [u8; 32] {
    let mut out = modulus;
    let mut i = 0;
    while out[i] == 0xff {
        out[i] = 0;
        i += 1;
    }
    out[i] += 1;
    out
}

#[test]
fn decode_accepts_exactly_the_numbers_below_the_modulus() {
    for field in [FieldConfig::ristretto255(), FieldConfig::bn254()] {
        let m = field.modulus;
        assert_eq!(field.decode(le(0)), Ok(FieldElement::from_bytes(le(0))));
        assert_eq!(field.decode(le(1)), Ok(FieldElement::from_bytes(le(1))));
        assert_eq!(field.decode(minus_one(m)), Ok(FieldElement::from_bytes(minus_one(m))));
        assert_eq!(field.decode(m), Err(EncodingError::NonCanonicalValue));
        assert_eq!(field.decode(plus_one(m)), Err(EncodingError::NonCanonicalValue));
        assert_eq!(field.decode([0xff; 32]), Err(EncodingError::NonCanonicalValue));
    }
}

#[test]
fn comparison_goes_by_the_most_significant_byte() {
    let mut modulus = [0u8; 32];
    modulus[1] = 1; // 256
    let field = FieldConfig::new(modulus);
    assert!(field.is_canonical(&le(255)));
    assert!(!field.is_canonical(&le(256)));
    assert!(!field.is_canonical(&le(257)));
    let mut high = [0u8; 32];
    high[31] = 1;
    assert!(!field.is_canonical(&high));
    let mut low_bytes_large = [0xffu8; 32];
    low_bytes_large[31] = 0;
    low_bytes_large[1] = 0;
    assert!(!field.is_canonical(&low_bytes_large));
    assert!(!FieldConfig::new([0u8; 32]).is_canonical(&le(0)));
}

#[test]
fn encode_and_decode_undo_each_other() {
    let field = FieldConfig::ristretto255();
    for bytes in [le(0), le(1), le(u64::MAX), minus_one(RISTRETTO255_ORDER_BYTES)] {
        let x = field.decode(bytes).unwrap();
        assert_eq!(field.encode(&x), bytes);
        assert_eq!(field.decode(field.encode(&x)), Ok(x));
    }
}

#[test]
fn one_and_zero_are_what_they_say() {
    assert_eq!(FieldElement::one().bytes, le(1));
    assert_eq!(FieldElement::zero().bytes, le(0));
    assert!(FieldElement::one().is_one());
    assert!(!FieldElement::zero().is_one());
    assert!(!FieldElement::from_bytes(le(2)).is_one());
    let mut high_one = [0u8; 32];
    high_one[31] = 1;
    assert!(!FieldElement::from_bytes(high_one).is_one());
    assert!(bytes_equal(&le(7), &le(7)));
    assert!(!bytes_equal(&le(7), &high_one));
    assert_eq!(FIELD_BYTES, 32);
}

#[test]
fn ristretto255_order_is_the_one_of_the_scalar_type() {
    let field = FieldConfig::ristretto255();
    assert_eq!(field.modulus, RISTRETTO255_ORDER_BYTES);
    assert_eq!((Scalar::ZERO - Scalar::ONE).to_bytes(), minus_one(RISTRETTO255_ORDER_BYTES));
    let below: Option<Scalar> =
        Scalar::from_canonical_bytes(minus_one(RISTRETTO255_ORDER_BYTES)).into();
    let at: Option<Scalar> = Scalar::from_canonical_bytes(RISTRETTO255_ORDER_BYTES).into();
    assert!(below.is_some());
    assert!(at.is_none());
    for bytes in [le(5), minus_one(RISTRETTO255_ORDER_BYTES), RISTRETTO255_ORDER_BYTES, [0xff; 32]] {
        let theirs: Option<Scalar> = Scalar::from_canonical_bytes(bytes).into();
        assert_eq!(field.is_canonical(&bytes), theirs.is_some());
    }
}

#[test]
fn bn254_order_is_the_one_of_the_curve() {
    let field = FieldConfig::bn254();
    assert_eq!(field.modulus, BN254_ORDER_BYTES);
    assert_eq!(ark_bn254::Fr::MODULUS.to_bytes_le(), BN254_ORDER_BYTES.to_vec());
}
