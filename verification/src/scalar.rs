//! Scalars of the backend's field written as decimal numbers.

use crate::field::{
    le_value, lemma_le_value_zeros, ristretto255_order, FieldConfig, FieldElement,
};
use crate::le::field_at;
use crate::matrix::Entry;
use std::str::FromStr;
use vstd::prelude::*;

verus! {

/// `num_bigint::BigUint`: a number of any size, carried from the reading of
/// the digits to the writing of the bytes.
#[verifier::external_type_specification]
#[verifier::external_body]
pub struct ExBigUint(num_bigint::BigUint);

/// `num_bigint::ParseBigIntError`: why a string is no number.
#[verifier::external_type_specification]
#[verifier::external_body]
pub struct ExParseBigIntError(num_bigint::ParseBigIntError);

/// Why a decimal string is no scalar.
#[derive(Clone, Copy, Debug, PartialEq, Eq)]
pub enum ScalarError {
    /// The string is not a number.
    Malformed,
    /// The number does not fit 32 bytes.
    TooLarge,
    /// The number is at or above the order of the field.
    NonCanonical,
}

/// The number that a string denotes in decimal notation, if it denotes one.
pub uninterp spec fn decimal_biguint(s: Seq<char>) -> Option<num_bigint::BigUint>;

/// The bytes of a number, least significant first.
pub uninterp spec fn biguint_le_bytes(n: num_bigint::BigUint) -> Seq<u8>;

/// `<num_bigint::BigUint as FromStr>::from_str`: reads a number in decimal
/// notation. Which strings are numbers, and which number each is, is known
/// here by name.
#[verifier::external_body]
fn biguint_from_decimal(value: &str) -> (r: Result<num_bigint::BigUint, num_bigint::ParseBigIntError>)
    ensures
        match r {
            Ok(n) => decimal_biguint(value@) == Some(n),
            Err(_) => decimal_biguint(value@) is None,
        },
{
    num_bigint::BigUint::from_str(value)
}

/// `num_bigint::BigUint::to_bytes_le`: the bytes of a number, least
/// significant first, known here by name.
#[verifier::external_body]
fn biguint_to_bytes_le(n: &num_bigint::BigUint) -> (bytes: Vec<u8>)
    ensures
        bytes@ == biguint_le_bytes(*n),
{
    n.to_bytes_le()
}

/// A byte string filled up with zeros to 32 bytes.
pub open spec fn padded(bytes: Seq<u8>) -> Seq<u8> {
    bytes + Seq::new((32 - bytes.len()) as nat, |i: int| 0u8)
}

/// Zeros at the end of a byte string do not change the number it denotes.
pub proof fn lemma_trailing_zeros(bytes: Seq<u8>, k: nat)
    ensures
        le_value(bytes + Seq::new(k, |i: int| 0u8)) == le_value(bytes),
    decreases bytes.len(),
{
    let zeros = Seq::new(k, |i: int| 0u8);
    if bytes.len() == 0 {
        assert(bytes + zeros =~= zeros);
        lemma_le_value_zeros(zeros);
    } else {
        lemma_trailing_zeros(bytes.skip(1), k);
        assert((bytes + zeros).skip(1) =~= bytes.skip(1) + zeros);
    }
}

/// Filling up with zeros does not change the number that a byte string denotes.
pub proof fn lemma_padded_value(bytes: Seq<u8>)
    requires
        bytes.len() <= 32,
    ensures
        le_value(padded(bytes)) == le_value(bytes),
        padded(bytes).len() == 32,
{
    lemma_trailing_zeros(bytes, (32 - bytes.len()) as nat);
}

/// The scalar that a number's bytes make, if they fit and are below the order.
pub open spec fn scalar_of_bytes(bytes: Seq<u8>) -> Result<FieldElement, ScalarError> {
    if bytes.len() > 32 {
        Err(ScalarError::TooLarge)
    } else if le_value(bytes) >= ristretto255_order() {
        Err(ScalarError::NonCanonical)
    } else {
        Ok(FieldElement { bytes: field_at(padded(bytes), 0) })
    }
}

/// What `parse_scalar` returns.
pub open spec fn spec_parse_scalar(s: Seq<char>) -> Result<FieldElement, ScalarError> {
    match decimal_biguint(s) {
        None => Err(ScalarError::Malformed),
        Some(n) => scalar_of_bytes(biguint_le_bytes(n)),
    }
}

/// Makes a scalar of the bytes of a number: filled up with zeros to 32
/// bytes, and refused if they are more or denote a number at or above the
/// order of the field.
pub fn scalar_from_le_bytes(bytes: &Vec<u8>) -> (r: Result<FieldElement, ScalarError>)
    ensures
        r == scalar_of_bytes(bytes@),
        r matches Ok(x) ==> x.value() == le_value(bytes@) && x.value() < ristretto255_order(),
{
    if bytes.len() > 32 {
        return Err(ScalarError::TooLarge);
    }
    let mut out: [u8; 32] = [0u8; 32];
    let mut i: usize = 0;
    while i < bytes.len()
        invariant
            i <= bytes.len() <= 32,
            forall|k: int| 0 <= k < i ==> out@[k] == bytes@[k],
            forall|k: int| i <= k < 32 ==> out@[k] == 0u8,
        decreases bytes.len() - i,
    {
        out[i] = bytes[i];
        i = i + 1;
    }
    proof {
        lemma_padded_value(bytes@);
        assert(out@ =~= padded(bytes@));
        crate::le::lemma_field_at(padded(bytes@), 0);
        assert(padded(bytes@).subrange(0, 32) =~= padded(bytes@));
        assert(out =~= field_at(padded(bytes@), 0));
    }
    let field = FieldConfig::ristretto255();
    if field.is_canonical(&out) {
        Ok(FieldElement { bytes: out })
    } else {
        Err(ScalarError::NonCanonical)
    }
}

/// Reads a scalar written as a decimal number.
pub fn parse_scalar(value: &str) -> (r: Result<FieldElement, ScalarError>)
    ensures
        r == spec_parse_scalar(value@),
        r matches Ok(x) ==> x.value() < ristretto255_order(),
{
    match biguint_from_decimal(value) {
        Err(_) => Err(ScalarError::Malformed),
        Ok(n) => {
            let bytes = biguint_to_bytes_le(&n);
            scalar_from_le_bytes(&bytes)
        },
    }
}

/// What `parse_scalars` returns: the scalars of all the strings, or the
/// error of the first string that is none.
pub open spec fn spec_parse_scalars(strings: Seq<String>) -> Result<Seq<FieldElement>, ScalarError>
    decreases strings.len(),
{
    if strings.len() == 0 {
        Ok(Seq::empty())
    } else {
        match spec_parse_scalars(strings.drop_last()) {
            Err(e) => Err(e),
            Ok(front) => match spec_parse_scalar(strings.last()@) {
                Err(e) => Err(e),
                Ok(x) => Ok(front.push(x)),
            },
        }
    }
}

/// An error among the first strings is the error of the whole list.
pub proof fn lemma_parse_scalars_prefix(strings: Seq<String>, k: int)
    requires
        0 <= k <= strings.len(),
        spec_parse_scalars(strings.take(k)) is Err,
    ensures
        spec_parse_scalars(strings) == spec_parse_scalars(strings.take(k)),
    decreases strings.len() - k,
{
    if k < strings.len() {
        assert(strings.take(k + 1).drop_last() =~= strings.take(k));
        lemma_parse_scalars_prefix(strings, k + 1);
    } else {
        assert(strings.take(k) =~= strings);
    }
}

/// Reads a list of scalars written as decimal numbers.
pub fn parse_scalars(strings: &Vec<String>) -> (r: Result<Vec<FieldElement>, ScalarError>)
    ensures
        match r {
            Ok(v) => spec_parse_scalars(strings@) == Ok::<Seq<FieldElement>, ScalarError>(v@),
            Err(e) => spec_parse_scalars(strings@) == Err::<Seq<FieldElement>, ScalarError>(e),
        },
{
    let mut out: Vec<FieldElement> = Vec::new();
    let mut i: usize = 0;
    while i < strings.len()
        invariant
            i <= strings.len(),
            spec_parse_scalars(strings@.take(i as int)) == Ok::<Seq<FieldElement>, ScalarError>(
                out@,
            ),
        decreases strings.len() - i,
    {
        proof {
            assert(strings@.take(i + 1).drop_last() =~= strings@.take(i as int));
        }
        match parse_scalar(strings[i].as_str()) {
            Err(e) => {
                proof {
                    lemma_parse_scalars_prefix(strings@, i + 1);
                }
                return Err(e);
            },
            Ok(x) => {
                out.push(x);
            },
        }
        i = i + 1;
    }
    proof {
        assert(strings@.take(strings.len() as int) =~= strings@);
    }
    Ok(out)
}

/// What `parse_entries` returns: every entry with its value read, or the
/// error of the first value that is no scalar.
pub open spec fn spec_parse_entries(raw: Seq<(usize, usize, String)>) -> Result<
    Seq<Entry>,
    ScalarError,
>
    decreases raw.len(),
{
    if raw.len() == 0 {
        Ok(Seq::empty())
    } else {
        match spec_parse_entries(raw.drop_last()) {
            Err(e) => Err(e),
            Ok(front) => match spec_parse_scalar(raw.last().2@) {
                Err(e) => Err(e),
                Ok(x) => Ok(front.push((raw.last().0, raw.last().1, x.bytes))),
            },
        }
    }
}

/// An error among the first entries is the error of the whole list.
pub proof fn lemma_parse_entries_prefix(raw: Seq<(usize, usize, String)>, k: int)
    requires
        0 <= k <= raw.len(),
        spec_parse_entries(raw.take(k)) is Err,
    ensures
        spec_parse_entries(raw) == spec_parse_entries(raw.take(k)),
    decreases raw.len() - k,
{
    if k < raw.len() {
        assert(raw.take(k + 1).drop_last() =~= raw.take(k));
        lemma_parse_entries_prefix(raw, k + 1);
    } else {
        assert(raw.take(k) =~= raw);
    }
}

/// Reads matrix entries whose values are written as decimal numbers.
pub fn parse_entries(raw: &Vec<(usize, usize, String)>) -> (r: Result<Vec<Entry>, ScalarError>)
    ensures
        match r {
            Ok(v) => spec_parse_entries(raw@) == Ok::<Seq<Entry>, ScalarError>(v@),
            Err(e) => spec_parse_entries(raw@) == Err::<Seq<Entry>, ScalarError>(e),
        },
{
    let mut out: Vec<Entry> = Vec::new();
    let mut i: usize = 0;
    while i < raw.len()
        invariant
            i <= raw.len(),
            spec_parse_entries(raw@.take(i as int)) == Ok::<Seq<Entry>, ScalarError>(out@),
        decreases raw.len() - i,
    {
        proof {
            assert(raw@.take(i + 1).drop_last() =~= raw@.take(i as int));
        }
        let item = &raw[i];
        match parse_scalar(item.2.as_str()) {
            Err(e) => {
                proof {
                    lemma_parse_entries_prefix(raw@, i + 1);
                }
                return Err(e);
            },
            Ok(x) => {
                out.push((item.0, item.1, x.bytes));
            },
        }
        i = i + 1;
    }
    proof {
        assert(raw@.take(raw.len() as int) =~= raw@);
    }
    Ok(out)
}

} // verus!
