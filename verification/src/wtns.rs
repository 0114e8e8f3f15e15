//! Witness-file reader: the compiler's binary witness container.
//!
//! Layout, every integer little-endian: the tag `wtns`, a 32-bit version (at
//! most 2), a 32-bit section count (at most 2), then a header section (type
//! 1, 40 bytes: element width, prime, number of elements) and a witness
//! section (type 2) that holds the elements, 32 bytes each, by wire id.

use crate::error::{CoreError, EncodingError, ParseError};
use crate::field::{FieldConfig, FieldElement};
use crate::le::{field_at, read_field, read_u32, read_u64, u32_at, u64_at};
use vstd::prelude::*;

verus! {

/// Section type of the witness file's header.
pub const WTNS_SECTION_HEADER: u32 = 1;

/// Section type of the witness values.
pub const WTNS_SECTION_VALUES: u32 = 2;

/// A decoded witness file: the value of every wire, by wire id.
#[derive(Clone, Debug, PartialEq, Eq)]
pub struct Witness {
    pub field_byte_width: u32,
    pub prime: [u8; 32],
    pub values: Vec<FieldElement>,
}

/// A witness file as a mathematical value: its prime and its elements.
pub struct WitnessLayout {
    pub prime: [u8; 32],
    pub values: Seq<FieldElement>,
}

/// Whether the string starts with the tag `wtns`.
pub open spec fn has_wtns_magic(s: Seq<u8>) -> bool {
    s.len() >= 4 && s[0] == 0x77 && s[1] == 0x74 && s[2] == 0x6e && s[3] == 0x73
}

/// The elements stored from position 76 on.
pub open spec fn values_at(s: Seq<u8>, n: nat) -> Seq<FieldElement> {
    Seq::new(n, |i: int| FieldElement { bytes: field_at(s, 76 + 32 * i) })
}

/// The prime and the elements that a witness file holds, or the first thing
/// that is wrong with its layout.
pub open spec fn spec_read_wtns_layout(s: Seq<u8>) -> Result<WitnessLayout, CoreError> {
    if s.len() < 4 {
        Err(CoreError::Parse(ParseError::TruncatedInput))
    } else if !has_wtns_magic(s) {
        Err(CoreError::Parse(ParseError::BadMagic))
    } else if s.len() < 8 {
        Err(CoreError::Parse(ParseError::TruncatedInput))
    } else if u32_at(s, 4) > 2 {
        Err(CoreError::Parse(ParseError::UnsupportedVersion { found: u32_at(s, 4) as u32 }))
    } else if s.len() < 12 {
        Err(CoreError::Parse(ParseError::TruncatedInput))
    } else if u32_at(s, 8) > 2 {
        Err(CoreError::Parse(ParseError::TooManySections { found: u32_at(s, 8) as u32 }))
    } else if s.len() < 16 {
        Err(CoreError::Parse(ParseError::TruncatedInput))
    } else if u32_at(s, 12) != WTNS_SECTION_HEADER {
        Err(CoreError::Parse(ParseError::UnknownSection { ty: u32_at(s, 12) as u32 }))
    } else if s.len() < 24 {
        Err(CoreError::Parse(ParseError::TruncatedInput))
    } else if u64_at(s, 16) != 40 {
        Err(
            CoreError::Parse(
                ParseError::BadSectionSize { ty: WTNS_SECTION_HEADER, size: u64_at(s, 16) as u64 },
            ),
        )
    } else if s.len() < 60 {
        Err(CoreError::Parse(ParseError::TruncatedInput))
    } else if u32_at(s, 24) != 32 {
        Err(CoreError::Encoding(EncodingError::ByteWidthMismatch { declared: u32_at(s, 24) as u32 }))
    } else if s.len() < 68 {
        Err(CoreError::Parse(ParseError::TruncatedInput))
    } else if u32_at(s, 64) != WTNS_SECTION_VALUES {
        Err(CoreError::Parse(ParseError::UnknownSection { ty: u32_at(s, 64) as u32 }))
    } else if s.len() < 76 {
        Err(CoreError::Parse(ParseError::TruncatedInput))
    } else if u64_at(s, 68) != 32 * u32_at(s, 60) {
        Err(
            CoreError::Parse(
                ParseError::BadSectionSize { ty: WTNS_SECTION_VALUES, size: u64_at(s, 68) as u64 },
            ),
        )
    } else if s.len() < 76 + 32 * u32_at(s, 60) {
        Err(CoreError::Parse(ParseError::TruncatedInput))
    } else {
        Ok(WitnessLayout { prime: field_at(s, 28), values: values_at(s, u32_at(s, 60)) })
    }
}

/// Every element of the witness is an element of the field.
pub open spec fn witness_canonical(values: Seq<FieldElement>, cfg: FieldConfig) -> bool {
    forall|i: int| 0 <= i < values.len() ==> cfg.canonical((#[trigger] values[i]).bytes@)
}

/// The witness that a witness file holds over the given field, or the first
/// thing that is wrong with the file.
pub open spec fn spec_parse_wtns(s: Seq<u8>, cfg: FieldConfig) -> Result<WitnessLayout, CoreError> {
    match spec_read_wtns_layout(s) {
        Err(e) => Err(e),
        Ok(w) => if witness_canonical(w.values, cfg) {
            Ok(w)
        } else {
            Err(CoreError::Encoding(EncodingError::NonCanonicalValue))
        },
    }
}

impl Witness {
    /// The witness as a mathematical value.
    pub open spec fn layout(&self) -> WitnessLayout {
        WitnessLayout { prime: self.prime, values: self.values@ }
    }
}

/// Reads a witness file's elements as they stand in the file.
pub fn read_wtns_layout(bytes: &[u8]) -> (r: Result<Witness, CoreError>)
    ensures
        match r {
            Ok(w) => spec_read_wtns_layout(bytes@) == Ok::<WitnessLayout, CoreError>(w.layout())
                && w.field_byte_width == 32,
            Err(e) => spec_read_wtns_layout(bytes@) == Err::<WitnessLayout, CoreError>(e),
        },
{
    let len: usize = bytes.len();
    if len < 4 {
        return Err(CoreError::Parse(ParseError::TruncatedInput));
    }
    if !(bytes[0] == 0x77 && bytes[1] == 0x74 && bytes[2] == 0x6e && bytes[3] == 0x73) {
        return Err(CoreError::Parse(ParseError::BadMagic));
    }
    if len < 8 {
        return Err(CoreError::Parse(ParseError::TruncatedInput));
    }
    let version: u32 = read_u32(bytes, 4);
    if version > 2 {
        return Err(CoreError::Parse(ParseError::UnsupportedVersion { found: version }));
    }
    if len < 12 {
        return Err(CoreError::Parse(ParseError::TruncatedInput));
    }
    let n_sections: u32 = read_u32(bytes, 8);
    if n_sections > 2 {
        return Err(CoreError::Parse(ParseError::TooManySections { found: n_sections }));
    }
    if len < 16 {
        return Err(CoreError::Parse(ParseError::TruncatedInput));
    }
    let ty: u32 = read_u32(bytes, 12);
    if ty != WTNS_SECTION_HEADER {
        return Err(CoreError::Parse(ParseError::UnknownSection { ty }));
    }
    if len < 24 {
        return Err(CoreError::Parse(ParseError::TruncatedInput));
    }
    let size: u64 = read_u64(bytes, 16);
    if size != 40 {
        return Err(CoreError::Parse(ParseError::BadSectionSize { ty: WTNS_SECTION_HEADER, size }));
    }
    if len < 60 {
        return Err(CoreError::Parse(ParseError::TruncatedInput));
    }
    let width: u32 = read_u32(bytes, 24);
    let prime: [u8; 32] = read_field(bytes, 28);
    if width != 32 {
        return Err(CoreError::Encoding(EncodingError::ByteWidthMismatch { declared: width }));
    }
    if len < 68 {
        return Err(CoreError::Parse(ParseError::TruncatedInput));
    }
    let n: u32 = read_u32(bytes, 60);
    let ty: u32 = read_u32(bytes, 64);
    if ty != WTNS_SECTION_VALUES {
        return Err(CoreError::Parse(ParseError::UnknownSection { ty }));
    }
    if len < 76 {
        return Err(CoreError::Parse(ParseError::TruncatedInput));
    }
    let size: u64 = read_u64(bytes, 68);
    if size != 32 * (n as u64) {
        return Err(CoreError::Parse(ParseError::BadSectionSize { ty: WTNS_SECTION_VALUES, size }));
    }
    if ((len - 76) as u64) < 32 * (n as u64) {
        return Err(CoreError::Parse(ParseError::TruncatedInput));
    }
    let count: usize = n as usize;
    let mut values: Vec<FieldElement> = Vec::new();
    let mut i: usize = 0;
    while i < count
        invariant
            i <= count,
            76 + 32 * count <= bytes.len(),
            values@.len() == i,
            forall|k: int|
                0 <= k < i ==> values@[k] == (FieldElement { bytes: field_at(bytes@, 76 + 32 * k) }),
        decreases count - i,
    {
        values.push(FieldElement { bytes: read_field(bytes, 76 + 32 * i) });
        i = i + 1;
    }
    assert(values@ =~= values_at(bytes@, n as nat));
    Ok(Witness { field_byte_width: width, prime, values })
}

/// Whether every element is an element of the field.
pub fn all_in_field(values: &Vec<FieldElement>, cfg: &FieldConfig) -> (ok: bool)
    ensures
        ok == witness_canonical(values@, *cfg),
{
    let mut i: usize = 0;
    while i < values.len()
        invariant
            i <= values.len(),
            forall|k: int| 0 <= k < i ==> cfg.canonical((#[trigger] values@[k]).bytes@),
        decreases values.len() - i,
    {
        if !cfg.is_canonical(&values[i].bytes) {
            return false;
        }
        i = i + 1;
    }
    true
}

/// Reads a witness file over the given field: the value of every wire, by
/// wire id, each an element of the field.
pub fn parse_wtns(bytes: &[u8], cfg: &FieldConfig) -> (r: Result<Witness, CoreError>)
    ensures
        match r {
            Ok(w) => spec_parse_wtns(bytes@, *cfg) == Ok::<WitnessLayout, CoreError>(w.layout()),
            Err(e) => spec_parse_wtns(bytes@, *cfg) == Err::<WitnessLayout, CoreError>(e),
        },
        r matches Ok(w) ==> witness_canonical(w.values@, *cfg),
{
    let w = match read_wtns_layout(bytes) {
        Err(e) => { return Err(e); },
        Ok(w) => w,
    };
    if all_in_field(&w.values, cfg) {
        Ok(w)
    } else {
        Err(CoreError::Encoding(EncodingError::NonCanonicalValue))
    }
}

} // verus!
