//! Error taxonomy. Every error ends the operation that raised it: the
//! conversion is deterministic, so the same input fails the same way again.

use vstd::prelude::*;

verus! {

/// A container file that does not follow its format.
#[derive(Clone, Copy, Debug, PartialEq, Eq)]
pub enum ParseError {
    /// The first four bytes are not the format's tag.
    BadMagic,
    /// The version field holds a version that the reader does not know.
    UnsupportedVersion { found: u32 },
    /// The input ends before a declared field, record or section does.
    TruncatedInput,
    /// A section of a type that the format does not define, or out of place.
    UnknownSection { ty: u32 },
    /// A second section of a type that may occur only once.
    DuplicateSection { ty: u32 },
    /// The file ends without a section that the format requires.
    MissingSection { ty: u32 },
    /// A section declares a size that its type does not allow.
    BadSectionSize { ty: u32, size: u64 },
    /// More sections are declared than the format allows.
    TooManySections { found: u32 },
    /// The constraint section holds another number of records than the header declares.
    ConstraintCountMismatch { declared: u32, counted: usize },
    /// A term names a wire at or beyond the declared number of wires.
    WireIndexOutOfRange { wire_id: u32, n_wires: u32 },
}

/// Field bytes that the codec does not accept.
#[derive(Clone, Copy, Debug, PartialEq, Eq)]
pub enum EncodingError {
    /// The bytes denote a number at or above the modulus.
    NonCanonicalValue,
    /// The file declares another element width than the codec's.
    ByteWidthMismatch { declared: u32 },
}

/// A witness that does not fit the constraint system it is paired with.
#[derive(Clone, Copy, Debug, PartialEq, Eq)]
pub enum InconsistentWitnessError {
    /// The witness holds another number of elements than there are wires.
    WitnessLengthMismatch { n_wires: usize, n_elements: usize },
    /// Wire 0 does not hold the field's one.
    ConstantWireNotOne,
}

/// Counts from which no index relabelling can be derived.
#[derive(Clone, Copy, Debug, PartialEq, Eq)]
pub enum RemapInvariantError {
    /// The declared wires do not even cover the constant, the outputs and the inputs.
    NegativeInternalVars { n_wires: u32, required: u64 },
    /// A wire index outside the source numbering.
    IndexOutOfRange { index: usize, bound: usize },
}

/// A remapped instance that the backend does not take.
#[derive(Clone, Copy, Debug, PartialEq, Eq)]
pub enum InstanceConstructionError {
    /// The dimensions exceed what the backend can pad to a power of two.
    DimensionTooLarge,
    /// More outputs are claimed than the instance has variables.
    TooManyOutputs,
    /// A matrix entry lies outside the declared rows or columns.
    InvalidIndex,
    /// A value is not a canonical scalar of the backend's field.
    InvalidScalar,
    /// The backend refused the instance or an assignment.
    BackendRejected,
}

/// Any failure of the conversion.
#[derive(Clone, Copy, Debug, PartialEq, Eq)]
pub enum CoreError {
    Parse(ParseError),
    Encoding(EncodingError),
    InconsistentWitness(InconsistentWitnessError),
    RemapInvariant(RemapInvariantError),
    InstanceConstruction(InstanceConstructionError),
}

} // verus!
