//! Conversion of a compiled arithmetic circuit (a binary constraint file and a
//! binary witness file) into the sparse-matrix form that a proof backend takes.
//!
//! The two container formats are decoded byte by byte, every wire index
//! is relabelled from the compiler's numbering to the backend's, and the result
//! is handed to the backend unchanged in meaning: each contract says so over
//! mathematical models of the data.
//!
//! From the leaves up:
//! - [`field`]: the codec for 32-byte field elements;
//! - [`le`], [`r1cs`], [`wtns`], [`layout`]: the two file formats, read and written out;
//! - [`remap`]: the relabelling of wires and the proof that it is a bijection;
//! - [`matrix`], [`assignment`]: the relabelling applied to constraints and witness;
//! - [`instance`]: the conversion as a whole, [`satisfy`]: the proof that it
//!   keeps satisfiability;
//! - [`backend`], [`circuit`]: the hand-over to the backend;
//! - [`prepared`], [`scalar`], [`tiny`]: circuits given in the backend's own
//!   numbering, decimal scalars, and a toy system.

pub mod assignment;
pub mod backend;
pub mod circuit;
pub mod error;
pub mod field;
pub mod instance;
pub mod layout;
pub mod le;
pub mod matrix;
pub mod prepared;
pub mod r1cs;
pub mod remap;
pub mod satisfy;
pub mod scalar;
pub mod tiny;
pub mod wtns;
