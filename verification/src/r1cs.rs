//! Constraint-file reader: the compiler's binary constraint container.
//!
//! Layout, every integer little-endian: the tag `r1cs`, a 32-bit version
//! (1), a 32-bit section count, then the sections. A section is a 32-bit
//! type, a 64-bit size and its body. Type 1 is the header (64 bytes: element
//! width, prime, wires, public outputs, public inputs, private inputs, labels
//! as 64 bits, constraints). Type 2 holds the constraints back to back, each
//! three linear combinations, each a 32-bit term count and that many pairs of
//! a 32-bit wire id and a 32-byte coefficient. Type 3 maps wires to labels, 64
//! bits each. Each type occurs once, in any order; bytes after the last
//! declared section are not read.

use crate::error::{CoreError, EncodingError, ParseError};
use crate::field::{FieldConfig, FieldElement};
use crate::le::{field_at, read_field, read_u32, read_u64, u32_at, u64_at};
use vstd::prelude::*;

verus! {

/// Section type of the header.
pub const SECTION_HEADER: u32 = 1;

/// Section type of the constraints.
pub const SECTION_CONSTRAINTS: u32 = 2;

/// Section type of the wire-to-label map.
pub const SECTION_LABELS: u32 = 3;

/// The counts that a constraint file declares.
#[derive(Clone, Copy, Debug, PartialEq, Eq)]
pub struct Header {
    pub field_byte_width: u32,
    pub prime: [u8; 32],
    pub n_wires: u32,
    pub n_public_outputs: u32,
    pub n_public_inputs: u32,
    pub n_private_inputs: u32,
    pub n_constraints: u32,
    pub n_labels: u64,
}

/// One summand of a linear combination: a coefficient times a wire.
#[derive(Clone, Copy, Debug, PartialEq, Eq)]
pub struct Term {
    pub wire_id: u32,
    pub coefficient: FieldElement,
}

/// A weighted sum of wires, in file order. A wire may occur more than once:
/// its coefficients then add up.
pub type LinearCombination = Vec<Term>;

/// The constraint `(a . z) * (b . z) = (c . z)` over the witness `z`.
#[derive(Clone, Debug, PartialEq, Eq)]
pub struct Constraint {
    pub a: LinearCombination,
    pub b: LinearCombination,
    pub c: LinearCombination,
}

/// A constraint as a mathematical value.
pub struct ConstraintView {
    pub a: Seq<Term>,
    pub b: Seq<Term>,
    pub c: Seq<Term>,
}

impl View for Constraint {
    type V = ConstraintView;

    open spec fn view(&self) -> ConstraintView {
        ConstraintView { a: self.a@, b: self.b@, c: self.c@ }
    }
}

/// The constraints of a vector as mathematical values.
pub open spec fn constraints_view(cs: Seq<Constraint>) -> Seq<ConstraintView> {
    Seq::new(cs.len(), |k: int| cs[k]@)
}

/// A decoded constraint file.
#[derive(Clone, Debug, PartialEq, Eq)]
pub struct ConstraintSystem {
    pub header: Header,
    pub constraints: Vec<Constraint>,
}

impl ConstraintSystem {
    /// The constraints as mathematical values.
    pub open spec fn rows(&self) -> Seq<ConstraintView> {
        constraints_view(self.constraints@)
    }
}

/// What has been read of each type of section.
pub struct Sections {
    pub header: Option<Header>,
    pub constraints: Option<Seq<ConstraintView>>,
    pub labels: bool,
}

/// The term stored at `at`.
pub open spec fn term_at(s: Seq<u8>, at: int) -> Term {
    Term {
        wire_id: u32_at(s, at) as u32,
        coefficient: FieldElement { bytes: field_at(s, at + 4) },
    }
}

/// The linear combination stored at `at` and the position after it, if it ends by `end`.
pub open spec fn lc_at(s: Seq<u8>, at: int, end: int) -> Option<(Seq<Term>, int)> {
    if at + 4 > end {
        None
    } else {
        let n = u32_at(s, at);
        if at + 4 + 36 * n > end {
            None
        } else {
            Some((Seq::new(n, |j: int| term_at(s, at + 4 + 36 * j)), at + 4 + 36 * n))
        }
    }
}

/// The constraint stored at `at` and the position after it, if it ends by `end`.
pub open spec fn constraint_at(s: Seq<u8>, at: int, end: int) -> Option<(ConstraintView, int)> {
    match lc_at(s, at, end) {
        None => None,
        Some((a, after_a)) => match lc_at(s, after_a, end) {
            None => None,
            Some((b, after_b)) => match lc_at(s, after_b, end) {
                None => None,
                Some((c, after_c)) => Some((ConstraintView { a, b, c }, after_c)),
            },
        },
    }
}

/// The constraints that fill `[at, end)` exactly, if they do.
pub open spec fn constraints_in(s: Seq<u8>, at: int, end: int) -> Option<Seq<ConstraintView>>
    decreases end - at,
{
    if at >= end {
        Some(Seq::empty())
    } else {
        match constraint_at(s, at, end) {
            None => None,
            Some((c, next)) => if next <= at {
                None
            } else {
                match constraints_in(s, next, end) {
                    None => None,
                    Some(rest) => Some(seq![c] + rest),
                }
            },
        }
    }
}

/// The header stored at `at`.
pub open spec fn header_at(s: Seq<u8>, at: int) -> Header {
    Header {
        field_byte_width: u32_at(s, at) as u32,
        prime: field_at(s, at + 4),
        n_wires: u32_at(s, at + 36) as u32,
        n_public_outputs: u32_at(s, at + 40) as u32,
        n_public_inputs: u32_at(s, at + 44) as u32,
        n_private_inputs: u32_at(s, at + 48) as u32,
        n_labels: u64_at(s, at + 52) as u64,
        n_constraints: u32_at(s, at + 60) as u32,
    }
}

/// Reads the section that starts at `at` into what was read before, and gives the position after it.
pub open spec fn section_at(s: Seq<u8>, at: int, acc: Sections) -> Result<(Sections, int), CoreError> {
    if at + 12 > s.len() {
        Err(CoreError::Parse(ParseError::TruncatedInput))
    } else {
        let ty = u32_at(s, at) as u32;
        let size = u64_at(s, at + 4) as u64;
        let body = at + 12;
        if ty == SECTION_HEADER {
            if acc.header is Some {
                Err(CoreError::Parse(ParseError::DuplicateSection { ty }))
            } else if body + 4 > s.len() {
                Err(CoreError::Parse(ParseError::TruncatedInput))
            } else if u32_at(s, body) != 32 {
                Err(
                    CoreError::Encoding(
                        EncodingError::ByteWidthMismatch { declared: u32_at(s, body) as u32 },
                    ),
                )
            } else if size != 64 {
                Err(CoreError::Parse(ParseError::BadSectionSize { ty, size }))
            } else if body + 64 > s.len() {
                Err(CoreError::Parse(ParseError::TruncatedInput))
            } else {
                Ok(
                    (
                        Sections {
                            header: Some(header_at(s, body)),
                            constraints: acc.constraints,
                            labels: acc.labels,
                        },
                        body + 64,
                    ),
                )
            }
        } else if ty == SECTION_CONSTRAINTS {
            if acc.constraints is Some {
                Err(CoreError::Parse(ParseError::DuplicateSection { ty }))
            } else if body + size > s.len() {
                Err(CoreError::Parse(ParseError::TruncatedInput))
            } else {
                match constraints_in(s, body, body + size) {
                    None => Err(CoreError::Parse(ParseError::TruncatedInput)),
                    Some(cs) => Ok(
                        (
                            Sections { header: acc.header, constraints: Some(cs), labels: acc.labels },
                            body + size,
                        ),
                    ),
                }
            }
        } else if ty == SECTION_LABELS {
            if acc.labels {
                Err(CoreError::Parse(ParseError::DuplicateSection { ty }))
            } else if size % 8 != 0 {
                Err(CoreError::Parse(ParseError::BadSectionSize { ty, size }))
            } else if body + size > s.len() {
                Err(CoreError::Parse(ParseError::TruncatedInput))
            } else {
                Ok(
                    (
                        Sections { header: acc.header, constraints: acc.constraints, labels: true },
                        body + size,
                    ),
                )
            }
        } else {
            Err(CoreError::Parse(ParseError::UnknownSection { ty }))
        }
    }
}

/// Reads `remaining` sections from `at` on.
pub open spec fn sections_from(s: Seq<u8>, at: int, remaining: nat, acc: Sections) -> Result<
    Sections,
    CoreError,
>
    decreases remaining,
{
    if remaining == 0 {
        Ok(acc)
    } else {
        match section_at(s, at, acc) {
            Err(e) => Err(e),
            Ok((acc2, next)) => sections_from(s, next, (remaining - 1) as nat, acc2),
        }
    }
}

/// Whether the string starts with the tag `r1cs`.
pub open spec fn has_r1cs_magic(s: Seq<u8>) -> bool {
    s.len() >= 4 && s[0] == 0x72 && s[1] == 0x31 && s[2] == 0x63 && s[3] == 0x73
}

/// What a file holds once its sections are read: all three kinds must be there.
pub open spec fn sections_result(r: Result<Sections, CoreError>) -> Result<
    (Header, Seq<ConstraintView>),
    CoreError,
> {
    match r {
        Err(e) => Err(e),
        Ok(secs) => if secs.header is None {
            Err(CoreError::Parse(ParseError::MissingSection { ty: SECTION_HEADER }))
        } else if secs.constraints is None {
            Err(CoreError::Parse(ParseError::MissingSection { ty: SECTION_CONSTRAINTS }))
        } else if !secs.labels {
            Err(CoreError::Parse(ParseError::MissingSection { ty: SECTION_LABELS }))
        } else {
            Ok((secs.header->0, secs.constraints->0))
        },
    }
}

/// The header and the constraints that a constraint file holds, or the first
/// thing that is wrong with its layout.
pub open spec fn spec_read_layout(s: Seq<u8>) -> Result<(Header, Seq<ConstraintView>), CoreError> {
    if s.len() < 4 {
        Err(CoreError::Parse(ParseError::TruncatedInput))
    } else if !has_r1cs_magic(s) {
        Err(CoreError::Parse(ParseError::BadMagic))
    } else if s.len() < 8 {
        Err(CoreError::Parse(ParseError::TruncatedInput))
    } else if u32_at(s, 4) != 1 {
        Err(CoreError::Parse(ParseError::UnsupportedVersion { found: u32_at(s, 4) as u32 }))
    } else if s.len() < 12 {
        Err(CoreError::Parse(ParseError::TruncatedInput))
    } else {
        sections_result(
            sections_from(
                s,
                12,
                u32_at(s, 8),
                Sections { header: None, constraints: None, labels: false },
            ),
        )
    }
}

/// Reads the linear combination stored at `at`, within the window that ends at `end`.
fn read_lc(bytes: &[u8], at: usize, end: usize) -> (r: Option<(Vec<Term>, usize)>)
    requires
        at <= end <= bytes.len(),
    ensures
        r is None <==> lc_at(bytes@, at as int, end as int) is None,
        r matches Some((terms, next)) ==> lc_at(bytes@, at as int, end as int) == Some(
            (terms@, next as int),
        ) && at + 4 <= next <= end,
{
    if end - at < 4 {
        return None;
    }
    let n: u32 = read_u32(bytes, at);
    let room: u64 = (end - at - 4) as u64;
    if 36 * (n as u64) > room {
        return None;
    }
    let count: usize = n as usize;
    let first: usize = at + 4;
    let mut terms: Vec<Term> = Vec::new();
    let mut j: usize = 0;
    while j < count
        invariant
            j <= count,
            first == at + 4,
            first + 36 * count <= end,
            end <= bytes.len(),
            terms@.len() == j,
            forall|k: int| 0 <= k < j ==> terms@[k] == term_at(bytes@, first + 36 * k),
        decreases count - j,
    {
        let pos: usize = first + 36 * j;
        let wire_id: u32 = read_u32(bytes, pos);
        let coefficient = FieldElement { bytes: read_field(bytes, pos + 4) };
        terms.push(Term { wire_id, coefficient });
        j = j + 1;
    }
    assert(terms@ =~= Seq::new(n as nat, |j: int| term_at(bytes@, at + 4 + 36 * j)));
    Some((terms, first + 36 * count))
}

/// Reads the constraint stored at `at`, within the window that ends at `end`.
fn read_constraint(bytes: &[u8], at: usize, end: usize) -> (r: Option<(Constraint, usize)>)
    requires
        at <= end <= bytes.len(),
    ensures
        r is None <==> constraint_at(bytes@, at as int, end as int) is None,
        r matches Some((c, next)) ==> constraint_at(bytes@, at as int, end as int) == Some(
            (c@, next as int),
        ) && at + 12 <= next <= end,
{
    let (a, after_a) = match read_lc(bytes, at, end) {
        None => { return None; },
        Some(x) => x,
    };
    let (b, after_b) = match read_lc(bytes, after_a, end) {
        None => { return None; },
        Some(x) => x,
    };
    let (c, after_c) = match read_lc(bytes, after_b, end) {
        None => { return None; },
        Some(x) => x,
    };
    Some((Constraint { a, b, c }, after_c))
}

/// Reads the constraints that fill the window `[at, end)`.
fn read_constraints(bytes: &[u8], at: usize, end: usize) -> (r: Option<Vec<Constraint>>)
    requires
        at <= end <= bytes.len(),
    ensures
        r is None <==> constraints_in(bytes@, at as int, end as int) is None,
        r matches Some(cs) ==> constraints_in(bytes@, at as int, end as int) == Some(
            constraints_view(cs@),
        ),
{
    let mut out: Vec<Constraint> = Vec::new();
    let mut pos: usize = at;
    while pos < end
        invariant
            at <= pos <= end,
            end <= bytes.len(),
            constraints_in(bytes@, at as int, end as int) == match constraints_in(
                bytes@,
                pos as int,
                end as int,
            ) {
                None => None,
                Some(rest) => Some(constraints_view(out@) + rest),
            },
        decreases end - pos,
    {
        match read_constraint(bytes, pos, end) {
            None => {
                return None;
            },
            Some((c, next)) => {
                proof {
                    let done = constraints_view(out@);
                    let more = constraints_view(out@.push(c));
                    assert(more =~= done + seq![c@]);
                    match constraints_in(bytes@, next as int, end as int) {
                        None => {},
                        Some(rest) => {
                            assert(done + (seq![c@] + rest) =~= more + rest);
                        },
                    }
                }
                out.push(c);
                pos = next;
            },
        }
    }
    proof {
        assert(constraints_view(out@) + Seq::<ConstraintView>::empty() =~= constraints_view(out@));
    }
    Some(out)
}

/// Reads the header stored at `at`.
fn read_header(bytes: &[u8], at: usize) -> (h: Header)
    requires
        at + 64 <= bytes.len(),
    ensures
        h == header_at(bytes@, at as int),
{
    Header {
        field_byte_width: read_u32(bytes, at),
        prime: read_field(bytes, at + 4),
        n_wires: read_u32(bytes, at + 36),
        n_public_outputs: read_u32(bytes, at + 40),
        n_public_inputs: read_u32(bytes, at + 44),
        n_private_inputs: read_u32(bytes, at + 48),
        n_labels: read_u64(bytes, at + 52),
        n_constraints: read_u32(bytes, at + 60),
    }
}

/// What the reader holds after some sections.
pub open spec fn sections_read(
    header: Option<Header>,
    constraints: Option<Vec<Constraint>>,
    labels: bool,
) -> Sections {
    Sections {
        header,
        constraints: match constraints {
            None => None,
            Some(cs) => Some(constraints_view(cs@)),
        },
        labels,
    }
}

/// Reads a constraint file's header and constraints, as they stand in the file.
pub fn read_r1cs(bytes: &[u8]) -> (r: Result<ConstraintSystem, CoreError>)
    ensures
        match r {
            Ok(sys) => spec_read_layout(bytes@) == Ok::<(Header, Seq<ConstraintView>), CoreError>(
                (sys.header, sys.rows()),
            ),
            Err(e) => spec_read_layout(bytes@) == Err::<(Header, Seq<ConstraintView>), CoreError>(e),
        },
{
    let len: usize = bytes.len();
    if len < 4 {
        return Err(CoreError::Parse(ParseError::TruncatedInput));
    }
    if !(bytes[0] == 0x72 && bytes[1] == 0x31 && bytes[2] == 0x63 && bytes[3] == 0x73) {
        return Err(CoreError::Parse(ParseError::BadMagic));
    }
    if len < 8 {
        return Err(CoreError::Parse(ParseError::TruncatedInput));
    }
    let version: u32 = read_u32(bytes, 4);
    if version != 1 {
        return Err(CoreError::Parse(ParseError::UnsupportedVersion { found: version }));
    }
    if len < 12 {
        return Err(CoreError::Parse(ParseError::TruncatedInput));
    }
    let n_sections: u32 = read_u32(bytes, 8);
    let mut header: Option<Header> = None;
    let mut constraints: Option<Vec<Constraint>> = None;
    let mut labels: bool = false;
    let mut pos: usize = 12;
    let mut k: u32 = 0;
    while k < n_sections
        invariant
            k <= n_sections,
            12 <= pos <= len,
            len == bytes.len(),
            spec_read_layout(bytes@) == sections_result(
                sections_from(
                    bytes@,
                    pos as int,
                    (n_sections - k) as nat,
                    sections_read(header, constraints, labels),
                ),
            ),
        decreases n_sections - k,
    {
        let ghost acc = sections_read(header, constraints, labels);
        if len - pos < 12 {
            return Err(CoreError::Parse(ParseError::TruncatedInput));
        }
        let ty: u32 = read_u32(bytes, pos);
        let size: u64 = read_u64(bytes, pos + 4);
        let body: usize = pos + 12;
        let room: u64 = (len - body) as u64;
        if ty == SECTION_HEADER {
            if header.is_some() {
                return Err(CoreError::Parse(ParseError::DuplicateSection { ty }));
            }
            if room < 4 {
                return Err(CoreError::Parse(ParseError::TruncatedInput));
            }
            let width: u32 = read_u32(bytes, body);
            if width != 32 {
                return Err(CoreError::Encoding(EncodingError::ByteWidthMismatch { declared: width }));
            }
            if size != 64 {
                return Err(CoreError::Parse(ParseError::BadSectionSize { ty, size }));
            }
            if room < 64 {
                return Err(CoreError::Parse(ParseError::TruncatedInput));
            }
            header = Some(read_header(bytes, body));
            pos = body + 64;
        } else if ty == SECTION_CONSTRAINTS {
            if constraints.is_some() {
                return Err(CoreError::Parse(ParseError::DuplicateSection { ty }));
            }
            if size > room {
                return Err(CoreError::Parse(ParseError::TruncatedInput));
            }
            let end: usize = body + size as usize;
            match read_constraints(bytes, body, end) {
                None => {
                    return Err(CoreError::Parse(ParseError::TruncatedInput));
                },
                Some(cs) => {
                    constraints = Some(cs);
                },
            }
            pos = end;
        } else if ty == SECTION_LABELS {
            if labels {
                return Err(CoreError::Parse(ParseError::DuplicateSection { ty }));
            }
            if size % 8 != 0 {
                return Err(CoreError::Parse(ParseError::BadSectionSize { ty, size }));
            }
            if size > room {
                return Err(CoreError::Parse(ParseError::TruncatedInput));
            }
            labels = true;
            pos = body + size as usize;
        } else {
            return Err(CoreError::Parse(ParseError::UnknownSection { ty }));
        }
        k = k + 1;
    }
    match (header, constraints) {
        (None, _) => Err(CoreError::Parse(ParseError::MissingSection { ty: SECTION_HEADER })),
        (Some(_), None) => Err(
            CoreError::Parse(ParseError::MissingSection { ty: SECTION_CONSTRAINTS }),
        ),
        (Some(header), Some(constraints)) => {
            if !labels {
                Err(CoreError::Parse(ParseError::MissingSection { ty: SECTION_LABELS }))
            } else {
                Ok(ConstraintSystem { header, constraints })
            }
        },
    }
}

/// The first wire of a linear combination that lies at or beyond `n_wires`, if there is one.
pub open spec fn lc_bad_wire(lc: Seq<Term>, n_wires: u32) -> Option<u32>
    decreases lc.len(),
{
    if lc.len() == 0 {
        None
    } else {
        match lc_bad_wire(lc.drop_last(), n_wires) {
            Some(w) => Some(w),
            None => if lc.last().wire_id >= n_wires {
                Some(lc.last().wire_id)
            } else {
                None
            },
        }
    }
}

/// The first such wire of a constraint, its combinations taken in the order a, b, c.
pub open spec fn constraint_bad_wire(c: ConstraintView, n_wires: u32) -> Option<u32> {
    match lc_bad_wire(c.a, n_wires) {
        Some(w) => Some(w),
        None => match lc_bad_wire(c.b, n_wires) {
            Some(w) => Some(w),
            None => lc_bad_wire(c.c, n_wires),
        },
    }
}

/// The first such wire of a constraint system, in file order.
pub open spec fn system_bad_wire(cs: Seq<ConstraintView>, n_wires: u32) -> Option<u32>
    decreases cs.len(),
{
    if cs.len() == 0 {
        None
    } else {
        match system_bad_wire(cs.drop_last(), n_wires) {
            Some(w) => Some(w),
            None => constraint_bad_wire(cs.last(), n_wires),
        }
    }
}

/// Every wire of the linear combination lies below `n_wires`.
pub open spec fn lc_in_range(lc: Seq<Term>, n_wires: nat) -> bool {
    forall|j: int| 0 <= j < lc.len() ==> (#[trigger] lc[j]).wire_id < n_wires
}

/// Every wire of the system lies below `n_wires`.
pub open spec fn wires_in_range(cs: Seq<ConstraintView>, n_wires: nat) -> bool {
    forall|k: int|
        0 <= k < cs.len() ==> lc_in_range((#[trigger] cs[k]).a, n_wires) && lc_in_range(
            cs[k].b,
            n_wires,
        ) && lc_in_range(cs[k].c, n_wires)
}

/// Every coefficient of the linear combination is an element of the field.
pub open spec fn lc_canonical(lc: Seq<Term>, cfg: FieldConfig) -> bool {
    forall|j: int| 0 <= j < lc.len() ==> cfg.canonical((#[trigger] lc[j]).coefficient.bytes@)
}

/// Every coefficient of the system is an element of the field.
pub open spec fn system_canonical(cs: Seq<ConstraintView>, cfg: FieldConfig) -> bool {
    forall|k: int|
        0 <= k < cs.len() ==> lc_canonical((#[trigger] cs[k]).a, cfg) && lc_canonical(cs[k].b, cfg)
            && lc_canonical(cs[k].c, cfg)
}

/// A linear combination has a wire out of range exactly if not all are in range.
pub proof fn lemma_lc_bad_wire(lc: Seq<Term>, n_wires: u32)
    ensures
        lc_bad_wire(lc, n_wires) is None <==> lc_in_range(lc, n_wires as nat),
        lc_bad_wire(lc, n_wires) matches Some(w) ==> w >= n_wires,
    decreases lc.len(),
{
    if lc.len() > 0 {
        let front = lc.drop_last();
        lemma_lc_bad_wire(front, n_wires);
        if lc_in_range(lc, n_wires as nat) {
            assert forall|j: int| 0 <= j < front.len() implies (#[trigger] front[j]).wire_id
                < n_wires by {
                assert(front[j] == lc[j]);
            }
            assert(lc[lc.len() - 1].wire_id < n_wires);
        }
        if lc_bad_wire(lc, n_wires) is None {
            assert forall|j: int| 0 <= j < lc.len() implies (#[trigger] lc[j]).wire_id
                < n_wires by {
                if j < front.len() {
                    assert(front[j] == lc[j]);
                }
            }
        }
    }
}

/// A system has a wire out of range exactly if not all are in range.
pub proof fn lemma_system_bad_wire(cs: Seq<ConstraintView>, n_wires: u32)
    ensures
        system_bad_wire(cs, n_wires) is None <==> wires_in_range(cs, n_wires as nat),
        system_bad_wire(cs, n_wires) matches Some(w) ==> w >= n_wires,
    decreases cs.len(),
{
    if cs.len() > 0 {
        let front = cs.drop_last();
        let c = cs.last();
        lemma_system_bad_wire(front, n_wires);
        lemma_lc_bad_wire(c.a, n_wires);
        lemma_lc_bad_wire(c.b, n_wires);
        lemma_lc_bad_wire(c.c, n_wires);
        if wires_in_range(cs, n_wires as nat) {
            assert forall|k: int| 0 <= k < front.len() implies lc_in_range(
                (#[trigger] front[k]).a,
                n_wires as nat,
            ) && lc_in_range(front[k].b, n_wires as nat) && lc_in_range(
                front[k].c,
                n_wires as nat,
            ) by {
                assert(front[k] == cs[k]);
            }
            assert(cs[cs.len() - 1] == c);
        }
        if system_bad_wire(cs, n_wires) is None {
            assert forall|k: int| 0 <= k < cs.len() implies lc_in_range(
                (#[trigger] cs[k]).a,
                n_wires as nat,
            ) && lc_in_range(cs[k].b, n_wires as nat) && lc_in_range(cs[k].c, n_wires as nat) by {
                if k < front.len() {
                    assert(front[k] == cs[k]);
                }
            }
        }
    }
}

/// What remains to be checked once the layout is read: that the constraints
/// are as many as declared, that every wire is declared, and that every
/// coefficient is an element of the field. The first failure is reported.
pub open spec fn spec_validate(h: Header, cs: Seq<ConstraintView>, cfg: FieldConfig) -> Result<
    (),
    CoreError,
> {
    if cs.len() != h.n_constraints {
        Err(
            CoreError::Parse(
                ParseError::ConstraintCountMismatch {
                    declared: h.n_constraints,
                    counted: cs.len() as usize,
                },
            ),
        )
    } else {
        match system_bad_wire(cs, h.n_wires) {
            Some(w) => Err(
                CoreError::Parse(ParseError::WireIndexOutOfRange { wire_id: w, n_wires: h.n_wires }),
            ),
            None => if !system_canonical(cs, cfg) {
                Err(CoreError::Encoding(EncodingError::NonCanonicalValue))
            } else {
                Ok(())
            },
        }
    }
}

/// The constraint system that a constraint file holds over the given field,
/// or the first thing that is wrong with the file.
pub open spec fn spec_parse_r1cs(s: Seq<u8>, cfg: FieldConfig) -> Result<
    (Header, Seq<ConstraintView>),
    CoreError,
> {
    match spec_read_layout(s) {
        Err(e) => Err(e),
        Ok((h, cs)) => match spec_validate(h, cs, cfg) {
            Err(e) => Err(e),
            Ok(_) => Ok((h, cs)),
        },
    }
}

/// The first wire of the linear combination at or beyond `n_wires`.
fn find_bad_wire(lc: &Vec<Term>, n_wires: u32) -> (r: Option<u32>)
    ensures
        r == lc_bad_wire(lc@, n_wires),
{
    let mut found: Option<u32> = None;
    let mut j: usize = 0;
    while j < lc.len()
        invariant
            j <= lc.len(),
            found == lc_bad_wire(lc@.take(j as int), n_wires),
        decreases lc.len() - j,
    {
        proof {
            assert(lc@.take(j + 1).drop_last() =~= lc@.take(j as int));
        }
        if found.is_none() && lc[j].wire_id >= n_wires {
            found = Some(lc[j].wire_id);
        }
        j = j + 1;
    }
    proof {
        assert(lc@.take(lc.len() as int) =~= lc@);
    }
    found
}

/// Whether every coefficient of the linear combination is an element of the field.
fn all_canonical(lc: &Vec<Term>, cfg: &FieldConfig) -> (ok: bool)
    ensures
        ok == lc_canonical(lc@, *cfg),
{
    let mut j: usize = 0;
    while j < lc.len()
        invariant
            j <= lc.len(),
            forall|i: int| 0 <= i < j ==> cfg.canonical((#[trigger] lc@[i]).coefficient.bytes@),
        decreases lc.len() - j,
    {
        if !cfg.is_canonical(&lc[j].coefficient.bytes) {
            return false;
        }
        j = j + 1;
    }
    true
}

impl ConstraintSystem {
    /// Checks what `spec_validate` asks of a system whose layout was read.
    pub fn validate(&self, cfg: &FieldConfig) -> (r: Result<(), CoreError>)
        ensures
            r == spec_validate(self.header, self.rows(), *cfg),
    {
        let n: usize = self.constraints.len();
        if self.header.n_constraints as usize != n {
            return Err(
                CoreError::Parse(
                    ParseError::ConstraintCountMismatch {
                        declared: self.header.n_constraints,
                        counted: n,
                    },
                ),
            );
        }
        let n_wires: u32 = self.header.n_wires;
        let mut found: Option<u32> = None;
        let mut k: usize = 0;
        while k < n
            invariant
                k <= n,
                n == self.constraints.len(),
                n_wires == self.header.n_wires,
                found == system_bad_wire(self.rows().take(k as int), n_wires),
            decreases n - k,
        {
            proof {
                assert(self.rows().take(k + 1).drop_last() =~= self.rows().take(k as int));
            }
            if found.is_none() {
                let c = &self.constraints[k];
                found = find_bad_wire(&c.a, n_wires);
                if found.is_none() {
                    found = find_bad_wire(&c.b, n_wires);
                }
                if found.is_none() {
                    found = find_bad_wire(&c.c, n_wires);
                }
            }
            k = k + 1;
        }
        proof {
            assert(self.rows().take(n as int) =~= self.rows());
        }
        match found {
            Some(w) => {
                return Err(
                    CoreError::Parse(ParseError::WireIndexOutOfRange { wire_id: w, n_wires }),
                );
            },
            None => {},
        }
        let mut k: usize = 0;
        while k < n
            invariant
                k <= n,
                n == self.constraints.len(),
                n == self.header.n_constraints,
                system_bad_wire(self.rows(), self.header.n_wires) is None,
                forall|i: int|
                    0 <= i < k ==> lc_canonical((#[trigger] self.rows()[i]).a, *cfg)
                        && lc_canonical(self.rows()[i].b, *cfg) && lc_canonical(
                        self.rows()[i].c,
                        *cfg,
                    ),
            decreases n - k,
        {
            let c = &self.constraints[k];
            let ok = all_canonical(&c.a, cfg) && all_canonical(&c.b, cfg) && all_canonical(
                &c.c,
                cfg,
            );
            if !ok {
                proof {
                    assert(self.rows()[k as int] == c@);
                }
                return Err(CoreError::Encoding(EncodingError::NonCanonicalValue));
            }
            k = k + 1;
        }
        Ok(())
    }
}

/// Reads a constraint file over the given field: its header and its
/// constraints in file order, every wire declared and every coefficient an
/// element of the field.
pub fn parse_r1cs(bytes: &[u8], cfg: &FieldConfig) -> (r: Result<ConstraintSystem, CoreError>)
    ensures
        match r {
            Ok(sys) => spec_parse_r1cs(bytes@, *cfg) == Ok::<
                (Header, Seq<ConstraintView>),
                CoreError,
            >((sys.header, sys.rows())),
            Err(e) => spec_parse_r1cs(bytes@, *cfg) == Err::<
                (Header, Seq<ConstraintView>),
                CoreError,
            >(e),
        },
        r matches Ok(sys) ==> sys.rows().len() == sys.header.n_constraints && wires_in_range(
            sys.rows(),
            sys.header.n_wires as nat,
        ) && system_canonical(sys.rows(), *cfg),
{
    let sys = match read_r1cs(bytes) {
        Err(e) => { return Err(e); },
        Ok(sys) => sys,
    };
    match sys.validate(cfg) {
        Err(e) => Err(e),
        Ok(_) => {
            proof {
                lemma_system_bad_wire(sys.rows(), sys.header.n_wires);
            }
            Ok(sys)
        },
    }
}

/// Reading sections fails only with a parse or an encoding error.
pub proof fn lemma_sections_errors(s: Seq<u8>, at: int, remaining: nat, acc: Sections)
    ensures
        sections_from(s, at, remaining, acc) matches Err(e) ==> e is Parse || e is Encoding,
    decreases remaining,
{
    if remaining > 0 {
        match section_at(s, at, acc) {
            Err(e) => {},
            Ok((acc2, next)) => {
                lemma_sections_errors(s, next, (remaining - 1) as nat, acc2);
            },
        }
    }
}

/// Reading a constraint file fails only with a parse or an encoding error.
pub proof fn lemma_parse_r1cs_errors(s: Seq<u8>, cfg: FieldConfig)
    ensures
        spec_parse_r1cs(s, cfg) matches Err(e) ==> e is Parse || e is Encoding,
{
    if s.len() >= 12 {
        lemma_sections_errors(
            s,
            12,
            u32_at(s, 8),
            Sections { header: None, constraints: None, labels: false },
        );
    }
}

} // verus!
