//! The two container formats written out: what the bytes of a well-formed
//! file are, and the proof that the readers give back what was written.

use crate::error::CoreError;
use crate::field::{le_value, lemma_le_value_step, FieldElement};
use crate::le::{field_at, u32_at, u64_at};
use crate::r1cs::{
    constraint_at, constraints_in, header_at, lc_at, section_at, sections_from, spec_read_layout,
    term_at, ConstraintView, Header, Sections, Term,
};
use crate::wtns::{spec_read_wtns_layout, values_at, WitnessLayout};
use vstd::prelude::*;

verus! {

/// The four bytes of a 32-bit number, least significant first.
#[verifier::opaque]
pub open spec fn u32_le(x: u32) -> Seq<u8> {
    seq![
        (x % 256) as u8,
        (x / 256 % 256) as u8,
        (x / 65536 % 256) as u8,
        (x / 16777216) as u8,
    ]
}

/// The eight bytes of a 64-bit number, least significant first.
#[verifier::opaque]
pub open spec fn u64_le(x: u64) -> Seq<u8> {
    u32_le((x % 4294967296) as u32) + u32_le((x / 4294967296) as u32)
}

/// Whether `part` stands in `s` at position `at`.
#[verifier::opaque]
pub open spec fn holds_at(s: Seq<u8>, at: int, part: Seq<u8>) -> bool {
    0 <= at && at + part.len() <= s.len() && s.subrange(at, at + part.len()) == part
}

/// The four bytes of a number denote it.
pub proof fn lemma_u32_le(x: u32)
    ensures
        u32_le(x).len() == 4,
        le_value(u32_le(x)) == x,
{
    reveal(u32_le);
    let w = u32_le(x);
    lemma_le_value_step(w, 0);
    lemma_le_value_step(w, 1);
    lemma_le_value_step(w, 2);
    lemma_le_value_step(w, 3);
    assert(w.skip(0) =~= w);
    assert(w.skip(4).len() == 0);
}

/// The low and the high half of a number put together denote it.
proof fn lemma_le_value_halves(low: Seq<u8>, high: Seq<u8>)
    requires
        low.len() == 4,
    ensures
        le_value(low + high) == le_value(low) + 4294967296 * le_value(high),
{
    let w = low + high;
    lemma_le_value_step(w, 0);
    lemma_le_value_step(w, 1);
    lemma_le_value_step(w, 2);
    lemma_le_value_step(w, 3);
    assert(w.skip(0) =~= w);
    assert(w.skip(4) =~= high);
    lemma_le_value_step(low, 0);
    lemma_le_value_step(low, 1);
    lemma_le_value_step(low, 2);
    lemma_le_value_step(low, 3);
    assert(low.skip(0) =~= low);
    assert(low.skip(4).len() == 0);
    assert(w[0] == low[0] && w[1] == low[1] && w[2] == low[2] && w[3] == low[3]);
}

/// The eight bytes of a number denote it.
pub proof fn lemma_u64_le(x: u64)
    ensures
        u64_le(x).len() == 8,
        le_value(u64_le(x)) == x,
{
    reveal(u64_le);
    let low = (x % 4294967296) as u32;
    let high = (x / 4294967296) as u32;
    lemma_u32_le(low);
    lemma_u32_le(high);
    lemma_le_value_halves(u32_le(low), u32_le(high));
}

/// What stands at a position is the two parts of it, one after the other.
pub proof fn lemma_holds_split(s: Seq<u8>, at: int, x: Seq<u8>, y: Seq<u8>)
    requires
        holds_at(s, at, x + y),
    ensures
        holds_at(s, at, x),
        holds_at(s, at + x.len(), y),
{
    reveal(holds_at);
    let whole = x + y;
    assert(s.subrange(at, at + x.len()) =~= whole.subrange(0, x.len() as int));
    assert(whole.subrange(0, x.len() as int) =~= x);
    assert(s.subrange(at + x.len(), at + x.len() + y.len()) =~= whole.subrange(
        x.len() as int,
        whole.len() as int,
    ));
    assert(whole.subrange(x.len() as int, whole.len() as int) =~= y);
}

/// A string stands at its own start.
pub proof fn lemma_holds_whole(s: Seq<u8>)
    ensures
        holds_at(s, 0, s),
{
    reveal(holds_at);
    assert(s.subrange(0, s.len() as int) =~= s);
}

/// Four bytes that stand at the start of a string are its first four bytes.
pub proof fn lemma_read_magic(s: Seq<u8>, magic: Seq<u8>)
    requires
        magic.len() == 4,
        holds_at(s, 0, magic),
    ensures
        s.len() >= 4,
        s[0] == magic[0],
        s[1] == magic[1],
        s[2] == magic[2],
        s[3] == magic[3],
{
    reveal(holds_at);
    assert(s.subrange(0, 4)[0] == s[0]);
    assert(s.subrange(0, 4)[1] == s[1]);
    assert(s.subrange(0, 4)[2] == s[2]);
    assert(s.subrange(0, 4)[3] == s[3]);
}

/// A 32-bit number that stands at a position is read there.
pub proof fn lemma_read_u32(s: Seq<u8>, at: int, x: u32)
    requires
        holds_at(s, at, u32_le(x)),
    ensures
        u32_at(s, at) == x,
        0 <= at,
        at + 4 <= s.len(),
{
    reveal(holds_at);
    lemma_u32_le(x);
}

/// A 64-bit number that stands at a position is read there.
pub proof fn lemma_read_u64(s: Seq<u8>, at: int, x: u64)
    requires
        holds_at(s, at, u64_le(x)),
    ensures
        u64_at(s, at) == x,
        0 <= at,
        at + 8 <= s.len(),
{
    reveal(holds_at);
    lemma_u64_le(x);
}

/// The 32 bytes of an array that stand at a position are read there.
pub proof fn lemma_read_field(s: Seq<u8>, at: int, bytes: [u8; 32])
    requires
        holds_at(s, at, bytes@),
    ensures
        field_at(s, at) == bytes,
        0 <= at,
        at + 32 <= s.len(),
{
    reveal(holds_at);
    assert forall|k: int| 0 <= k < 32 implies field_at(s, at)[k] == bytes[k] by {
        assert(s.subrange(at, at + 32)[k] == s[at + k]);
    }
    assert(field_at(s, at) =~= bytes);
}

/// The elements of a witness, 32 bytes each, one after the other.
pub open spec fn elements_bytes(values: Seq<FieldElement>) -> Seq<u8>
    decreases values.len(),
{
    if values.len() == 0 {
        Seq::empty()
    } else {
        elements_bytes(values.drop_last()) + values.last().bytes@
    }
}

/// Each element stands at 32 times its index.
pub proof fn lemma_elements_bytes(values: Seq<FieldElement>)
    ensures
        elements_bytes(values).len() == 32 * values.len(),
        forall|i: int|
            0 <= i < values.len() ==> holds_at(
                elements_bytes(values),
                32 * i,
                (#[trigger] values[i]).bytes@,
            ),
    decreases values.len(),
{
    reveal(holds_at);
    if values.len() > 0 {
        let front = values.drop_last();
        lemma_elements_bytes(front);
        let all = elements_bytes(values);
        assert forall|i: int| 0 <= i < values.len() implies holds_at(
            all,
            32 * i,
            (#[trigger] values[i]).bytes@,
        ) by {
            if i < front.len() {
                assert(front[i] == values[i]);
                assert(holds_at(elements_bytes(front), 32 * i, front[i].bytes@));
                assert(all.subrange(32 * i, 32 * i + 32) =~= elements_bytes(front).subrange(
                    32 * i,
                    32 * i + 32,
                ));
            } else {
                assert(all.subrange(32 * i, 32 * i + 32) =~= values.last().bytes@);
            }
        }
    }
}

/// What stands within a part stands in the whole, shifted by the part's position.
pub proof fn lemma_holds_within(s: Seq<u8>, at: int, part: Seq<u8>, inner_at: int, inner: Seq<u8>)
    requires
        holds_at(s, at, part),
        holds_at(part, inner_at, inner),
    ensures
        holds_at(s, at + inner_at, inner),
{
    reveal(holds_at);
    assert(s.subrange(at + inner_at, at + inner_at + inner.len()) =~= part.subrange(
        inner_at,
        inner_at + inner.len(),
    ));
}

/// The bytes of a witness file with the given version, prime and elements.
pub open spec fn wtns_file_bytes(version: u32, prime: [u8; 32], values: Seq<FieldElement>) -> Seq<u8> {
    seq![0x77u8, 0x74u8, 0x6eu8, 0x73u8] + u32_le(version) + u32_le(2) + u32_le(1) + u64_le(40)
        + u32_le(32) + prime@ + u32_le(values.len() as u32) + u32_le(2) + u64_le(
        (32 * values.len()) as u64,
    ) + elements_bytes(values)
}

/// The witness reader gives back what a well-formed witness file was written from.
pub proof fn lemma_wtns_round_trip(version: u32, prime: [u8; 32], values: Seq<FieldElement>)
    requires
        version <= 2,
        values.len() <= u32::MAX,
    ensures
        spec_read_wtns_layout(wtns_file_bytes(version, prime, values)) == Ok::<
            WitnessLayout,
            CoreError,
        >(WitnessLayout { prime, values }),
{
    let n = values.len() as u32;
    let s = wtns_file_bytes(version, prime, values);
    let magic = seq![0x77u8, 0x74u8, 0x6eu8, 0x73u8];
    let body = elements_bytes(values);
    lemma_u32_le(version);
    lemma_u32_le(2);
    lemma_u32_le(1);
    lemma_u64_le(40);
    lemma_u32_le(32);
    lemma_u32_le(n);
    lemma_u64_le((32 * values.len()) as u64);
    lemma_elements_bytes(values);
    let head0 = magic;
    let head1 = head0 + u32_le(version);
    let head2 = head1 + u32_le(2);
    let head3 = head2 + u32_le(1);
    let head4 = head3 + u64_le(40);
    let head5 = head4 + u32_le(32);
    let head6 = head5 + prime@;
    let head7 = head6 + u32_le(n);
    let head8 = head7 + u32_le(2);
    let head9 = head8 + u64_le((32 * values.len()) as u64);
    assert(s == head9 + body);
    lemma_holds_whole(s);
    lemma_holds_split(s, 0, head9, body);
    lemma_holds_split(s, 0, head8, u64_le((32 * values.len()) as u64));
    lemma_holds_split(s, 0, head7, u32_le(2));
    lemma_holds_split(s, 0, head6, u32_le(n));
    lemma_holds_split(s, 0, head5, prime@);
    lemma_holds_split(s, 0, head4, u32_le(32));
    lemma_holds_split(s, 0, head3, u64_le(40));
    lemma_holds_split(s, 0, head2, u32_le(1));
    lemma_holds_split(s, 0, head1, u32_le(2));
    lemma_holds_split(s, 0, head0, u32_le(version));
    lemma_read_magic(s, magic);
    lemma_read_u32(s, 4, version);
    lemma_read_u32(s, 8, 2);
    lemma_read_u32(s, 12, 1);
    lemma_read_u64(s, 16, 40);
    lemma_read_u32(s, 24, 32);
    lemma_read_field(s, 28, prime);
    lemma_read_u32(s, 60, n);
    lemma_read_u32(s, 64, 2);
    lemma_read_u64(s, 68, (32 * values.len()) as u64);
    assert(s.len() == 76 + 32 * values.len());
    assert(values_at(s, n as nat) =~= values) by {
        assert forall|i: int| 0 <= i < values.len() implies values_at(s, n as nat)[i]
            == values[i] by {
            lemma_holds_within(s, 76, body, 32 * i, values[i].bytes@);
            lemma_read_field(s, 76 + 32 * i, values[i].bytes);
        }
    }
}

/// The bytes of a term: its wire id, then its coefficient.
pub open spec fn term_bytes(t: Term) -> Seq<u8> {
    u32_le(t.wire_id) + t.coefficient.bytes@
}

/// The bytes of the terms of a linear combination, one after the other.
pub open spec fn terms_bytes(ts: Seq<Term>) -> Seq<u8>
    decreases ts.len(),
{
    if ts.len() == 0 {
        Seq::empty()
    } else {
        terms_bytes(ts.drop_last()) + term_bytes(ts.last())
    }
}

/// The bytes of a linear combination: the number of its terms, then the terms.
pub open spec fn lc_bytes(lc: Seq<Term>) -> Seq<u8> {
    u32_le(lc.len() as u32) + terms_bytes(lc)
}

/// The bytes of a constraint: its three linear combinations.
pub open spec fn constraint_bytes(c: ConstraintView) -> Seq<u8> {
    lc_bytes(c.a) + lc_bytes(c.b) + lc_bytes(c.c)
}

/// The bytes of the constraints, one after the other.
pub open spec fn constraints_bytes(cs: Seq<ConstraintView>) -> Seq<u8>
    decreases cs.len(),
{
    if cs.len() == 0 {
        Seq::empty()
    } else {
        constraint_bytes(cs[0]) + constraints_bytes(cs.skip(1))
    }
}

/// The bytes of the wire-to-label map, 64 bits for each wire.
pub open spec fn labels_bytes(labels: Seq<u64>) -> Seq<u8>
    decreases labels.len(),
{
    if labels.len() == 0 {
        Seq::empty()
    } else {
        labels_bytes(labels.drop_last()) + u64_le(labels.last())
    }
}

/// The 64 bytes of a header.
pub open spec fn header_bytes(h: Header) -> Seq<u8> {
    u32_le(h.field_byte_width) + h.prime@ + u32_le(h.n_wires) + u32_le(h.n_public_outputs)
        + u32_le(h.n_public_inputs) + u32_le(h.n_private_inputs) + u64_le(h.n_labels) + u32_le(
        h.n_constraints,
    )
}

/// The bytes of a section: its type, the size of its body, and the body.
pub open spec fn section_bytes(ty: u32, body: Seq<u8>) -> Seq<u8> {
    u32_le(ty) + u64_le(body.len() as u64) + body
}

/// The bytes of a constraint file that holds its three sections in the
/// order header, constraints, labels.
pub open spec fn r1cs_file_bytes(h: Header, cs: Seq<ConstraintView>, labels: Seq<u64>) -> Seq<u8> {
    seq![0x72u8, 0x31u8, 0x63u8, 0x73u8] + u32_le(1) + u32_le(3) + section_bytes(
        1,
        header_bytes(h),
    ) + section_bytes(2, constraints_bytes(cs)) + section_bytes(3, labels_bytes(labels))
}

/// Whether every linear combination of the system has a term count that fits 32 bits.
pub open spec fn counts_fit(cs: Seq<ConstraintView>) -> bool {
    forall|k: int|
        0 <= k < cs.len() ==> (#[trigger] cs[k]).a.len() <= u32::MAX && cs[k].b.len() <= u32::MAX
            && cs[k].c.len() <= u32::MAX
}

/// Each term stands at 36 times its index.
pub proof fn lemma_terms_bytes(ts: Seq<Term>)
    ensures
        terms_bytes(ts).len() == 36 * ts.len(),
        forall|j: int|
            0 <= j < ts.len() ==> holds_at(terms_bytes(ts), 36 * j, term_bytes(#[trigger] ts[j])),
    decreases ts.len(),
{
    reveal(holds_at);
    if ts.len() > 0 {
        let front = ts.drop_last();
        lemma_terms_bytes(front);
        lemma_u32_le(ts.last().wire_id);
        let all = terms_bytes(ts);
        assert forall|j: int| 0 <= j < ts.len() implies holds_at(
            all,
            36 * j,
            term_bytes(#[trigger] ts[j]),
        ) by {
            lemma_u32_le(ts[j].wire_id);
            if j < front.len() {
                assert(front[j] == ts[j]);
                assert(holds_at(terms_bytes(front), 36 * j, term_bytes(front[j])));
                assert(all.subrange(36 * j, 36 * j + 36) =~= terms_bytes(front).subrange(
                    36 * j,
                    36 * j + 36,
                ));
            } else {
                assert(all.subrange(36 * j, 36 * j + 36) =~= term_bytes(ts.last()));
            }
        }
    }
}

/// The labels take eight bytes each.
pub proof fn lemma_labels_bytes(labels: Seq<u64>)
    ensures
        labels_bytes(labels).len() == 8 * labels.len(),
    decreases labels.len(),
{
    if labels.len() > 0 {
        lemma_labels_bytes(labels.drop_last());
        lemma_u64_le(labels.last());
    }
}

/// A linear combination that stands at a position is read there.
pub proof fn lemma_lc_round_trip(s: Seq<u8>, at: int, end: int, lc: Seq<Term>)
    requires
        holds_at(s, at, lc_bytes(lc)),
        lc.len() <= u32::MAX,
        at + lc_bytes(lc).len() <= end,
    ensures
        lc_bytes(lc).len() == 4 + 36 * lc.len(),
        lc_at(s, at, end) == Some((lc, at + 4 + 36 * lc.len())),
{
    let n = lc.len() as u32;
    lemma_u32_le(n);
    lemma_terms_bytes(lc);
    lemma_holds_split(s, at, u32_le(n), terms_bytes(lc));
    lemma_read_u32(s, at, n);
    let read = Seq::new(n as nat, |j: int| term_at(s, at + 4 + 36 * j));
    assert forall|j: int| 0 <= j < lc.len() implies read[j] == lc[j] by {
        let t = lc[j];
        lemma_u32_le(t.wire_id);
        lemma_holds_within(s, at + 4, terms_bytes(lc), 36 * j, term_bytes(t));
        lemma_holds_split(s, at + 4 + 36 * j, u32_le(t.wire_id), t.coefficient.bytes@);
        lemma_read_u32(s, at + 4 + 36 * j, t.wire_id);
        lemma_read_field(s, at + 4 + 36 * j + 4, t.coefficient.bytes);
    }
    assert(read =~= lc);
}

/// A constraint that stands at a position is read there.
pub proof fn lemma_constraint_round_trip(s: Seq<u8>, at: int, end: int, c: ConstraintView)
    requires
        holds_at(s, at, constraint_bytes(c)),
        c.a.len() <= u32::MAX,
        c.b.len() <= u32::MAX,
        c.c.len() <= u32::MAX,
        at + constraint_bytes(c).len() <= end,
    ensures
        constraint_bytes(c).len() >= 12,
        constraint_at(s, at, end) == Some((c, at + constraint_bytes(c).len())),
{
    lemma_u32_le(c.a.len() as u32);
    lemma_u32_le(c.b.len() as u32);
    lemma_u32_le(c.c.len() as u32);
    lemma_terms_bytes(c.a);
    lemma_terms_bytes(c.b);
    lemma_terms_bytes(c.c);
    lemma_holds_split(s, at, lc_bytes(c.a) + lc_bytes(c.b), lc_bytes(c.c));
    lemma_holds_split(s, at, lc_bytes(c.a), lc_bytes(c.b));
    let head1 = at + lc_bytes(c.a).len();
    let head2 = head1 + lc_bytes(c.b).len();
    lemma_lc_round_trip(s, at, end, c.a);
    lemma_lc_round_trip(s, head1, end, c.b);
    lemma_lc_round_trip(s, head2, end, c.c);
}

/// Constraints that fill a window are read from it.
pub proof fn lemma_constraints_round_trip(s: Seq<u8>, at: int, end: int, cs: Seq<ConstraintView>)
    requires
        holds_at(s, at, constraints_bytes(cs)),
        counts_fit(cs),
        end == at + constraints_bytes(cs).len(),
    ensures
        constraints_in(s, at, end) == Some(cs),
    decreases cs.len(),
{
    if cs.len() == 0 {
        assert(cs =~= Seq::<ConstraintView>::empty());
    } else {
        let first = cs[0];
        let rest = cs.skip(1);
        lemma_holds_split(s, at, constraint_bytes(first), constraints_bytes(rest));
        lemma_constraint_round_trip(s, at, end, first);
        let next = at + constraint_bytes(first).len();
        assert forall|k: int| 0 <= k < rest.len() implies (#[trigger] rest[k]).a.len() <= u32::MAX
            && rest[k].b.len() <= u32::MAX && rest[k].c.len() <= u32::MAX by {
            assert(rest[k] == cs[k + 1]);
        }
        lemma_constraints_round_trip(s, next, end, rest);
        assert(seq![first] + rest =~= cs);
    }
}

/// A header that stands at a position is read there.
pub proof fn lemma_header_round_trip(s: Seq<u8>, at: int, h: Header)
    requires
        holds_at(s, at, header_bytes(h)),
    ensures
        header_bytes(h).len() == 64,
        header_at(s, at) == h,
        u32_at(s, at) == h.field_byte_width,
{
    lemma_u32_le(h.field_byte_width);
    lemma_u32_le(h.n_wires);
    lemma_u32_le(h.n_public_outputs);
    lemma_u32_le(h.n_public_inputs);
    lemma_u32_le(h.n_private_inputs);
    lemma_u64_le(h.n_labels);
    lemma_u32_le(h.n_constraints);
    let head0 = u32_le(h.field_byte_width);
    let head1 = head0 + h.prime@;
    let head2 = head1 + u32_le(h.n_wires);
    let head3 = head2 + u32_le(h.n_public_outputs);
    let head4 = head3 + u32_le(h.n_public_inputs);
    let head5 = head4 + u32_le(h.n_private_inputs);
    let head6 = head5 + u64_le(h.n_labels);
    lemma_holds_split(s, at, head6, u32_le(h.n_constraints));
    lemma_holds_split(s, at, head5, u64_le(h.n_labels));
    lemma_holds_split(s, at, head4, u32_le(h.n_private_inputs));
    lemma_holds_split(s, at, head3, u32_le(h.n_public_inputs));
    lemma_holds_split(s, at, head2, u32_le(h.n_public_outputs));
    lemma_holds_split(s, at, head1, u32_le(h.n_wires));
    lemma_holds_split(s, at, head0, h.prime@);
    lemma_read_u32(s, at, h.field_byte_width);
    lemma_read_field(s, at + 4, h.prime);
    lemma_read_u32(s, at + 36, h.n_wires);
    lemma_read_u32(s, at + 40, h.n_public_outputs);
    lemma_read_u32(s, at + 44, h.n_public_inputs);
    lemma_read_u32(s, at + 48, h.n_private_inputs);
    lemma_read_u64(s, at + 52, h.n_labels);
    lemma_read_u32(s, at + 60, h.n_constraints);
}

/// A section that stands at a position has its type and size read there and
/// its body twelve bytes on.
pub proof fn lemma_section_parts(s: Seq<u8>, at: int, ty: u32, body: Seq<u8>)
    requires
        holds_at(s, at, section_bytes(ty, body)),
        body.len() <= u64::MAX,
    ensures
        0 <= at,
        at + 12 + body.len() <= s.len(),
        u32_at(s, at) == ty,
        u64_at(s, at + 4) == body.len(),
        holds_at(s, at + 12, body),
{
    lemma_u32_le(ty);
    lemma_u64_le(body.len() as u64);
    lemma_holds_split(s, at, u32_le(ty) + u64_le(body.len() as u64), body);
    lemma_holds_split(s, at, u32_le(ty), u64_le(body.len() as u64));
    lemma_read_u32(s, at, ty);
    lemma_read_u64(s, at + 4, body.len() as u64);
    assert(at + 12 + body.len() <= s.len()) by {
        reveal(holds_at);
    }
}

/// A header section that stands at a position is read there.
pub proof fn lemma_header_section(s: Seq<u8>, at: int, h: Header, acc: Sections)
    requires
        holds_at(s, at, section_bytes(1, header_bytes(h))),
        h.field_byte_width == 32,
        acc.header is None,
    ensures
        section_at(s, at, acc) == Ok::<(Sections, int), CoreError>(
            (Sections { header: Some(h), constraints: acc.constraints, labels: acc.labels }, at + 76),
        ),
{
    lemma_u32_le(h.field_byte_width);
    lemma_u32_le(h.n_wires);
    lemma_u32_le(h.n_public_outputs);
    lemma_u32_le(h.n_public_inputs);
    lemma_u32_le(h.n_private_inputs);
    lemma_u64_le(h.n_labels);
    lemma_u32_le(h.n_constraints);
    assert(header_bytes(h).len() == 64);
    lemma_section_parts(s, at, 1, header_bytes(h));
    lemma_header_round_trip(s, at + 12, h);
}

/// A constraint section that stands at a position is read there.
pub proof fn lemma_constraints_section(s: Seq<u8>, at: int, cs: Seq<ConstraintView>, acc: Sections)
    requires
        holds_at(s, at, section_bytes(2, constraints_bytes(cs))),
        counts_fit(cs),
        constraints_bytes(cs).len() <= u64::MAX,
        acc.constraints is None,
    ensures
        section_at(s, at, acc) == Ok::<(Sections, int), CoreError>(
            (
                Sections { header: acc.header, constraints: Some(cs), labels: acc.labels },
                at + 12 + constraints_bytes(cs).len(),
            ),
        ),
{
    let len = constraints_bytes(cs).len() as int;
    lemma_section_parts(s, at, 2, constraints_bytes(cs));
    lemma_constraints_round_trip(s, at + 12, at + 12 + len, cs);
}

/// A label section that stands at a position is passed over.
pub proof fn lemma_labels_section(s: Seq<u8>, at: int, labels: Seq<u64>, acc: Sections)
    requires
        holds_at(s, at, section_bytes(3, labels_bytes(labels))),
        8 * labels.len() <= u64::MAX,
        !acc.labels,
    ensures
        section_at(s, at, acc) == Ok::<(Sections, int), CoreError>(
            (
                Sections { header: acc.header, constraints: acc.constraints, labels: true },
                at + 12 + 8 * labels.len(),
            ),
        ),
{
    lemma_labels_bytes(labels);
    lemma_section_parts(s, at, 3, labels_bytes(labels));
}

/// A section takes twelve bytes more than its body.
pub proof fn lemma_section_len(ty: u32, body: Seq<u8>)
    ensures
        section_bytes(ty, body).len() == 12 + body.len(),
{
    lemma_u32_le(ty);
    lemma_u64_le(body.len() as u64);
}

/// Where the parts of a constraint file stand.
pub proof fn lemma_r1cs_file_parts(h: Header, cs: Seq<ConstraintView>, labels: Seq<u64>)
    ensures
        ({
            let s = r1cs_file_bytes(h, cs, labels);
            let c_len = constraints_bytes(cs).len();
            &&& holds_at(s, 0, seq![0x72u8, 0x31u8, 0x63u8, 0x73u8])
            &&& holds_at(s, 4, u32_le(1))
            &&& holds_at(s, 8, u32_le(3))
            &&& holds_at(s, 12, section_bytes(1, header_bytes(h)))
            &&& holds_at(s, 88, section_bytes(2, constraints_bytes(cs)))
            &&& holds_at(s, 100 + c_len as int, section_bytes(3, labels_bytes(labels)))
        }),
{
    let s = r1cs_file_bytes(h, cs, labels);
    let magic = seq![0x72u8, 0x31u8, 0x63u8, 0x73u8];
    let sec1 = section_bytes(1, header_bytes(h));
    let sec2 = section_bytes(2, constraints_bytes(cs));
    let sec3 = section_bytes(3, labels_bytes(labels));
    lemma_u32_le(1);
    lemma_u32_le(3);
    lemma_u32_le(h.field_byte_width);
    lemma_u32_le(h.n_wires);
    lemma_u32_le(h.n_public_outputs);
    lemma_u32_le(h.n_public_inputs);
    lemma_u32_le(h.n_private_inputs);
    lemma_u64_le(h.n_labels);
    lemma_u32_le(h.n_constraints);
    lemma_section_len(1, header_bytes(h));
    lemma_section_len(2, constraints_bytes(cs));
    let head1 = magic + u32_le(1);
    let head2 = head1 + u32_le(3);
    let head3 = head2 + sec1;
    let head4 = head3 + sec2;
    lemma_holds_whole(s);
    lemma_holds_split(s, 0, head4, sec3);
    lemma_holds_split(s, 0, head3, sec2);
    lemma_holds_split(s, 0, head2, sec1);
    lemma_holds_split(s, 0, head1, u32_le(3));
    lemma_holds_split(s, 0, magic, u32_le(1));
}

/// The three sections of a constraint file are read one after the other.
pub proof fn lemma_r1cs_sections(s: Seq<u8>, h: Header, cs: Seq<ConstraintView>, labels: Seq<u64>)
    requires
        h.field_byte_width == 32,
        counts_fit(cs),
        constraints_bytes(cs).len() <= u64::MAX,
        8 * labels.len() <= u64::MAX,
        holds_at(s, 12, section_bytes(1, header_bytes(h))),
        holds_at(s, 88, section_bytes(2, constraints_bytes(cs))),
        holds_at(
            s,
            100 + constraints_bytes(cs).len() as int,
            section_bytes(3, labels_bytes(labels)),
        ),
    ensures
        sections_from(s, 12, 3, Sections { header: None, constraints: None, labels: false })
            == Ok::<Sections, CoreError>(
            Sections { header: Some(h), constraints: Some(cs), labels: true },
        ),
{
    let c_len = constraints_bytes(cs).len() as int;
    let start = Sections { header: None, constraints: None, labels: false };
    let after1 = Sections { header: Some(h), constraints: None, labels: false };
    let after2 = Sections { header: Some(h), constraints: Some(cs), labels: false };
    let after3 = Sections { header: Some(h), constraints: Some(cs), labels: true };
    lemma_header_section(s, 12, h, start);
    lemma_constraints_section(s, 88, cs, after1);
    lemma_labels_section(s, 100 + c_len, labels, after2);
    lemma_sections_three(s, 12, start, after1, 88, after2, 100 + c_len, after3);
}

/// The constraint reader gives back what a well-formed constraint file was
/// written from.
pub proof fn lemma_r1cs_round_trip(h: Header, cs: Seq<ConstraintView>, labels: Seq<u64>)
    requires
        h.field_byte_width == 32,
        counts_fit(cs),
        constraints_bytes(cs).len() <= u64::MAX,
        8 * labels.len() <= u64::MAX,
    ensures
        spec_read_layout(r1cs_file_bytes(h, cs, labels)) == Ok::<
            (Header, Seq<ConstraintView>),
            CoreError,
        >((h, cs)),
{
    let s = r1cs_file_bytes(h, cs, labels);
    lemma_r1cs_file_parts(h, cs, labels);
    lemma_read_magic(s, seq![0x72u8, 0x31u8, 0x63u8, 0x73u8]);
    lemma_read_u32(s, 4, 1);
    lemma_read_u32(s, 8, 3);
    lemma_r1cs_sections(s, h, cs, labels);
}

/// Three sections read one after the other are what reading three sections gives.
proof fn lemma_sections_three(
    s: Seq<u8>,
    at1: int,
    acc0: Sections,
    acc1: Sections,
    at2: int,
    acc2: Sections,
    at3: int,
    acc3: Sections,
)
    requires
        section_at(s, at1, acc0) matches Ok((a, next)) && a == acc1 && next == at2,
        section_at(s, at2, acc1) matches Ok((a, next)) && a == acc2 && next == at3,
        section_at(s, at3, acc2) matches Ok((a, _)) && a == acc3,
    ensures
        sections_from(s, at1, 3, acc0) == Ok::<Sections, CoreError>(acc3),
{
    reveal_with_fuel(sections_from, 4);
}

} // verus!
