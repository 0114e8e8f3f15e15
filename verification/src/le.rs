//! Fixed-width little-endian fields at a position of a byte string.

use crate::field::{le_value, lemma_le_value_step};
use vstd::prelude::*;

verus! {

/// The 32-bit number stored at `at`, least significant byte first.
pub open spec fn u32_at(s: Seq<u8>, at: int) -> nat {
    le_value(s.subrange(at, at + 4))
}

/// The 64-bit number stored at `at`, least significant byte first.
pub open spec fn u64_at(s: Seq<u8>, at: int) -> nat {
    le_value(s.subrange(at, at + 8))
}

/// The 32 bytes stored at `at`, as an array.
pub open spec fn field_at(s: Seq<u8>, at: int) -> [u8; 32] {
    [
        s[at], s[at + 1], s[at + 2], s[at + 3], s[at + 4], s[at + 5], s[at + 6], s[at + 7],
        s[at + 8], s[at + 9], s[at + 10], s[at + 11], s[at + 12], s[at + 13], s[at + 14],
        s[at + 15], s[at + 16], s[at + 17], s[at + 18], s[at + 19], s[at + 20], s[at + 21],
        s[at + 22], s[at + 23], s[at + 24], s[at + 25], s[at + 26], s[at + 27], s[at + 28],
        s[at + 29], s[at + 30], s[at + 31],
    ]
}

/// A 32-bit field is its four bytes weighted by powers of 256.
pub proof fn lemma_u32_at(s: Seq<u8>, at: int)
    requires
        0 <= at,
        at + 4 <= s.len(),
    ensures
        u32_at(s, at) == s[at] as nat + 256 * (s[at + 1] as nat) + 65536 * (s[at + 2] as nat)
            + 16777216 * (s[at + 3] as nat),
        u32_at(s, at) <= u32::MAX,
{
    let w = s.subrange(at, at + 4);
    lemma_le_value_step(w, 0);
    lemma_le_value_step(w, 1);
    lemma_le_value_step(w, 2);
    lemma_le_value_step(w, 3);
    assert(w.skip(0) =~= w);
    assert(w.skip(4).len() == 0);
}

/// A 64-bit field is its two 32-bit halves, the low one first.
pub proof fn lemma_u64_at(s: Seq<u8>, at: int)
    requires
        0 <= at,
        at + 8 <= s.len(),
    ensures
        u64_at(s, at) == u32_at(s, at) + 4294967296 * u32_at(s, at + 4),
        u64_at(s, at) <= u64::MAX,
{
    let w = s.subrange(at, at + 8);
    lemma_le_value_step(w, 0);
    lemma_le_value_step(w, 1);
    lemma_le_value_step(w, 2);
    lemma_le_value_step(w, 3);
    assert(w.skip(0) =~= w);
    assert(w.skip(4) =~= s.subrange(at + 4, at + 8));
    lemma_u32_at(s, at);
    lemma_u32_at(s, at + 4);
}

/// The array read at `at` holds the bytes that stand there.
pub proof fn lemma_field_at(s: Seq<u8>, at: int)
    requires
        0 <= at,
        at + 32 <= s.len(),
    ensures
        field_at(s, at)@ == s.subrange(at, at + 32),
{
    assert(field_at(s, at)@ =~= s.subrange(at, at + 32));
}

/// Reads the 32-bit number stored at `at`.
pub(crate) fn read_u32(bytes: &[u8], at: usize) -> (v: u32)
    requires
        at + 4 <= bytes.len(),
    ensures
        v == u32_at(bytes@, at as int),
{
    proof {
        lemma_u32_at(bytes@, at as int);
    }
    let b0: u32 = bytes[at] as u32;
    let b1: u32 = bytes[at + 1] as u32;
    let b2: u32 = bytes[at + 2] as u32;
    let b3: u32 = bytes[at + 3] as u32;
    b0 + 256 * b1 + 65536 * b2 + 16777216 * b3
}

/// Reads the 64-bit number stored at `at`.
pub(crate) fn read_u64(bytes: &[u8], at: usize) -> (v: u64)
    requires
        at + 8 <= bytes.len(),
    ensures
        v == u64_at(bytes@, at as int),
{
    proof {
        lemma_u64_at(bytes@, at as int);
    }
    let low: u64 = read_u32(bytes, at) as u64;
    let high: u64 = read_u32(bytes, at + 4) as u64;
    low + 4294967296 * high
}

/// Reads the 32 bytes stored at `at`.
pub(crate) fn read_field(bytes: &[u8], at: usize) -> (v: [u8; 32])
    requires
        at + 32 <= bytes.len(),
    ensures
        v == field_at(bytes@, at as int),
        v@ == bytes@.subrange(at as int, at + 32),
{
    let mut v: [u8; 32] = [0u8; 32];
    let mut i: usize = 0;
    while i < 32
        invariant
            i <= 32,
            at + 32 <= bytes.len(),
            forall|k: int| 0 <= k < i ==> v@[k] == bytes@[at + k],
        decreases 32 - i,
    {
        v[i] = bytes[at + i];
        i = i + 1;
    }
    proof {
        lemma_field_at(bytes@, at as int);
        assert(v@ =~= bytes@.subrange(at as int, at + 32));
        assert(v =~= field_at(bytes@, at as int));
    }
    v
}

} // verus!
