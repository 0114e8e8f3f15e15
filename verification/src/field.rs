//! Field codec: fixed-width little-endian encodings of prime-field elements.

use crate::error::EncodingError;
use vstd::prelude::*;

verus! {

/// Width in bytes of an encoded field element.
pub const FIELD_BYTES: usize = 32;

/// The natural number that a byte string denotes, least significant byte first.
pub open spec fn le_value(bytes: Seq<u8>) -> nat
    decreases bytes.len(),
{
    if bytes.len() == 0 {
        0
    } else {
        bytes[0] as nat + 256 * le_value(bytes.skip(1))
    }
}

/// Unfolds `le_value` at position `i` of a longer string.
pub proof fn lemma_le_value_step(bytes: Seq<u8>, i: int)
    requires
        0 <= i < bytes.len(),
    ensures
        le_value(bytes.skip(i)) == bytes[i] as nat + 256 * le_value(bytes.skip(i + 1)),
{
    assert(bytes.skip(i).skip(1) =~= bytes.skip(i + 1));
}

/// Two byte strings of one length that denote the same number are the same string.
pub proof fn lemma_le_value_injective(a: Seq<u8>, b: Seq<u8>)
    requires
        a.len() == b.len(),
        le_value(a) == le_value(b),
    ensures
        a == b,
    decreases a.len(),
{
    if a.len() > 0 {
        let ra = le_value(a.skip(1));
        let rb = le_value(b.skip(1));
        assert(a[0] as int - b[0] as int == 256 * (rb - ra));
        assert(ra == rb);
        lemma_le_value_injective(a.skip(1), b.skip(1));
        assert(a =~= seq![a[0]] + a.skip(1));
        assert(b =~= seq![b[0]] + b.skip(1));
    } else {
        assert(a =~= b);
    }
}

/// A string of zeros denotes zero.
pub proof fn lemma_le_value_zeros(bytes: Seq<u8>)
    requires
        forall|i: int| 0 <= i < bytes.len() ==> bytes[i] == 0,
    ensures
        le_value(bytes) == 0,
    decreases bytes.len(),
{
    if bytes.len() > 0 {
        lemma_le_value_zeros(bytes.skip(1));
    }
}

/// Order of the ristretto255 group.
pub open spec fn ristretto255_order() -> nat {
    0x1000000000000000000000000000000014def9dea2f79cd65812631a5cf5d3ednat
}

/// Order of the BN254 curve's group.
pub open spec fn bn254_order() -> nat {
    0x30644e72e131a029b85045b68181585d2833e84879b9709143e1f593f0000001nat
}

/// The order of the ristretto255 group, least significant byte first.
pub const RISTRETTO255_ORDER_BYTES: [u8; 32] = [
    0xed, 0xd3, 0xf5, 0x5c, 0x1a, 0x63, 0x12, 0x58, 0xd6, 0x9c, 0xf7, 0xa2, 0xde, 0xf9, 0xde, 0x14,
    0x00, 0x00, 0x00, 0x00, 0x00, 0x00, 0x00, 0x00, 0x00, 0x00, 0x00, 0x00, 0x00, 0x00, 0x00, 0x10,
];

/// The order of the BN254 curve's group, least significant byte first.
pub const BN254_ORDER_BYTES: [u8; 32] = [
    0x01, 0x00, 0x00, 0xf0, 0x93, 0xf5, 0xe1, 0x43, 0x91, 0x70, 0xb9, 0x79, 0x48, 0xe8, 0x33, 0x28,
    0x5d, 0x58, 0x81, 0x81, 0xb6, 0x45, 0x50, 0xb8, 0x29, 0xa0, 0x31, 0xe1, 0x72, 0x4e, 0x64, 0x30,
];

/// The byte constant denotes the order of the ristretto255 group.
pub proof fn lemma_ristretto255_order()
    ensures
        le_value(RISTRETTO255_ORDER_BYTES@) == ristretto255_order(),
{
    reveal_with_fuel(le_value, 34);
    let s = RISTRETTO255_ORDER_BYTES@;
    assert(s.len() == 32);
}

/// The byte constant denotes the order of the BN254 curve's group.
pub proof fn lemma_bn254_order()
    ensures
        le_value(BN254_ORDER_BYTES@) == bn254_order(),
{
    reveal_with_fuel(le_value, 34);
    let s = BN254_ORDER_BYTES@;
    assert(s.len() == 32);
}

/// A field element, held as its little-endian encoding.
#[derive(Clone, Copy, Debug, PartialEq, Eq)]
pub struct FieldElement {
    pub bytes: [u8; 32],
}

impl FieldElement {
    /// The number that the element stands for.
    pub open spec fn value(&self) -> nat {
        le_value(self.bytes@)
    }

    /// The element with the given encoding, whatever the field.
    pub fn from_bytes(bytes: [u8; 32]) -> (x: FieldElement)
        ensures
            x.bytes == bytes,
    {
        FieldElement { bytes }
    }

    /// The encoding of one: the byte 1 and 31 zeros.
    pub open spec fn one_bytes() -> [u8; 32] {
        [
            1u8, 0u8, 0u8, 0u8, 0u8, 0u8, 0u8, 0u8, 0u8, 0u8, 0u8, 0u8, 0u8, 0u8, 0u8, 0u8, 0u8,
            0u8, 0u8, 0u8, 0u8, 0u8, 0u8, 0u8, 0u8, 0u8, 0u8, 0u8, 0u8, 0u8, 0u8, 0u8,
        ]
    }

    /// The encoding of one denotes one.
    pub proof fn lemma_one_bytes()
        ensures
            le_value(Self::one_bytes()@) == 1,
    {
        lemma_le_value_zeros(Self::one_bytes()@.skip(1));
    }

    /// The element that stands for one.
    pub fn one() -> (x: FieldElement)
        ensures
            x.value() == 1,
            x.bytes == Self::one_bytes(),
    {
        let mut bytes: [u8; 32] = [0u8; 32];
        bytes[0] = 1;
        proof {
            assert(bytes =~= Self::one_bytes());
            Self::lemma_one_bytes();
        }
        FieldElement { bytes }
    }

    /// The element that stands for zero.
    pub fn zero() -> (x: FieldElement)
        ensures
            x.value() == 0,
    {
        let bytes: [u8; 32] = [0u8; 32];
        proof {
            lemma_le_value_zeros(bytes@);
        }
        FieldElement { bytes }
    }

    /// Whether the element stands for one.
    pub fn is_one(&self) -> (b: bool)
        ensures
            b == (self.value() == 1),
    {
        let one = FieldElement::one();
        let same = bytes_equal(&self.bytes, &one.bytes);
        proof {
            if self.value() == 1 {
                lemma_le_value_injective(self.bytes@, one.bytes@);
            }
        }
        same
    }
}

/// Whether two encodings agree byte for byte.
pub fn bytes_equal(a: &[u8; 32], b: &[u8; 32]) -> (same: bool)
    ensures
        same == (a@ == b@),
{
    let mut i: usize = 0;
    while i < 32
        invariant
            i <= 32,
            forall|k: int| 0 <= k < i ==> a@[k] == b@[k],
        decreases 32 - i,
    {
        if a[i] != b[i] {
            return false;
        }
        i = i + 1;
    }
    assert(a@ =~= b@);
    true
}

/// The prime field that encodings are read in: its modulus, least significant byte first.
#[derive(Clone, Copy, Debug, PartialEq, Eq)]
pub struct FieldConfig {
    pub modulus: [u8; 32],
}

impl FieldConfig {
    /// The modulus as a number.
    pub open spec fn modulus_value(&self) -> nat {
        le_value(self.modulus@)
    }

    /// Whether `bytes` is the encoding of an element of this field.
    pub open spec fn canonical(&self, bytes: Seq<u8>) -> bool {
        bytes.len() == 32 && le_value(bytes) < self.modulus_value()
    }

    /// What `decode` returns.
    pub open spec fn spec_decode(&self, bytes: [u8; 32]) -> Result<FieldElement, EncodingError> {
        if self.canonical(bytes@) {
            Ok(FieldElement { bytes })
        } else {
            Err(EncodingError::NonCanonicalValue)
        }
    }

    /// The field with the given modulus.
    pub fn new(modulus: [u8; 32]) -> (cfg: FieldConfig)
        ensures
            cfg.modulus == modulus,
    {
        FieldConfig { modulus }
    }

    /// The scalar field of the ristretto255 group, in which the sparse-matrix
    /// backend computes: the modulus is `2^252 + 27742317777372353535851937790883648493`.
    pub fn ristretto255() -> (cfg: FieldConfig)
        ensures
            cfg.modulus_value() == ristretto255_order(),
            cfg.modulus@ == RISTRETTO255_ORDER_BYTES@,
    {
        proof {
            lemma_ristretto255_order();
        }
        FieldConfig { modulus: RISTRETTO255_ORDER_BYTES }
    }

    /// The scalar field of the BN254 curve, the default of the circuit compiler.
    pub fn bn254() -> (cfg: FieldConfig)
        ensures
            cfg.modulus_value() == bn254_order(),
            cfg.modulus@ == BN254_ORDER_BYTES@,
    {
        proof {
            lemma_bn254_order();
        }
        FieldConfig { modulus: BN254_ORDER_BYTES }
    }

    /// Whether `bytes` denotes a number below the modulus.
    pub fn is_canonical(&self, bytes: &[u8; 32]) -> (ok: bool)
        ensures
            ok == self.canonical(bytes@),
    {
        let mut i: usize = 32;
        let mut below = false;
        let mut above = false;
        while i > 0
            invariant
                i <= 32,
                below == (le_value(bytes@.skip(i as int)) < le_value(self.modulus@.skip(i as int))),
                above == (le_value(bytes@.skip(i as int)) > le_value(self.modulus@.skip(i as int))),
            decreases i,
        {
            i = i - 1;
            let x = bytes[i];
            let m = self.modulus[i];
            proof {
                lemma_le_value_step(bytes@, i as int);
                lemma_le_value_step(self.modulus@, i as int);
            }
            if !below && !above {
                if x < m {
                    below = true;
                } else if x > m {
                    above = true;
                }
            }
        }
        proof {
            assert(bytes@.skip(0) =~= bytes@);
            assert(self.modulus@.skip(0) =~= self.modulus@);
        }
        below
    }

    /// Reads an element from its encoding, and refuses an encoding at or above the modulus.
    pub fn decode(&self, bytes: [u8; 32]) -> (r: Result<FieldElement, EncodingError>)
        ensures
            r == self.spec_decode(bytes),
            r is Ok <==> self.canonical(bytes@),
            r matches Ok(x) ==> x.value() == le_value(bytes@) && x.value() < self.modulus_value(),
    {
        if self.is_canonical(&bytes) {
            Ok(FieldElement { bytes })
        } else {
            Err(EncodingError::NonCanonicalValue)
        }
    }

    /// What `encode` returns.
    pub open spec fn spec_encode(&self, x: FieldElement) -> [u8; 32] {
        x.bytes
    }

    /// Writes an element as 32 bytes, least significant first.
    pub fn encode(&self, x: &FieldElement) -> (bytes: [u8; 32])
        ensures
            bytes == self.spec_encode(*x),
            le_value(bytes@) == x.value(),
    {
        x.bytes
    }
}

/// Decoding what `encode` wrote gives the element back, for every element of the field.
pub proof fn lemma_decode_encode(cfg: FieldConfig, x: FieldElement)
    requires
        x.value() < cfg.modulus_value(),
    ensures
        cfg.spec_decode(cfg.spec_encode(x)) == Ok::<FieldElement, EncodingError>(x),
{
}

/// Encoding what `decode` accepted gives the bytes back.
pub proof fn lemma_encode_decode(cfg: FieldConfig, bytes: [u8; 32])
    requires
        cfg.canonical(bytes@),
    ensures
        cfg.spec_decode(bytes) matches Ok(x) && cfg.spec_encode(x) == bytes,
{
}

/// An element is determined by the number it stands for.
pub proof fn lemma_value_injective(x: FieldElement, y: FieldElement)
    requires
        x.value() == y.value(),
    ensures
        x == y,
{
    lemma_le_value_injective(x.bytes@, y.bytes@);
    assert(x.bytes =~= y.bytes);
}

} // verus!
