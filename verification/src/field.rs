//! The prime field, seen as a capability: a canonical modulus and a
//! fixed-width little-endian encoding of elements. The field arithmetic
//! itself is out of scope; elements are carried as their canonical
//! little-endian byte encodings.

use vstd::prelude::*;

verus! {

/// The value of a little-endian byte string: the sum of `bytes[i] * 256^i`.
pub open spec fn le_value(bytes: Seq<u8>) -> nat
    decreases bytes.len(),
{
    if bytes.len() == 0 {
        0
    } else {
        (bytes[0] + 256 * le_value(bytes.drop_first())) as nat
    }
}

/// A prime field, described by the canonical little-endian encoding of its
/// modulus. The canonical byte width of the field is the width of that
/// encoding.
pub struct FieldInfo {
    pub modulus_le: Vec<u8>,
}

impl FieldInfo {
    /// The canonical byte width of field elements of this field.
    pub open spec fn spec_width(self) -> nat {
        self.modulus_le@.len()
    }

    /// The modulus of the field.
    pub open spec fn modulus(self) -> nat {
        le_value(self.modulus_le@)
    }

    pub fn new(modulus_le: Vec<u8>) -> (f: FieldInfo)
        ensures
            f.modulus_le@ == modulus_le@,
    {
        FieldInfo { modulus_le }
    }

    pub fn width(&self) -> (w: usize)
        ensures
            w == self.spec_width(),
    {
        self.modulus_le.len()
    }
}

/// A prime-field element, held as its canonical little-endian byte encoding.
#[derive(Clone)]
pub struct FieldElement {
    pub bytes_le: Vec<u8>,
}

impl View for FieldElement {
    type V = Seq<u8>;

    /// A field element is identified by its canonical encoding.
    open spec fn view(&self) -> Seq<u8> {
        self.bytes_le@
    }
}

impl FieldElement {
    /// The numeric value of the element.
    pub open spec fn value(self) -> nat {
        le_value(self.bytes_le@)
    }

    /// Whether the encoding fits within `w` bytes.
    pub open spec fn fits(self, w: nat) -> bool {
        self.bytes_le@.len() <= w
    }

    pub fn from_bytes_le(bytes: Vec<u8>) -> (r: FieldElement)
        ensures
            r.bytes_le@ == bytes@,
    {
        FieldElement { bytes_le: bytes }
    }

    /// An equal copy of the element.
    pub fn duplicate(&self) -> (r: FieldElement)
        ensures
            r.bytes_le@ == self.bytes_le@,
    {
        let bytes = self.bytes_le.clone();
        proof {
            assert(bytes@ =~= self.bytes_le@);
        }
        FieldElement { bytes_le: bytes }
    }

    /// The element one.
    pub fn one() -> (r: FieldElement)
        ensures
            r.bytes_le@ == seq![1u8],
            r.value() == 1,
    {
        let mut bytes: Vec<u8> = Vec::new();
        bytes.push(1u8);
        proof {
            assert(bytes@ =~= seq![1u8]);
            assert(seq![1u8].drop_first() =~= Seq::<u8>::empty());
            assert(le_value(Seq::<u8>::empty()) == 0);
            assert(le_value(seq![1u8]) == 1);
        }
        FieldElement { bytes_le: bytes }
    }
}

} // verus!
