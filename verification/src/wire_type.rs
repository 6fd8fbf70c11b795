//! Wire types and the key byte that starts every field.

use crate::error::Error;
use vstd::prelude::*;

verus! {

/// The largest field number that fits into a key byte beside the three bits
/// of the wire type.
pub const MAX_FIELD_NUMBER: u8 = 31;

/// How the value of a field is laid out, which is just enough to find where
/// the value ends.
#[derive(Debug, Clone, Copy, PartialEq, Eq, Structural)]
pub enum WireType {
    /// A varint: int32, int64, uint32, uint64, sint32, sint64, bool, enum.
    Varint,
    /// Eight raw bytes: fixed64, sfixed64, double.
    Bit64,
    /// A varint length and that many bytes: string, bytes, embedded
    /// messages, packed repeated fields.
    Bytes,
    /// Four raw bytes: fixed32, sfixed32, float.
    Bit32,
}

impl WireType {
    /// The number that stands for this wire type in a key byte.
    pub open spec fn spec_tag(self) -> u8 {
        match self {
            WireType::Varint => 0,
            WireType::Bit64 => 1,
            WireType::Bytes => 2,
            WireType::Bit32 => 5,
        }
    }

    /// The wire type that `b` stands for, if there is one.
    pub open spec fn spec_from_u8(b: u8) -> Option<WireType> {
        if b == 0 {
            Some(WireType::Varint)
        } else if b == 1 {
            Some(WireType::Bit64)
        } else if b == 2 {
            Some(WireType::Bytes)
        } else if b == 5 {
            Some(WireType::Bit32)
        } else {
            None
        }
    }

    /// The wire type named by the low three bits of `byte`, or the error
    /// that carries those bits.
    pub open spec fn spec_from_tag(byte: u8) -> Result<WireType, Error> {
        match Self::spec_from_u8(byte & 0b111) {
            Some(wire_type) => Ok(wire_type),
            None => Err(Error::InvalidWireType(byte & 0b111)),
        }
    }

    /// The number that stands for this wire type in a key byte.
    #[verifier::when_used_as_spec(spec_tag)]
    pub fn tag(self) -> (t: u8)
        ensures
            t == self.spec_tag(),
    {
        match self {
            WireType::Varint => 0,
            WireType::Bit64 => 1,
            WireType::Bytes => 2,
            WireType::Bit32 => 5,
        }
    }

    /// The wire type whose number is exactly `b`: 0, 1, 2 or 5. Every other
    /// value, also one with higher bits set, gives `None`.
    pub fn from_u8(b: u8) -> (r: Option<Self>)
        ensures
            r == Self::spec_from_u8(b),
            r matches Some(wire_type) ==> wire_type.tag() == b,
            r is None ==> forall|wire_type: WireType| wire_type.tag() != b,
    {
        match b {
            0 => Some(WireType::Varint),
            1 => Some(WireType::Bit64),
            2 => Some(WireType::Bytes),
            5 => Some(WireType::Bit32),
            _ => None,
        }
    }

    /// The wire type named by the low three bits of `byte`. The bits 3, 4,
    /// 6 and 7 name none and fail with [`Error::InvalidWireType`] of those
    /// bits.
    pub fn from_tag(byte: u8) -> (r: Result<Self, Error>)
        ensures
            r == Self::spec_from_tag(byte),
    {
        let bits = byte & 0b111;
        match Self::from_u8(bits) {
            Some(wire_type) => Ok(wire_type),
            None => Err(Error::InvalidWireType(bits)),
        }
    }

    /// Each wire type is found again from its number, alone or in the low
    /// bits of any byte.
    pub proof fn tag_round_trip(self, high: u8)
        ensures
            Self::spec_from_u8(self.tag()) == Some(self),
            self.tag() <= 0b111,
            Self::spec_from_tag((high << 3) | self.tag()) == Ok::<WireType, Error>(self),
    {
        let t = self.tag();
        assert(t <= 7 ==> ((high << 3) | t) & 0b111 == t) by (bit_vector);
    }
}

/// The key byte of a field: the field number in the high five bits, the
/// wire type in the low three.
pub open spec fn key_byte(field_number: u8, wire_type: WireType) -> u8
    recommends
        field_number <= MAX_FIELD_NUMBER,
{
    (field_number << 3) | wire_type.tag()
}

/// What a key byte says: the field number and the wire type, or that its
/// low three bits name no wire type.
pub open spec fn decode_key(key: u8) -> Result<(u8, WireType), Error> {
    match WireType::spec_from_tag(key) {
        Ok(wire_type) => Ok((key >> 3, wire_type)),
        Err(e) => Err(e),
    }
}

/// A key byte gives back the field number and the wire type it was made
/// of.
pub proof fn key_round_trip(field_number: u8, wire_type: WireType)
    requires
        field_number <= MAX_FIELD_NUMBER,
    ensures
        decode_key(key_byte(field_number, wire_type)) == Ok::<(u8, WireType), Error>(
            (field_number, wire_type),
        ),
{
    let t = wire_type.tag();
    wire_type.tag_round_trip(field_number);
    assert(field_number <= 31 && t <= 7 ==> ((field_number << 3) | t) >> 3 == field_number)
        by (bit_vector);
}

} // verus!
