//! What is written can be read back.
//!
//! Each law here takes the bytes that a write appends, followed by any
//! other bytes, and says what the reads make of them: the key that was
//! written, the value that was written, and a cursor that stands exactly
//! behind the field.

use crate::error::Error;
use crate::parsed::Parsed;
use crate::reader::{parse_bytes, parse_key, parse_string, parse_svarint, skip_field};
use crate::varint::{encode_varint, parse_varint, varint_round_trip};
use crate::wire_type::{key_byte, key_round_trip, WireType, MAX_FIELD_NUMBER};
use crate::writer::{bytes_field, string_field, svarint_field, varint_field};
use crate::zigzag::zigzag;
use vstd::prelude::*;
use vstd::utf8::{encode_utf8, encode_utf8_decode_utf8, encode_utf8_valid_utf8};

verus! {

/// A varint field is read back as the key and the value it was written
/// with, and passing over it passes exactly the field.
pub proof fn varint_field_round_trip(field_number: u8, value: u64, rest: Seq<u8>)
    requires
        field_number <= MAX_FIELD_NUMBER,
    ensures
        parse_key(varint_field(field_number, value) + rest) == (Parsed {
            outcome: Ok::<(u8, WireType), Error>((field_number, WireType::Varint)),
            consumed: 1,
        }),
        parse_varint((varint_field(field_number, value) + rest).skip(1)) == (Parsed {
            outcome: Ok::<u64, Error>(value),
            consumed: encode_varint(value).len(),
        }),
        skip_field(varint_field(field_number, value) + rest) == (Parsed {
            outcome: Ok::<(), Error>(()),
            consumed: varint_field(field_number, value).len(),
        }),
{
    let s = varint_field(field_number, value) + rest;
    key_round_trip(field_number, WireType::Varint);
    assert(s[0] == key_byte(field_number, WireType::Varint));
    assert(s.skip(1) =~= encode_varint(value) + rest);
    varint_round_trip(value, rest);
}

/// A signed varint field is read back as the key and the signed value it
/// was written with.
pub proof fn svarint_field_round_trip(field_number: u8, value: i64, rest: Seq<u8>)
    requires
        field_number <= MAX_FIELD_NUMBER,
    ensures
        parse_key(svarint_field(field_number, value) + rest) == (Parsed {
            outcome: Ok::<(u8, WireType), Error>((field_number, WireType::Varint)),
            consumed: 1,
        }),
        parse_svarint((svarint_field(field_number, value) + rest).skip(1)) == (Parsed {
            outcome: Ok::<i64, Error>(value),
            consumed: encode_varint(zigzag(value)).len(),
        }),
        skip_field(svarint_field(field_number, value) + rest) == (Parsed {
            outcome: Ok::<(), Error>(()),
            consumed: svarint_field(field_number, value).len(),
        }),
{
    varint_field_round_trip(field_number, zigzag(value), rest);
}

/// A length-delimited field is read back as the key and the bytes it was
/// written with, and passing over it passes exactly the field. This holds
/// of an embedded message too, which is read as these bytes.
pub proof fn bytes_field_round_trip(field_number: u8, value: Seq<u8>, rest: Seq<u8>)
    requires
        field_number <= MAX_FIELD_NUMBER,
        value.len() <= u64::MAX,
    ensures
        parse_key(bytes_field(field_number, value) + rest) == (Parsed {
            outcome: Ok::<(u8, WireType), Error>((field_number, WireType::Bytes)),
            consumed: 1,
        }),
        parse_bytes((bytes_field(field_number, value) + rest).skip(1)) == (Parsed {
            outcome: Ok::<Seq<u8>, Error>(value),
            consumed: encode_varint(value.len() as u64).len() + value.len(),
        }),
        skip_field(bytes_field(field_number, value) + rest) == (Parsed {
            outcome: Ok::<(), Error>(()),
            consumed: bytes_field(field_number, value).len(),
        }),
{
    let s = bytes_field(field_number, value) + rest;
    let len = encode_varint(value.len() as u64);
    key_round_trip(field_number, WireType::Bytes);
    assert(s[0] == key_byte(field_number, WireType::Bytes));
    assert(s.skip(1) =~= len + (value + rest));
    varint_round_trip(value.len() as u64, value + rest);
    assert(s.skip(1).subrange(len.len() as int, (len.len() + value.len()) as int) =~= value);
}

/// A string field is read back as the key and the text it was written
/// with.
pub proof fn string_field_round_trip(field_number: u8, text: Seq<char>, rest: Seq<u8>)
    requires
        field_number <= MAX_FIELD_NUMBER,
        encode_utf8(text).len() <= u64::MAX,
    ensures
        parse_key(string_field(field_number, text) + rest) == (Parsed {
            outcome: Ok::<(u8, WireType), Error>((field_number, WireType::Bytes)),
            consumed: 1,
        }),
        parse_string((string_field(field_number, text) + rest).skip(1)) == (Parsed {
            outcome: Ok::<Seq<char>, Error>(text),
            consumed: encode_varint(encode_utf8(text).len() as u64).len() + encode_utf8(
                text,
            ).len(),
        }),
        skip_field(string_field(field_number, text) + rest) == (Parsed {
            outcome: Ok::<(), Error>(()),
            consumed: string_field(field_number, text).len(),
        }),
{
    bytes_field_round_trip(field_number, encode_utf8(text), rest);
    encode_utf8_valid_utf8(text);
    encode_utf8_decode_utf8(text);
}

} // verus!
