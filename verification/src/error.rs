//! The ways in which decoding or encoding can fail.

use vstd::prelude::*;

verus! {

/// Why a read or a write did not take place.
#[derive(Debug, Clone, Copy, PartialEq, Eq, Structural)]
pub enum Error {
    /// No byte is left where a field key would start: the clean end of a
    /// message.
    Eof,
    /// The buffer ends in the middle of a value.
    UnexpectedEof,
    /// The low three bits of a key byte name no wire type; the bits are
    /// carried along.
    InvalidWireType(u8),
    /// The field number does not fit into a key byte beside the wire type;
    /// the number is carried along.
    InvalidFieldNumber(u8),
    /// A varint goes on past the ten bytes that can carry 64 bits.
    VarintOverflow,
    /// A length-delimited value asked for as text is not valid UTF-8.
    InvalidUtf8String,
    /// The output buffer has too little room left for the value.
    BufferOverflow,
}

impl Error {
    /// Whether this is [`Error::Eof`], the one error that ends a loop over
    /// the fields of a message in good order.
    pub fn is_eof(&self) -> (r: bool)
        ensures
            r == (*self == Error::Eof),
    {
        match self {
            Error::Eof => true,
            _ => false,
        }
    }
}

} // verus!
