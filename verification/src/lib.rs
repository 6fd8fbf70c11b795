//! A small, schema-less codec for the Protocol Buffers binary wire format.
//!
//! [`PbReader`] is a cursor over a borrowed byte buffer that decodes field
//! keys and field values one at a time. [`PbWriter`] is a cursor over a
//! borrowed, fixed-size output buffer that appends encoded fields. Neither
//! allocates, and every value handed out by the reader borrows from the
//! buffer it was given.
//!
//! The meaning of every operation is given by functions on byte sequences:
//! what a varint, a key or a length-delimited value *is* on the wire. The
//! executable cursors are verified against those functions.

pub mod error;
pub mod parsed;
pub mod reader;
pub mod round_trip;
pub mod text;
pub mod varint;
pub mod wire_type;
pub mod writer;
pub mod zigzag;

pub use crate::error::Error;
pub use crate::reader::PbReader;
pub use crate::wire_type::WireType;
pub use crate::writer::PbWriter;
pub use crate::zigzag::{zigzag_decode, zigzag_encode};
