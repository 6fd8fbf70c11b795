//! Writing: a cursor over a borrowed output buffer of fixed size, and the
//! bytes that each field is written as.

use crate::error::Error;
use crate::varint::encode_varint;
use crate::wire_type::{key_byte, WireType, MAX_FIELD_NUMBER};
use crate::zigzag::{zigzag, zigzag_encode};
use vstd::prelude::*;
use vstd::utf8::encode_utf8;

verus! {

/// The bytes of a varint field: the key byte, then the value as a varint.
pub open spec fn varint_field(field_number: u8, value: u64) -> Seq<u8> {
    seq![key_byte(field_number, WireType::Varint)] + encode_varint(value)
}

/// The bytes of a signed varint field: a varint field that holds the
/// zigzag code of the value.
pub open spec fn svarint_field(field_number: u8, value: i64) -> Seq<u8> {
    varint_field(field_number, zigzag(value))
}

/// The bytes of a length-delimited field: the key byte, the length of the
/// value as a varint, then the value itself. An empty value is a field
/// like any other, with length zero.
pub open spec fn bytes_field(field_number: u8, value: Seq<u8>) -> Seq<u8>
    recommends
        value.len() <= u64::MAX,
{
    seq![key_byte(field_number, WireType::Bytes)] + encode_varint(value.len() as u64) + value
}

/// The bytes of a string field: a length-delimited field that holds the
/// text in UTF-8.
pub open spec fn string_field(field_number: u8, text: Seq<char>) -> Seq<u8> {
    bytes_field(field_number, encode_utf8(text))
}

/// Whether a write of `need` bytes takes place where `room` bytes are
/// free: it does exactly when it fits, also when it fills the buffer to
/// the last byte.
pub open spec fn write_outcome(need: nat, room: nat) -> Result<(), Error> {
    if need <= room {
        Ok(())
    } else {
        Err(Error::BufferOverflow)
    }
}

/// Whether a field of `need` bytes is written where `room` bytes are free.
/// A field number that does not fit into the key byte is refused first,
/// whatever the room.
pub open spec fn field_outcome(field_number: u8, need: nat, room: nat) -> Result<(), Error> {
    if field_number > MAX_FIELD_NUMBER {
        Err(Error::InvalidFieldNumber(field_number))
    } else {
        write_outcome(need, room)
    }
}

/// A cursor that encodes into a borrowed buffer of fixed size, from front
/// to back.
///
/// Contracts speak of the output, [`PbWriter::committed`], and of the size
/// of the buffer, [`PbWriter::capacity`]. Each write also says that the
/// writer still holds the same borrow, [`PbWriter::target`], so that
/// [`PbWriter::output_stays_in_buffer`] can tell the caller what its own
/// buffer holds in the end.
pub struct PbWriter<'a> {
    buf: &'a mut [u8],
    pos: usize,
}

impl<'a> PbWriter<'a> {
    #[verifier::type_invariant]
    spec fn within_buffer(&self) -> bool {
        self.pos <= self.buf@.len()
    }

    /// The finished output: the bytes of all writes that succeeded, in
    /// order. What a failed write left behind them in the buffer is not
    /// part of it.
    pub closed spec fn committed(&self) -> Seq<u8> {
        if self.pos <= self.buf@.len() {
            self.buf@.take(self.pos as int)
        } else {
            self.buf@
        }
    }

    /// The size of the buffer, which never changes.
    pub closed spec fn capacity(&self) -> nat {
        self.buf@.len()
    }

    /// The borrow of the caller's buffer that the writer holds. Its final
    /// value, `final(w.target())`, is the buffer as the caller finds it
    /// when the writer is gone.
    pub closed spec fn target(&self) -> &'a mut [u8] {
        self.buf
    }

    /// The output is no longer than the buffer. Every writer that this
    /// library hands out or has worked on is well formed.
    pub open spec fn wf(&self) -> bool {
        self.committed().len() <= self.capacity()
    }

    /// The number of bytes that are still free.
    pub open spec fn room(&self) -> nat {
        (self.capacity() - self.committed().len()) as nat
    }

    /// This writer is `before` after a write of `data` that ended in `r`:
    /// a write that succeeds appends all of `data`, and one that fails
    /// leaves the output as it was.
    pub open spec fn wrote(&self, before: Self, data: Seq<u8>, r: Result<(), Error>) -> bool {
        &&& self.wf()
        &&& self.capacity() == before.capacity()
        &&& self.committed() == if r is Ok {
            before.committed() + data
        } else {
            before.committed()
        }
    }

    /// A writer at the start of `buf`, with nothing written.
    pub fn new(buf: &'a mut [u8]) -> (w: PbWriter<'a>)
        ensures
            w.wf(),
            w.committed() == Seq::<u8>::empty(),
            w.capacity() == old(buf)@.len(),
            final(w.target())@ == final(buf)@,
    {
        PbWriter { buf, pos: 0 }
    }

    /// Whether the buffer is full.
    pub fn is_eof(&self) -> (r: bool)
        ensures
            self.wf(),
            r == (self.committed().len() == self.capacity()),
    {
        proof {
            use_type_invariant(self);
        }
        self.pos == self.buf.len()
    }

    /// Writes a bare varint. Fails with [`Error::BufferOverflow`] where it
    /// does not fit; the output is then what it was before the call.
    pub fn write_varint(&mut self, value: u64) -> (r: Result<(), Error>)
        ensures
            r == write_outcome(encode_varint(value).len(), old(self).room()),
            final(self).wrote(*old(self), encode_varint(value), r),
            final(final(self).target())@ == final(old(self).target())@,
    {
        proof {
            use_type_invariant(&*self);
        }
        let fallback_pos = self.pos;
        let ghost start = *self;
        let ghost mut done = Seq::<u8>::empty();
        let mut rest = value;
        while rest >= 0x80
            invariant
                start == *old(self),
                start.wf(),
                fallback_pos == start.committed().len(),
                self.wf(),
                self.capacity() == start.capacity(),
                self.committed() == start.committed() + done,
                done + encode_varint(rest) == encode_varint(value),
                final(self.target())@ == final(start.target())@,
            decreases rest,
        {
            assert(rest & 0x7f < 0x80) by (bit_vector);
            let byte = ((rest & 0x7f) as u8) | 0x80;
            proof {
                assert(((rest & 0x7f) as u8) | 0x80 == (rest % 0x80 + 0x80) as u8) by (bit_vector);
                assert(rest >> 7 == rest / 0x80) by (bit_vector);
                assert(done + encode_varint(rest) =~= done.push(byte) + encode_varint(rest / 0x80));
            }
            match self.write_u8(byte) {
                Ok(()) => {},
                Err(e) => {
                    self.rewind(fallback_pos);
                    assert(self.committed() =~= start.committed());
                    return Err(e);
                },
            }
            rest >>= 7;
            proof {
                done = done.push(byte);
            }
        }
        match self.write_u8(rest as u8) {
            Ok(()) => {
                assert(self.committed() =~= start.committed() + encode_varint(value));
                Ok(())
            },
            Err(e) => {
                self.rewind(fallback_pos);
                assert(self.committed() =~= start.committed());
                Err(e)
            },
        }
    }

    /// Writes a varint field: the key byte and the value. Fails with
    /// [`Error::InvalidFieldNumber`] where the field number is above 31,
    /// and with [`Error::BufferOverflow`] where the field does not fit. A
    /// field is written whole or not at all.
    pub fn encode_varint_field(&mut self, field_number: u8, value: u64) -> (r: Result<(), Error>)
        ensures
            r == field_outcome(
                field_number,
                varint_field(field_number, value).len(),
                old(self).room(),
            ),
            final(self).wrote(*old(self), varint_field(field_number, value), r),
            final(final(self).target())@ == final(old(self).target())@,
    {
        proof {
            use_type_invariant(&*self);
        }
        if field_number > MAX_FIELD_NUMBER {
            return Err(Error::InvalidFieldNumber(field_number));
        }
        let fallback_pos = self.pos;
        let key = (field_number << 3) | WireType::Varint.tag();
        self.write_u8(key)?;
        match self.write_varint(value) {
            Ok(()) => {
                assert(self.committed() =~= old(self).committed() + varint_field(
                    field_number,
                    value,
                ));
                Ok(())
            },
            Err(e) => {
                self.rewind(fallback_pos);
                assert(self.committed() =~= old(self).committed());
                Err(e)
            },
        }
    }

    /// Writes a signed varint field: a varint field that holds the zigzag
    /// code of the value. It fails as [`PbWriter::encode_varint_field`]
    /// does.
    pub fn encode_svarint_field(&mut self, field_number: u8, value: i64) -> (r: Result<(), Error>)
        ensures
            r == field_outcome(
                field_number,
                svarint_field(field_number, value).len(),
                old(self).room(),
            ),
            final(self).wrote(*old(self), svarint_field(field_number, value), r),
            final(final(self).target())@ == final(old(self).target())@,
    {
        self.encode_varint_field(field_number, zigzag_encode(value))
    }

    /// Writes a length-delimited field: the key byte, the length and the
    /// bytes. An empty value is written too, with length zero. Fails with
    /// [`Error::InvalidFieldNumber`] where the field number is above 31,
    /// and with [`Error::BufferOverflow`] where the field does not fit. A
    /// field is written whole or not at all.
    pub fn encode_bytes_field(&mut self, field_number: u8, value: &[u8]) -> (r: Result<(), Error>)
        ensures
            r == field_outcome(
                field_number,
                bytes_field(field_number, value@).len(),
                old(self).room(),
            ),
            final(self).wrote(*old(self), bytes_field(field_number, value@), r),
            final(final(self).target())@ == final(old(self).target())@,
    {
        proof {
            use_type_invariant(&*self);
        }
        if field_number > MAX_FIELD_NUMBER {
            return Err(Error::InvalidFieldNumber(field_number));
        }
        let fallback_pos = self.pos;
        let key = (field_number << 3) | WireType::Bytes.tag();
        self.write_u8(key)?;
        match self.write_varint(value.len() as u64) {
            Ok(()) => {},
            Err(e) => {
                self.rewind(fallback_pos);
                assert(self.committed() =~= old(self).committed());
                return Err(e);
            },
        }
        match self.write_bytes(value) {
            Ok(()) => {
                assert(self.committed() =~= old(self).committed() + bytes_field(
                    field_number,
                    value@,
                ));
                Ok(())
            },
            Err(e) => {
                self.rewind(fallback_pos);
                assert(self.committed() =~= old(self).committed());
                Err(e)
            },
        }
    }

    /// Writes a string field: a length-delimited field that holds the
    /// bytes of the text as they are. It fails as
    /// [`PbWriter::encode_bytes_field`] does.
    pub fn encode_string_field(&mut self, field_number: u8, value: &str) -> (r: Result<(), Error>)
        ensures
            r == field_outcome(
                field_number,
                string_field(field_number, value@).len(),
                old(self).room(),
            ),
            final(self).wrote(*old(self), string_field(field_number, value@), r),
            final(final(self).target())@ == final(old(self).target())@,
    {
        self.encode_bytes_field(field_number, value.as_bytes())
    }

    /// The finished output: what has been written so far, without what a
    /// failed write may have left behind it.
    pub fn as_bytes(&self) -> (r: &[u8])
        ensures
            self.wf(),
            r@ == self.committed(),
    {
        proof {
            use_type_invariant(self);
        }
        &self.buf[0..self.pos]
    }

    /// Once the writer is not used any more, the caller's buffer is as
    /// large as it was and starts with the output. What stands behind the
    /// output is left open.
    pub proof fn output_stays_in_buffer(&self)
        requires
            has_resolved(*self),
        ensures
            final(self.target())@.len() == self.capacity(),
            self.committed().is_prefix_of(final(self.target())@),
    {
        assert(has_resolved(self.buf));
        assert(self.buf@ == final(self.buf)@);
    }

    fn write_u8(&mut self, val: u8) -> (r: Result<(), Error>)
        ensures
            r == write_outcome(1, old(self).room()),
            final(self).wrote(*old(self), seq![val], r),
            final(final(self).target())@ == final(old(self).target())@,
    {
        proof {
            use_type_invariant(&*self);
        }
        if self.pos < self.buf.len() {
            self.buf[self.pos] = val;
            self.pos += 1;
            assert(self.committed() =~= old(self).committed() + seq![val]);
            Ok(())
        } else {
            Err(Error::BufferOverflow)
        }
    }

    fn write_bytes(&mut self, val: &[u8]) -> (r: Result<(), Error>)
        ensures
            r == write_outcome(val@.len(), old(self).room()),
            final(self).wrote(*old(self), val@, r),
            final(final(self).target())@ == final(old(self).target())@,
    {
        proof {
            use_type_invariant(&*self);
        }
        if val.len() <= self.buf.len() - self.pos {
            let mut i: usize = 0;
            while i < val.len()
                invariant
                    i <= val@.len(),
                    self.buf@.len() <= usize::MAX,
                    self.pos == old(self).pos,
                    self.pos + val@.len() <= self.buf@.len(),
                    self.buf@.len() == old(self).buf@.len(),
                    self.buf@.take(self.pos as int) == old(self).buf@.take(self.pos as int),
                    self.buf@.subrange(self.pos as int, self.pos + i) == val@.take(i as int),
                    final(self.target())@ == final(old(self).target())@,
                decreases val@.len() - i,
            {
                self.buf[self.pos + i] = val[i];
                i += 1;
                assert(self.buf@.take(self.pos as int) =~= old(self).buf@.take(self.pos as int));
                assert(self.buf@.subrange(self.pos as int, self.pos + i) =~= val@.take(i as int));
            }
            assert(self.buf@.take(self.pos + val@.len()) =~= self.buf@.take(self.pos as int)
                + self.buf@.subrange(self.pos as int, self.pos + val@.len()));
            assert(val@.take(val@.len() as int) =~= val@);
            self.pos += val.len();
            Ok(())
        } else {
            Err(Error::BufferOverflow)
        }
    }

    /// Gives up the output behind `to`, which a write that failed half-way
    /// had added.
    fn rewind(&mut self, to: usize)
        requires
            to <= old(self).committed().len(),
        ensures
            final(self).wf(),
            final(self).capacity() == old(self).capacity(),
            final(self).committed() == old(self).committed().take(to as int),
            final(final(self).target())@ == final(old(self).target())@,
    {
        proof {
            use_type_invariant(&*self);
        }
        self.pos = to;
        assert(self.committed() =~= old(self).committed().take(to as int));
    }
}

} // verus!
