//! Reading: a cursor over a borrowed buffer, and what each read means.

use crate::error::Error;
use crate::parsed::Parsed;
use crate::varint::{
    base128, lemma_accumulate, lemma_base128_bounded, lemma_base128_push, lemma_run_bytes,
    lemma_run_is, parse_varint, MAX_VARINT_LEN,
};
use crate::wire_type::{decode_key, WireType};
use crate::zigzag::{unzigzag, zigzag_decode};
use vstd::arithmetic::div_mod::lemma_small_mod;
use vstd::arithmetic::power2::{lemma2_to64, lemma2_to64_rest, lemma_pow2_strictly_increases};
use vstd::prelude::*;
use vstd::string::StringSliceAdditionalSpecFns;
use vstd::utf8::{decode_utf8, encode_utf8_decode_utf8, valid_utf8};

verus! {

/// What reading a field key from the front of `s` gives. An empty `s` is
/// the clean end of a message. Otherwise the first byte is taken, also
/// where its wire type turns out to be invalid.
pub open spec fn parse_key(s: Seq<u8>) -> Parsed<(u8, WireType)> {
    if s.len() == 0 {
        Parsed { outcome: Err(Error::Eof), consumed: 0 }
    } else {
        Parsed { outcome: decode_key(s[0]), consumed: 1 }
    }
}

/// What reading a signed varint from the front of `s` gives: the varint
/// read there, mapped back from zigzag.
pub open spec fn parse_svarint(s: Seq<u8>) -> Parsed<i64> {
    let raw = parse_varint(s);
    Parsed {
        outcome: match raw.outcome {
            Ok(u) => Ok(unzigzag(u)),
            Err(e) => Err(e),
        },
        consumed: raw.consumed,
    }
}

/// What reading `width` raw bytes from the front of `s` gives: those bytes
/// as they stand, or nothing at all where fewer are left.
pub open spec fn parse_fixed(s: Seq<u8>, width: nat) -> Parsed<Seq<u8>> {
    if s.len() < width {
        Parsed { outcome: Err(Error::UnexpectedEof), consumed: 0 }
    } else {
        Parsed { outcome: Ok(s.take(width as int)), consumed: width }
    }
}

/// What reading a length-delimited value from the front of `s` gives: a
/// varint length, then that many bytes. Where the length cannot be read,
/// or is more than what is left behind it, the cursor stays where the read
/// of the length left it.
pub open spec fn parse_bytes(s: Seq<u8>) -> Parsed<Seq<u8>> {
    let len = parse_varint(s);
    match len.outcome {
        Err(e) => Parsed { outcome: Err(e), consumed: len.consumed },
        Ok(n) => {
            if n > s.len() - len.consumed {
                Parsed { outcome: Err(Error::UnexpectedEof), consumed: len.consumed }
            } else {
                Parsed {
                    outcome: Ok(s.subrange(len.consumed as int, len.consumed + n)),
                    consumed: len.consumed + n as nat,
                }
            }
        },
    }
}

/// What reading a string from the front of `s` gives: a length-delimited
/// value that must be valid UTF-8. The cursor moves as for the bytes, also
/// where they are not text.
pub open spec fn parse_string(s: Seq<u8>) -> Parsed<Seq<char>> {
    let raw = parse_bytes(s);
    Parsed {
        outcome: match raw.outcome {
            Ok(bytes) => {
                if valid_utf8(bytes) {
                    Ok(decode_utf8(bytes))
                } else {
                    Err(Error::InvalidUtf8String)
                }
            },
            Err(e) => Err(e),
        },
        consumed: raw.consumed,
    }
}

/// What passing over a value of the given wire type at the front of `s`
/// gives: the read that the wire type calls for, with its value dropped.
pub open spec fn skip_value(wire_type: WireType, s: Seq<u8>) -> Parsed<()> {
    match wire_type {
        WireType::Varint => parse_varint(s).discard(),
        WireType::Bytes => parse_bytes(s).discard(),
        WireType::Bit32 => parse_fixed(s, 4).discard(),
        WireType::Bit64 => parse_fixed(s, 8).discard(),
    }
}

/// What passing over a whole field at the front of `s` gives: its key is
/// read, then its value is passed over as the wire type in the key says.
pub open spec fn skip_field(s: Seq<u8>) -> Parsed<()> {
    let key = parse_key(s);
    match key.outcome {
        Err(e) => Parsed { outcome: Err(e), consumed: key.consumed },
        Ok((_, wire_type)) => {
            let value = skip_value(wire_type, s.skip(key.consumed as int));
            Parsed { outcome: value.outcome, consumed: key.consumed + value.consumed }
        },
    }
}

/// No read goes past the end of the bytes it is given, whether it succeeds
/// or fails and whatever length a length-delimited value claims to have.
pub proof fn reads_stay_inside(s: Seq<u8>)
    ensures
        parse_key(s).consumed <= s.len(),
        parse_varint(s).consumed <= s.len(),
        parse_svarint(s).consumed <= s.len(),
        forall|width: nat| (#[trigger] parse_fixed(s, width)).consumed <= s.len(),
        parse_bytes(s).consumed <= s.len(),
        parse_string(s).consumed <= s.len(),
        skip_field(s).consumed <= s.len(),
{
    if s.len() > 0 {
        let rest = s.skip(1);
        assert(parse_varint(rest).consumed <= rest.len());
        assert(parse_bytes(rest).consumed <= rest.len());
    }
}

/// The clean end of a message is met only where a key is looked for and
/// nothing at all is left. A buffer that ends inside a value is never
/// reported as that.
pub proof fn eof_only_at_a_key(s: Seq<u8>)
    ensures
        parse_key(s).outcome == Err::<(u8, WireType), Error>(Error::Eof) <==> s.len() == 0,
        skip_field(s).outcome == Err::<(), Error>(Error::Eof) <==> s.len() == 0,
        parse_varint(s).outcome != Err::<u64, Error>(Error::Eof),
        parse_svarint(s).outcome != Err::<i64, Error>(Error::Eof),
        forall|width: nat| (#[trigger] parse_fixed(s, width)).outcome != Err::<Seq<u8>, Error>(
            Error::Eof,
        ),
        parse_bytes(s).outcome != Err::<Seq<u8>, Error>(Error::Eof),
        parse_string(s).outcome != Err::<Seq<char>, Error>(Error::Eof),
{
    if s.len() > 0 {
        let rest = s.skip(1);
        assert(parse_varint(rest).outcome != Err::<u64, Error>(Error::Eof));
        assert(parse_bytes(rest).outcome != Err::<Seq<u8>, Error>(Error::Eof));
    }
}

/// A length-delimited value whose length says more than what is left
/// behind it is refused, and the cursor has only passed the length.
pub proof fn overlong_bytes_are_refused(s: Seq<u8>)
    requires
        parse_varint(s).outcome is Ok,
        parse_varint(s).outcome->Ok_0 > s.len() - parse_varint(s).consumed,
    ensures
        parse_bytes(s) == (Parsed {
            outcome: Err::<Seq<u8>, Error>(Error::UnexpectedEof),
            consumed: parse_varint(s).consumed,
        }),
{
}

/// A cursor that decodes a borrowed buffer from front to back.
///
/// Contracts speak of the buffer, [`PbReader::buffer`], and of the number
/// of bytes read so far, [`PbReader::position`]. What a read returns and
/// how far it moves are those of the matching function on the bytes not
/// yet read, [`PbReader::remaining`]. Bytes and text that a read returns
/// live as long as the buffer, not only as long as the reader.
pub struct PbReader<'a> {
    buf: &'a [u8],
    pos: usize,
}

impl<'a> PbReader<'a> {
    #[verifier::type_invariant]
    spec fn within_buffer(&self) -> bool {
        self.pos <= self.buf@.len()
    }

    /// The whole buffer that the reader was made over.
    pub closed spec fn buffer(&self) -> Seq<u8> {
        self.buf@
    }

    /// The number of bytes that have been read.
    pub closed spec fn position(&self) -> nat {
        self.pos as nat
    }

    /// The position is inside the buffer or at its end. Every reader that
    /// this library hands out or has worked on is well formed.
    pub open spec fn wf(&self) -> bool {
        self.position() <= self.buffer().len()
    }

    /// The bytes that have not been read yet.
    pub open spec fn remaining(&self) -> Seq<u8> {
        self.buffer().skip(self.position() as int)
    }

    /// This reader is `before` moved forward by `n` bytes inside the same
    /// buffer.
    pub open spec fn follows(&self, before: Self, n: nat) -> bool {
        &&& self.wf()
        &&& self.buffer() == before.buffer()
        &&& self.position() == before.position() + n
    }

    /// A reader at the start of `buf`.
    pub fn new(buf: &'a [u8]) -> (r: PbReader<'a>)
        ensures
            r.wf(),
            r.buffer() == buf@,
            r.position() == 0,
    {
        PbReader { buf, pos: 0 }
    }

    /// Whether every byte has been read.
    pub fn is_eof(&self) -> (r: bool)
        ensures
            self.wf(),
            r == (self.position() == self.buffer().len()),
    {
        proof {
            use_type_invariant(self);
        }
        self.pos == self.buf.len()
    }

    /// Reads the key of the next field without moving: the field number
    /// and the wire type. Fails with [`Error::Eof`] where no byte is left,
    /// and with [`Error::InvalidWireType`] where the low three bits of the
    /// key name no wire type.
    pub fn peek_next_key(&self) -> (r: Result<(u8, WireType), Error>)
        ensures
            self.wf(),
            r == parse_key(self.remaining()).outcome,
    {
        let key = match self.peek_next_u8() {
            Some(key) => key,
            None => {
                return Err(Error::Eof);
            },
        };
        match WireType::from_tag(key) {
            Ok(wire_type) => Ok((key >> 3, wire_type)),
            Err(e) => Err(e),
        }
    }

    /// Reads the key of the next field and moves past it. The outcome is
    /// that of [`PbReader::peek_next_key`]; the key byte is passed also
    /// where its wire type is invalid.
    pub fn next_key(&mut self) -> (r: Result<(u8, WireType), Error>)
        ensures
            final(self).follows(*old(self), parse_key(old(self).remaining()).consumed),
            r == parse_key(old(self).remaining()).outcome,
    {
        let key = match self.next_u8() {
            Some(key) => key,
            None => {
                return Err(Error::Eof);
            },
        };
        match WireType::from_tag(key) {
            Ok(wire_type) => Ok((key >> 3, wire_type)),
            Err(e) => Err(e),
        }
    }

    /// Reads four raw bytes, in the order in which they stand in the
    /// buffer. Where fewer than four are left, nothing is read.
    pub fn next_fixed32(&mut self) -> (r: Result<[u8; 4], Error>)
        ensures
            final(self).follows(*old(self), parse_fixed(old(self).remaining(), 4).consumed),
            match r {
                Ok(bytes) => parse_fixed(old(self).remaining(), 4).outcome == Ok::<Seq<u8>, Error>(
                    bytes@,
                ),
                Err(e) => parse_fixed(old(self).remaining(), 4).outcome == Err::<Seq<u8>, Error>(e),
            },
    {
        proof {
            use_type_invariant(&*self);
        }
        if self.buf.len() - self.pos < 4 {
            Err(Error::UnexpectedEof)
        } else {
            let p = self.pos;
            let bytes = [self.buf[p], self.buf[p + 1], self.buf[p + 2], self.buf[p + 3]];
            self.pos += 4;
            assert(bytes@ =~= old(self).remaining().take(4));
            Ok(bytes)
        }
    }

    /// Reads eight raw bytes, in the order in which they stand in the
    /// buffer. Where fewer than eight are left, nothing is read.
    pub fn next_fixed64(&mut self) -> (r: Result<[u8; 8], Error>)
        ensures
            final(self).follows(*old(self), parse_fixed(old(self).remaining(), 8).consumed),
            match r {
                Ok(bytes) => parse_fixed(old(self).remaining(), 8).outcome == Ok::<Seq<u8>, Error>(
                    bytes@,
                ),
                Err(e) => parse_fixed(old(self).remaining(), 8).outcome == Err::<Seq<u8>, Error>(e),
            },
    {
        proof {
            use_type_invariant(&*self);
        }
        if self.buf.len() - self.pos < 8 {
            Err(Error::UnexpectedEof)
        } else {
            let p = self.pos;
            let bytes = [
                self.buf[p],
                self.buf[p + 1],
                self.buf[p + 2],
                self.buf[p + 3],
                self.buf[p + 4],
                self.buf[p + 5],
                self.buf[p + 6],
                self.buf[p + 7],
            ];
            self.pos += 8;
            assert(bytes@ =~= old(self).remaining().take(8));
            Ok(bytes)
        }
    }

    /// Reads a varint. Fails with [`Error::UnexpectedEof`] where the
    /// buffer ends before a byte without continuation bit, and with
    /// [`Error::VarintOverflow`] where an eleventh byte is reached.
    pub fn next_varint(&mut self) -> (r: Result<u64, Error>)
        ensures
            final(self).follows(*old(self), parse_varint(old(self).remaining()).consumed),
            r == parse_varint(old(self).remaining()).outcome,
    {
        proof {
            use_type_invariant(&*self);
        }
        let ghost start = *self;
        let ghost rem = self.remaining();
        let ghost mut i: nat = 0;
        let mut result: u64 = 0;
        let mut bitpos: u64 = 0;
        assert(rem.take(0) =~= Seq::<u8>::empty());
        loop
            invariant
                start == *old(self),
                start.wf(),
                rem == start.remaining(),
                self.follows(start, i),
                i <= MAX_VARINT_LEN,
                bitpos == 7 * i,
                forall|j: int| 0 <= j < i ==> rem[j] >= 0x80,
                result == base128(rem.take(i as int)) % 0x1_0000_0000_0000_0000,
            decreases MAX_VARINT_LEN + 1 - i,
        {
            let b = match self.next_u8() {
                Some(b) => b,
                None => {
                    proof {
                        lemma_run_is(rem, i);
                    }
                    return Err(Error::UnexpectedEof);
                },
            };
            assert(b == rem[i as int]);
            if bitpos >= 64 {
                proof {
                    lemma_run_bytes(rem);
                }
                return Err(Error::VarintOverflow);
            }
            proof {
                lemma_base128_bounded(rem.take(i as int));
                lemma2_to64();
                lemma2_to64_rest();
                if 7 * i < 63 {
                    lemma_pow2_strictly_increases(7 * i, 63);
                }
                lemma_small_mod(base128(rem.take(i as int)), 0x1_0000_0000_0000_0000);
                lemma_accumulate(result, b, i);
                assert(rem.take(i as int + 1) =~= rem.take(i as int).push(b));
                lemma_base128_push(rem.take(i as int), b);
            }
            let tmp = ((b & 0x7f) as u64) << bitpos;
            result = result + tmp;
            if b & 0x80 == 0 {
                proof {
                    assert(b & 0x80 == 0 ==> b < 0x80) by (bit_vector);
                    lemma_run_is(rem, i);
                }
                return Ok(result);
            }
            bitpos += 7;
            proof {
                assert(b & 0x80 != 0 ==> b >= 0x80) by (bit_vector);
                i = i + 1;
            }
        }
    }

    /// Reads a signed varint: a varint, mapped back from zigzag.
    pub fn next_svarint(&mut self) -> (r: Result<i64, Error>)
        ensures
            final(self).follows(*old(self), parse_svarint(old(self).remaining()).consumed),
            r == parse_svarint(old(self).remaining()).outcome,
    {
        let val = self.next_varint()?;
        Ok(zigzag_decode(val))
    }

    /// Reads a length-delimited value and returns its bytes, which are
    /// borrowed from the buffer and not copied. Fails with
    /// [`Error::UnexpectedEof`] where the length says more than what is
    /// left, however large the length is.
    pub fn next_bytes(&mut self) -> (r: Result<&'a [u8], Error>)
        ensures
            final(self).follows(*old(self), parse_bytes(old(self).remaining()).consumed),
            match r {
                Ok(bytes) => parse_bytes(old(self).remaining()).outcome == Ok::<Seq<u8>, Error>(
                    bytes@,
                ),
                Err(e) => parse_bytes(old(self).remaining()).outcome == Err::<Seq<u8>, Error>(e),
            },
    {
        let len = self.next_varint()?;
        proof {
            use_type_invariant(&*self);
        }
        let left = self.buf.len() - self.pos;
        if len > left as u64 {
            Err(Error::UnexpectedEof)
        } else {
            let len = len as usize;
            let bytes = &self.buf[self.pos..self.pos + len];
            assert(bytes@ =~= old(self).remaining().subrange(
                self.pos - old(self).pos,
                self.pos - old(self).pos + len,
            ));
            self.pos += len;
            Ok(bytes)
        }
    }

    /// Reads a length-delimited value as text, which is borrowed from the
    /// buffer and not copied. Fails with [`Error::InvalidUtf8String`]
    /// where the bytes are not valid UTF-8; the reader has then moved past
    /// them all the same.
    pub fn next_string(&mut self) -> (r: Result<&'a str, Error>)
        ensures
            final(self).follows(*old(self), parse_string(old(self).remaining()).consumed),
            match r {
                Ok(text) => {
                    &&& parse_string(old(self).remaining()).outcome == Ok::<Seq<char>, Error>(
                        text@,
                    )
                    &&& parse_bytes(old(self).remaining()).outcome == Ok::<Seq<u8>, Error>(
                        text.spec_bytes(),
                    )
                },
                Err(e) => parse_string(old(self).remaining()).outcome == Err::<Seq<char>, Error>(
                    e,
                ),
            },
    {
        let raw = self.next_bytes()?;
        match core::str::from_utf8(raw) {
            Ok(text) => {
                proof {
                    encode_utf8_decode_utf8(text@);
                }
                Ok(text)
            },
            Err(_) => Err(Error::InvalidUtf8String),
        }
    }

    /// Reads a length-delimited value as an embedded message: a reader
    /// of its own over the bytes of the value, at their start. The two
    /// readers move independently from then on; this one has already
    /// passed the whole value.
    pub fn next_embedded_message(&mut self) -> (r: Result<PbReader<'a>, Error>)
        ensures
            final(self).follows(*old(self), parse_bytes(old(self).remaining()).consumed),
            match r {
                Ok(inner) => {
                    &&& parse_bytes(old(self).remaining()).outcome == Ok::<Seq<u8>, Error>(
                        inner.buffer(),
                    )
                    &&& inner.position() == 0
                    &&& inner.wf()
                },
                Err(e) => parse_bytes(old(self).remaining()).outcome == Err::<Seq<u8>, Error>(e),
            },
    {
        let bytes = self.next_bytes()?;
        Ok(PbReader::new(bytes))
    }

    /// Passes over the next field, key and value. The value is read as the
    /// wire type in the key says and then dropped. An error of either read
    /// is handed on, with the reader left where that read left it.
    pub fn skip_next_field(&mut self) -> (r: Result<(), Error>)
        ensures
            final(self).follows(*old(self), skip_field(old(self).remaining()).consumed),
            r == skip_field(old(self).remaining()).outcome,
    {
        let (_, wire_type) = self.next_key()?;
        assert(self.remaining() =~= old(self).remaining().skip(1));
        match wire_type {
            WireType::Varint => {
                let _ = self.next_varint()?;
            },
            WireType::Bytes => {
                let _ = self.next_bytes()?;
            },
            WireType::Bit32 => {
                let _ = self.next_fixed32()?;
            },
            WireType::Bit64 => {
                let _ = self.next_fixed64()?;
            },
        }
        Ok(())
    }

    fn has_next(&self) -> (r: bool)
        ensures
            self.wf(),
            r == (self.position() < self.buffer().len()),
            r == (self.remaining().len() > 0),
            self.buffer().len() <= usize::MAX,
    {
        proof {
            use_type_invariant(self);
        }
        self.pos < self.buf.len()
    }

    fn peek_next_u8(&self) -> (r: Option<u8>)
        ensures
            self.wf(),
            r == if self.remaining().len() > 0 {
                Some(self.remaining()[0])
            } else {
                None
            },
    {
        if self.has_next() {
            Some(self.buf[self.pos])
        } else {
            None
        }
    }

    fn next_u8(&mut self) -> (r: Option<u8>)
        ensures
            final(self).follows(*old(self), if old(self).remaining().len() > 0 { 1nat } else { 0nat }),
            r == if old(self).remaining().len() > 0 {
                Some(old(self).remaining()[0])
            } else {
                None
            },
    {
        if self.has_next() {
            let i = self.pos;
            self.pos += 1;
            Some(self.buf[i])
        } else {
            None
        }
    }
}

} // verus!
