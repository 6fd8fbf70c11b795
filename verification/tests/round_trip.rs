use picopb::{Error, PbReader, PbWriter, WireType};

fn varint_samples() -> Vec<u64> {
    let mut samples = vec![0u64, 1, 2, 126, 127, 128, 129, 255, 256, 300, 16383, 16384];
    let mut shift = 0;
    while shift < 64 {
        let p = 1u64 << shift;
        samples.push(p);
        samples.push(p - 1);
        samples.push(p + 1);
        shift += 1;
    }
    samples.push(u64::MAX);
    samples.push(u64::MAX - 1);
    samples.push(u32::MAX as u64);
    samples.push(0x0123_4567_89ab_cdef);
    samples
}

#[test]
fn varint_round_trip_on_samples() {
    for v in varint_samples() {
        let mut buf = [0u8; 10];
        let mut w = PbWriter::new(&mut buf);
        assert_eq!(w.write_varint(v), Ok(()));
        let mut rd = PbReader::new(w.as_bytes());
        assert_eq!(rd.next_varint(), Ok(v));
        assert!(rd.is_eof());
    }
}

#[test]
fn varint_round_trip_with_bytes_behind() {
    for v in varint_samples() {
        let mut buf = [0u8; 12];
        let mut w = PbWriter::new(&mut buf);
        assert_eq!(w.write_varint(v), Ok(()));
        assert_eq!(w.write_varint(0x2a), Ok(()));
        let mut rd = PbReader::new(w.as_bytes());
        assert_eq!(rd.next_varint(), Ok(v));
        assert_eq!(rd.next_varint(), Ok(0x2a));
        assert!(rd.is_eof());
    }
}

#[test]
fn varint_length_grows_every_seven_bits() {
    let mut shift = 0;
    while shift < 64 {
        let mut buf = [0u8; 10];
        let mut w = PbWriter::new(&mut buf);
        assert_eq!(w.write_varint(1u64 << shift), Ok(()));
        assert_eq!(w.as_bytes().len(), shift / 7 + 1);
        shift += 1;
    }
}

#[test]
fn varint_field_round_trip() {
    for v in varint_samples() {
        let mut buf = [0u8; 11];
        let mut w = PbWriter::new(&mut buf);
        assert_eq!(w.encode_varint_field(7, v), Ok(()));
        let mut rd = PbReader::new(w.as_bytes());
        assert_eq!(rd.next_key(), Ok((7, WireType::Varint)));
        assert_eq!(rd.next_varint(), Ok(v));
        assert!(rd.is_eof());
    }
}

#[test]
fn every_field_number_round_trips() {
    let mut n: u8 = 0;
    while n <= 31 {
        let mut buf = [0u8; 8];
        let mut w = PbWriter::new(&mut buf);
        assert_eq!(w.encode_varint_field(n, 1), Ok(()));
        assert_eq!(w.encode_bytes_field(n, &[n]), Ok(()));
        let mut rd = PbReader::new(w.as_bytes());
        assert_eq!(rd.peek_next_key(), Ok((n, WireType::Varint)));
        assert_eq!(rd.next_key(), Ok((n, WireType::Varint)));
        assert_eq!(rd.next_varint(), Ok(1));
        assert_eq!(rd.next_key(), Ok((n, WireType::Bytes)));
        assert_eq!(rd.next_bytes(), Ok(&[n][..]));
        assert!(rd.is_eof());
        n += 1;
    }
}

#[test]
fn svarint_field_round_trip() {
    let samples: [i64; 11] =
        [0, 1, -1, 63, -64, 64, -65, i64::MAX, i64::MIN, 1234567890123, -1234567890123];
    for v in samples {
        let mut buf = [0u8; 11];
        let mut w = PbWriter::new(&mut buf);
        assert_eq!(w.encode_svarint_field(3, v), Ok(()));
        let mut rd = PbReader::new(w.as_bytes());
        assert_eq!(rd.next_key(), Ok((3, WireType::Varint)));
        assert_eq!(rd.next_svarint(), Ok(v));
        assert!(rd.is_eof());
    }
}

#[test]
fn bytes_field_round_trip() {
    let payloads: [&[u8]; 4] = [&[], &[0x00], &[0xff, 0x80, 0x7f], &[0x11; 130]];
    for payload in payloads {
        let mut buf = [0u8; 140];
        let mut w = PbWriter::new(&mut buf);
        assert_eq!(w.encode_bytes_field(5, payload), Ok(()));
        let mut rd = PbReader::new(w.as_bytes());
        assert_eq!(rd.next_key(), Ok((5, WireType::Bytes)));
        assert_eq!(rd.next_bytes(), Ok(payload));
        assert!(rd.is_eof());
    }
}

#[test]
fn string_field_round_trip() {
    let texts = ["", "hi", "gr\u{fc}\u{df}e", "\u{4e16}\u{754c}", "\u{1f600}"];
    for text in texts {
        let mut buf = [0u8; 32];
        let mut w = PbWriter::new(&mut buf);
        assert_eq!(w.encode_string_field(6, text), Ok(()));
        let mut rd = PbReader::new(w.as_bytes());
        assert_eq!(rd.next_key(), Ok((6, WireType::Bytes)));
        assert_eq!(rd.next_string(), Ok(text));
        assert!(rd.is_eof());
    }
}

#[test]
fn nested_message_round_trip() {
    let mut inner_buf = [0u8; 8];
    let mut inner = PbWriter::new(&mut inner_buf);
    assert_eq!(inner.encode_varint_field(1, 42), Ok(()));
    let mut outer_buf = [0u8; 16];
    let mut outer = PbWriter::new(&mut outer_buf);
    assert_eq!(outer.encode_bytes_field(3, inner.as_bytes()), Ok(()));
    assert_eq!(outer.as_bytes(), &[0x1a, 0x02, 0x08, 0x2a]);

    let mut rd = PbReader::new(outer.as_bytes());
    assert_eq!(rd.next_key(), Ok((3, WireType::Bytes)));
    let mut embedded = match rd.next_embedded_message() {
        Ok(embedded) => embedded,
        Err(e) => panic!("no embedded message: {:?}", e),
    };
    assert_eq!(embedded.next_key(), Ok((1, WireType::Varint)));
    assert_eq!(embedded.next_varint(), Ok(42));
    assert!(embedded.is_eof());
    assert_eq!(embedded.next_key(), Err(Error::Eof));
    assert!(rd.is_eof());
}

#[test]
fn skip_passes_exactly_one_written_field() {
    let mut buf = [0u8; 64];
    let mut w = PbWriter::new(&mut buf);
    assert_eq!(w.encode_varint_field(1, u64::MAX), Ok(()));
    assert_eq!(w.encode_string_field(2, "skipped"), Ok(()));
    assert_eq!(w.encode_svarint_field(3, -5), Ok(()));
    assert_eq!(w.encode_bytes_field(4, &[]), Ok(()));
    assert_eq!(w.encode_varint_field(5, 99), Ok(()));
    let mut rd = PbReader::new(w.as_bytes());
    assert_eq!(rd.skip_next_field(), Ok(()));
    assert_eq!(rd.peek_next_key(), Ok((2, WireType::Bytes)));
    assert_eq!(rd.skip_next_field(), Ok(()));
    assert_eq!(rd.peek_next_key(), Ok((3, WireType::Varint)));
    assert_eq!(rd.skip_next_field(), Ok(()));
    assert_eq!(rd.peek_next_key(), Ok((4, WireType::Bytes)));
    assert_eq!(rd.skip_next_field(), Ok(()));
    assert_eq!(rd.next_key(), Ok((5, WireType::Varint)));
    assert_eq!(rd.next_varint(), Ok(99));
    assert_eq!(rd.skip_next_field(), Err(Error::Eof));
}

#[test]
fn message_of_mixed_fields_round_trips() {
    let mut buf = [0u8; 64];
    let mut w = PbWriter::new(&mut buf);
    assert_eq!(w.encode_varint_field(1, 150), Ok(()));
    assert_eq!(w.encode_string_field(2, "testing"), Ok(()));
    assert_eq!(w.encode_svarint_field(3, -2), Ok(()));
    assert_eq!(w.encode_bytes_field(4, &[1, 2, 3]), Ok(()));
    assert_eq!(
        w.as_bytes(),
        &[
            0x08, 0x96, 0x01, 0x12, 0x07, b't', b'e', b's', b't', b'i', b'n', b'g', 0x18, 0x03,
            0x22, 0x03, 1, 2, 3
        ]
    );
    let mut rd = PbReader::new(w.as_bytes());
    assert_eq!(rd.next_key(), Ok((1, WireType::Varint)));
    assert_eq!(rd.next_varint(), Ok(150));
    assert_eq!(rd.next_key(), Ok((2, WireType::Bytes)));
    assert_eq!(rd.next_string(), Ok("testing"));
    assert_eq!(rd.next_key(), Ok((3, WireType::Varint)));
    assert_eq!(rd.next_svarint(), Ok(-2));
    assert_eq!(rd.next_key(), Ok((4, WireType::Bytes)));
    assert_eq!(rd.next_bytes(), Ok(&[1u8, 2, 3][..]));
    assert_eq!(rd.next_key(), Err(Error::Eof));
}
