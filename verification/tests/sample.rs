use picopb::{Error, PbReader, WireType};

const SAMPLE: [u8; 210] = [
    10, 2, 142, 189, 34, 8, 87, 205, 156, 19, 216, 113, 154, 246, 64, 153, 130, 189, 180, 237, 46,
    90, 174, 1, 8, 31, 18, 169, 1, 10, 49, 116, 121, 112, 101, 46, 103, 111, 111, 103, 108, 101,
    97, 112, 105, 115, 46, 99, 111, 109, 47, 112, 114, 111, 116, 111, 99, 111, 108, 46, 84, 114,
    105, 103, 103, 101, 114, 83, 109, 97, 114, 116, 67, 111, 110, 116, 114, 97, 99, 116, 18, 116,
    10, 21, 65, 70, 162, 62, 37, 223, 154, 15, 108, 24, 114, 157, 218, 154, 209, 175, 59, 106, 19,
    17, 96, 18, 21, 65, 68, 2, 164, 182, 75, 204, 202, 245, 158, 208, 238, 228, 158, 174, 181,
    213, 48, 171, 206, 55, 34, 68, 169, 5, 156, 187, 0, 0, 0, 0, 0, 0, 0, 0, 0, 0, 0, 0, 8, 234,
    230, 179, 143, 100, 177, 251, 245, 55, 39, 187, 112, 89, 37, 51, 214, 79, 28, 220, 0, 0, 0, 0,
    0, 0, 0, 0, 0, 0, 0, 0, 0, 0, 0, 0, 0, 0, 0, 0, 0, 0, 0, 0, 0, 0, 0, 0, 0, 0, 39, 16, 112,
    221, 179, 185, 180, 237, 46, 144, 1, 192, 132, 61,
];

#[test]
fn sample_message_field_by_field() {
    let mut rd = PbReader::new(&SAMPLE);

    assert_eq!(rd.next_key(), Ok((1, WireType::Bytes)));
    assert_eq!(rd.next_bytes(), Ok(&[0x8eu8, 0xbd][..]));
    assert_eq!(rd.next_key(), Ok((4, WireType::Bytes)));
    assert_eq!(rd.next_bytes(), Ok(&[0x57u8, 0xcd, 0x9c, 0x13, 0xd8, 0x71, 0x9a, 0xf6][..]));
    assert_eq!(rd.next_key(), Ok((8, WireType::Varint)));
    assert_eq!(rd.next_varint(), Ok(1609917481241));
    assert_eq!(rd.next_key(), Ok((11, WireType::Bytes)));

    let mut container = rd.next_embedded_message().ok().unwrap();
    assert_eq!(container.next_key(), Ok((1, WireType::Varint)));
    assert_eq!(container.next_varint(), Ok(31));
    assert_eq!(container.next_key(), Ok((2, WireType::Bytes)));

    let mut parameter = container.next_embedded_message().ok().unwrap();
    assert!(container.is_eof());
    assert_eq!(parameter.next_key(), Ok((1, WireType::Bytes)));
    assert_eq!(parameter.next_string(), Ok("type.googleapis.com/protocol.TriggerSmartContract"));
    assert_eq!(parameter.next_key(), Ok((2, WireType::Bytes)));

    let mut value = parameter.next_embedded_message().ok().unwrap();
    assert!(parameter.is_eof());
    assert_eq!(value.next_key(), Ok((1, WireType::Bytes)));
    let owner = value.next_bytes().unwrap();
    assert_eq!(owner.len(), 21);
    assert_eq!(owner[0], 0x41);
    assert_eq!(owner[20], 0x60);
    assert_eq!(value.next_key(), Ok((2, WireType::Bytes)));
    let contract = value.next_bytes().unwrap();
    assert_eq!(contract.len(), 21);
    assert_eq!(contract[0], 0x41);
    assert_eq!(contract[20], 0x37);
    assert_eq!(value.next_key(), Ok((4, WireType::Bytes)));
    let data = value.next_bytes().unwrap();
    assert_eq!(data.len(), 68);
    assert_eq!(&data[..4], &[0xa9, 0x05, 0x9c, 0xbb]);
    assert_eq!(&data[66..], &[0x27, 0x10]);
    assert!(value.is_eof());
    assert_eq!(value.next_key(), Err(Error::Eof));

    assert_eq!(rd.next_key(), Ok((14, WireType::Varint)));
    assert_eq!(rd.next_varint(), Ok(1609917422045));
    assert_eq!(rd.next_key(), Ok((18, WireType::Varint)));
    assert_eq!(rd.next_varint(), Ok(1));
    assert_eq!(rd.next_key(), Ok((24, WireType::Varint)));
    assert_eq!(rd.next_varint(), Ok(7812));
    assert!(rd.is_eof());
    assert_eq!(rd.next_key(), Err(Error::Eof));
}

#[test]
fn sample_message_skipped_field_by_field() {
    let mut rd = PbReader::new(&SAMPLE);
    let mut numbers = Vec::new();
    loop {
        match rd.peek_next_key() {
            Ok((number, _)) => numbers.push(number),
            Err(e) => {
                assert!(e.is_eof());
                break;
            }
        }
        assert_eq!(rd.skip_next_field(), Ok(()));
    }
    assert_eq!(numbers, vec![1, 4, 8, 11, 14, 18, 24]);
    assert!(rd.is_eof());
}
