use pgwhy::crafter::{
    authentication_ok, backend_key_data, command_complete, data_row, empty_query_response,
    error_response, ready_for_query, row_description,
};
use pgwhy::interface::{Data, Table};
use pgwhy::packet::{
    read_header, read_query, read_start_up_packet, PacketBuilder, PacketReader, WireError,
};

#[test]
fn builder_emits_tag_length_payload() {
    let mut b = PacketBuilder::new(88);
    b.add_i32(0x01020304);
    b.add_i16(-2);
    b.add_i1(7);
    let frame = b.build();
    assert_eq!(
        frame,
        vec![88, 0, 0, 0, 11, 1, 2, 3, 4, 0xff, 0xfe, 7],
    );
}

#[test]
fn frame_round_trip_reproduces_tag_and_payload() {
    let mut b = PacketBuilder::new(81);
    b.add_string(b"hello");
    b.add_i1(0);
    b.add_i32(-1);
    let frame = b.build();

    let mut reader = PacketReader::new(&frame);
    let tag = read_header(&mut reader).unwrap();
    assert_eq!(tag, 81);
    let declared = reader.read_i32_shift().unwrap();
    assert_eq!(declared, 4 + 5 + 1 + 4);
    let payload = reader.read((declared - 4) as i32).unwrap();
    assert_eq!(payload, vec![104, 101, 108, 108, 111, 0, 0xff, 0xff, 0xff, 0xff]);
}

#[test]
fn reader_decodes_signed_big_endian() {
    let reader = PacketReader::new(&[1, 2, 3, 4, 0xff, 0xfe]);
    let mut r = reader;
    assert_eq!(r.read_i32_shift().unwrap(), 0x01020304);
    assert_eq!(r.read_i16_shift().unwrap(), -2);
}

#[test]
fn reader_decodes_negative_i32() {
    let r = PacketReader::new(&[0xff, 0xff, 0xff, 0xff]);
    assert_eq!(r.read_i32_be().unwrap(), -1);
}

#[test]
fn short_read_is_an_error_not_a_short_result() {
    let r = PacketReader::new(&[1, 2, 3]);
    assert!(matches!(r.read_i32_be(), Err(WireError::FrameTooShort)));
    assert!(matches!(r.read(4), Err(WireError::FrameTooShort)));
    assert_eq!(r.read(3).unwrap(), vec![1, 2, 3]);
}

#[test]
fn read_does_not_advance_but_read_shift_does() {
    let mut r = PacketReader::new(&[9, 8, 7]);
    assert_eq!(r.read(2).unwrap(), vec![9, 8]);
    assert_eq!(r.read(2).unwrap(), vec![9, 8]);
    assert_eq!(r.read_shift(2).unwrap(), vec![9, 8]);
    assert_eq!(r.read(1).unwrap(), vec![7]);
    assert_eq!(r.len(), 3);
}

#[test]
fn startup_packet_version_three_accepted() {
    let mut r = PacketReader::new(&[0, 0, 0, 8, 0, 3, 0, 0]);
    assert!(read_start_up_packet(&mut r).is_ok());
}

#[test]
fn startup_packet_wrong_version_rejected() {
    let mut r = PacketReader::new(&[0, 0, 0, 8, 0, 2, 0, 0]);
    assert!(matches!(
        read_start_up_packet(&mut r),
        Err(WireError::UnsupportedProtocolVersion)
    ));
}

#[test]
fn startup_packet_length_mismatch_rejected() {
    let mut r = PacketReader::new(&[0, 0, 0, 9, 0, 3, 0, 0]);
    assert!(matches!(
        read_start_up_packet(&mut r),
        Err(WireError::ProtocolViolation)
    ));
}

#[test]
fn startup_packet_too_short_rejected() {
    let mut r = PacketReader::new(&[0, 0, 0]);
    assert!(matches!(
        read_start_up_packet(&mut r),
        Err(WireError::ProtocolViolation)
    ));
}

#[test]
fn read_query_strips_length_and_terminator() {
    // tag already consumed: length 4 + text 3 + null 1 = 8
    let mut r = PacketReader::new(&[0, 0, 0, 8, 65, 66, 67, 0]);
    assert_eq!(read_query(&mut r).unwrap(), vec![65, 66, 67]);
}

#[test]
fn read_query_truncated_is_an_error() {
    let mut r = PacketReader::new(&[0, 0, 0, 60, 65, 66, 67, 0]);
    assert!(matches!(read_query(&mut r), Err(WireError::FrameTooShort)));
}

#[test]
fn authentication_ok_exact_bytes() {
    assert_eq!(authentication_ok(), vec![82, 0, 0, 0, 8, 0, 0, 0, 0]);
}

#[test]
fn backend_key_data_exact_bytes() {
    assert_eq!(
        backend_key_data(),
        vec![75, 0, 0, 0, 12, 0, 0, 4, 210, 0, 0, 22, 46],
    );
}

#[test]
fn ready_for_query_exact_bytes() {
    assert_eq!(ready_for_query(), vec![90, 0, 0, 0, 5, 73]);
}

#[test]
fn empty_query_response_exact_bytes() {
    assert_eq!(empty_query_response(), vec![73, 0, 0, 0, 4]);
}

#[test]
fn error_response_exact_bytes() {
    let frame = error_response(b"C1", b"M1");
    let mut expected: Vec<u8> = vec![69, 0, 0, 0, 20, 83];
    expected.extend_from_slice(b"ERROR\0");
    expected.push(67);
    expected.extend_from_slice(b"C1\0");
    expected.push(68);
    expected.extend_from_slice(b"M1\0");
    expected.push(0);
    assert_eq!(frame, expected);
}

#[test]
fn command_complete_exact_bytes() {
    assert_eq!(
        command_complete(b"SELECT 1"),
        vec![67, 0, 0, 0, 13, 83, 69, 76, 69, 67, 84, 32, 49, 0],
    );
}

#[test]
fn row_description_one_int_column() {
    let table = Table {
        names: vec![b"x".to_vec()],
        rows: vec![vec![Data { typ: 23, data: Some(b"1".to_vec()) }]],
    };
    let frame = row_description(&table);
    let expected: Vec<u8> = vec![
        84, 0, 0, 0, 26, // tag, length 4 + 22
        0, 1, // one column
        120, 0, // "x", null-terminated
        0, 0, 0, 0, // table oid
        0, 0, // attribute number
        0, 0, 0, 23, // type oid
        0, 4, // fixed size
        0xff, 0xff, 0xff, 0xff, // type modifier -1
        0, 0, // text format code
    ];
    assert_eq!(frame, expected);
}

#[test]
fn data_row_one_cell() {
    let row = vec![Data { typ: 23, data: Some(b"1".to_vec()) }];
    assert_eq!(data_row(&row), vec![68, 0, 0, 0, 11, 0, 1, 0, 0, 0, 1, 49]);
}

#[test]
fn data_row_null_uses_minus_one_length() {
    let null_row = vec![Data { typ: 0, data: None }];
    let frame = data_row(&null_row);
    assert_eq!(frame, vec![68, 0, 0, 0, 10, 0, 1, 0xff, 0xff, 0xff, 0xff]);

    let empty_row = vec![Data { typ: 25, data: Some(Vec::new()) }];
    let empty_frame = data_row(&empty_row);
    assert_eq!(empty_frame, vec![68, 0, 0, 0, 10, 0, 1, 0, 0, 0, 0]);

    assert_ne!(frame, empty_frame);
}
