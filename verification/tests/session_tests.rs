use pgwhy::crafter::{empty_query_response, ready_for_query};
use pgwhy::mapper::{i128_to_dec, map_row, to_cell, u128_to_dec, MapError, Value};
use pgwhy::packet::WireError;
use pgwhy::session::{EngineReply, MessageOutcome, Phase, Session};

fn query_message(text: &[u8]) -> Vec<u8> {
    let mut m: Vec<u8> = vec![81];
    let len = (4 + text.len() + 1) as i32;
    m.extend_from_slice(&[
        (len >> 24) as u8,
        (len >> 16) as u8,
        (len >> 8) as u8,
        len as u8,
    ]);
    m.extend_from_slice(text);
    m.push(0);
    m
}

fn ready_session() -> Session {
    let mut s = Session::new();
    s.on_startup(&[0, 0, 0, 8, 0, 3, 0, 0]).unwrap();
    s
}

#[test]
fn startup_replies_in_order_then_ready() {
    let mut s = Session::new();
    assert!(matches!(s.phase, Phase::AwaitingStartup));
    let reply = s.on_startup(&[0, 0, 0, 8, 0, 3, 0, 0]).unwrap();
    let mut expected = pgwhy::crafter::authentication_ok();
    expected.extend_from_slice(&pgwhy::crafter::backend_key_data());
    expected.extend_from_slice(&ready_for_query());
    assert_eq!(reply, expected);
    assert!(matches!(s.phase, Phase::Ready));
}

#[test]
fn unsupported_version_yields_no_bytes_and_no_ready() {
    let mut s = Session::new();
    let r = s.on_startup(&[0, 0, 0, 8, 0, 2, 0, 0]);
    assert!(matches!(r, Err(WireError::UnsupportedProtocolVersion)));
    assert!(matches!(s.phase, Phase::AwaitingStartup));
}

#[test]
fn startup_length_mismatch_is_protocol_violation() {
    let mut s = Session::new();
    let r = s.on_startup(&[0, 0, 0, 12, 0, 3, 0, 0]);
    assert!(matches!(r, Err(WireError::ProtocolViolation)));
}

#[test]
fn whitespace_query_gets_empty_query_response() {
    let s = ready_session();
    let msg = query_message(b" \t \r\n ");
    match s.on_message(&msg) {
        MessageOutcome::Reply(reply) => {
            let mut expected = empty_query_response();
            expected.extend_from_slice(&ready_for_query());
            assert_eq!(reply, expected);
            // never a RowDescription: no byte of the reply opens a 'T' frame
            assert_eq!(reply[0], 73);
            assert_eq!(reply[5], 90);
        }
        _ => panic!("expected an immediate reply"),
    }
}

#[test]
fn only_first_statement_is_dispatched() {
    let s = ready_session();
    let msg = query_message(b"SELECT 1; SELECT 2");
    match s.on_message(&msg) {
        MessageOutcome::RunQuery(job) => {
            assert_eq!(job.query, b"SELECT 1; SELECT 2".to_vec());
            assert_eq!(job.statement, b"SELECT 1".to_vec());
            assert_eq!(job.verb, b"SELECT".to_vec());
        }
        _ => panic!("expected a query job"),
    }
}

#[test]
fn unknown_tag_is_ignored() {
    let s = ready_session();
    let msg = [88, 0, 0, 0, 4];
    assert!(matches!(s.on_message(&msg), MessageOutcome::Ignored));
}

#[test]
fn empty_read_disconnects() {
    let s = ready_session();
    assert!(matches!(
        s.on_message(&[]),
        MessageOutcome::Disconnect(WireError::FrameTooShort)
    ));
}

#[test]
fn truncated_query_disconnects() {
    let s = ready_session();
    let msg = [81, 0, 0, 0, 60, 65];
    assert!(matches!(
        s.on_message(&msg),
        MessageOutcome::Disconnect(WireError::FrameTooShort)
    ));
}

#[test]
fn select_one_row_cycle_exact_bytes() {
    let s = ready_session();
    let job = match s.on_message(&query_message(b"SELECT 1 AS x")) {
        MessageOutcome::RunQuery(job) => job,
        _ => panic!("expected a query job"),
    };
    assert_eq!(job.statement, b"SELECT 1 AS x".to_vec());
    let reply = EngineReply::Rows(vec![b"x".to_vec()], vec![vec![Value::Int(1)]]);
    let out = s.on_engine_result(&job, reply);

    let mut expected: Vec<u8> = Vec::new();
    // RowDescription: one column named x, type oid 23
    expected.extend_from_slice(&[
        84, 0, 0, 0, 26, 0, 1, 120, 0, 0, 0, 0, 0, 0, 0, 0, 0, 0, 23, 0, 4, 0xff, 0xff, 0xff,
        0xff, 0, 0,
    ]);
    // DataRow: one cell, bytes "1"
    expected.extend_from_slice(&[68, 0, 0, 0, 11, 0, 1, 0, 0, 0, 1, 49]);
    // CommandComplete: "SELECT 1"
    expected.extend_from_slice(&[67, 0, 0, 0, 13, 83, 69, 76, 69, 67, 84, 32, 49, 0]);
    // ReadyForQuery
    expected.extend_from_slice(&[90, 0, 0, 0, 5, 73]);
    assert_eq!(out, expected);
}

#[test]
fn failed_query_yields_one_error_then_ready() {
    let s = ready_session();
    let job = match s.on_message(&query_message(b"SELEC 1")) {
        MessageOutcome::RunQuery(job) => job,
        _ => panic!("expected a query job"),
    };
    let out = s.on_engine_result(&job, EngineReply::Failure(b"syntax error".to_vec()));

    let mut expected: Vec<u8> = vec![69, 0, 0, 0, 0, 83];
    expected.extend_from_slice(b"ERROR\0");
    expected.push(67);
    expected.extend_from_slice(b"SELEC 1\0");
    expected.push(68);
    expected.extend_from_slice(b"syntax error\0");
    expected.push(0);
    let len = (expected.len() - 1) as i32;
    expected[1] = (len >> 24) as u8;
    expected[2] = (len >> 16) as u8;
    expected[3] = (len >> 8) as u8;
    expected[4] = len as u8;
    expected.extend_from_slice(&ready_for_query());
    assert_eq!(out, expected);
    // exactly one ErrorResponse and no RowDescription or DataRow
    assert_eq!(out.iter().filter(|&&b| b == 84).count(), 0);
    assert_eq!(out[0], 69);
}

#[test]
fn zero_row_result_falls_back_to_text_oid() {
    let s = ready_session();
    let job = match s.on_message(&query_message(b"SELECT x FROM empty")) {
        MessageOutcome::RunQuery(job) => job,
        _ => panic!("expected a query job"),
    };
    let out = s.on_engine_result(&job, EngineReply::Rows(vec![b"x".to_vec()], vec![]));

    let mut expected: Vec<u8> = Vec::new();
    expected.extend_from_slice(&[
        84, 0, 0, 0, 26, 0, 1, 120, 0, 0, 0, 0, 0, 0, 0, 0, 0, 0, 25, 0, 4, 0xff, 0xff, 0xff,
        0xff, 0, 0,
    ]);
    // CommandComplete: "SELECT 0"
    expected.extend_from_slice(&[67, 0, 0, 0, 13, 83, 69, 76, 69, 67, 84, 32, 48, 0]);
    expected.extend_from_slice(&ready_for_query());
    assert_eq!(out, expected);
}

#[test]
fn unsupported_value_becomes_per_query_error() {
    let s = ready_session();
    let job = match s.on_message(&query_message(b"SELECT now()")) {
        MessageOutcome::RunQuery(job) => job,
        _ => panic!("expected a query job"),
    };
    let out = s.on_engine_result(
        &job,
        EngineReply::Rows(vec![b"t".to_vec()], vec![vec![Value::Timestamp]]),
    );
    // an error cycle, not a result: one ErrorResponse then ReadyForQuery
    assert_eq!(out[0], 69);
    let text: Vec<u8> = b"unsupported value type".to_vec();
    assert!(out.windows(text.len()).any(|w| w == &text[..]));
    assert_eq!(&out[out.len() - 6..], &[90, 0, 0, 0, 5, 73]);
}

#[test]
fn null_cell_distinct_from_empty_string() {
    let s = ready_session();
    let job = match s.on_message(&query_message(b"SELECT a, b FROM t")) {
        MessageOutcome::RunQuery(job) => job,
        _ => panic!("expected a query job"),
    };
    let reply = EngineReply::Rows(
        vec![b"a".to_vec(), b"b".to_vec()],
        vec![vec![Value::Null, Value::Text(Vec::new())]],
    );
    let out = s.on_engine_result(&job, reply);
    // the DataRow holds the -1 marker for NULL and length 0 for the empty string
    let marker: [u8; 6] = [0, 2, 0xff, 0xff, 0xff, 0xff];
    assert!(out.windows(6).any(|w| w == marker));
}

#[test]
fn to_cell_maps_each_variant() {
    let c = to_cell(Value::Boolean(true)).unwrap();
    assert_eq!(c.typ, 16);
    assert_eq!(c.data, Some(b"true".to_vec()));

    let c = to_cell(Value::Boolean(false)).unwrap();
    assert_eq!(c.data, Some(b"false".to_vec()));

    let c = to_cell(Value::Null).unwrap();
    assert_eq!(c.typ, 0);
    assert_eq!(c.data, None);

    let c = to_cell(Value::TinyInt(-5)).unwrap();
    assert_eq!(c.typ, 21);
    assert_eq!(c.data, Some(b"-5".to_vec()));

    let c = to_cell(Value::Int(1)).unwrap();
    assert_eq!(c.typ, 23);
    assert_eq!(c.data, Some(b"1".to_vec()));

    let c = to_cell(Value::BigInt(-9001)).unwrap();
    assert_eq!(c.typ, 20);
    assert_eq!(c.data, Some(b"-9001".to_vec()));

    let c = to_cell(Value::UBigInt(u64::MAX)).unwrap();
    assert_eq!(c.typ, 20);
    assert_eq!(c.data, Some(b"18446744073709551615".to_vec()));

    let c = to_cell(Value::Float(b"1.5".to_vec())).unwrap();
    assert_eq!(c.typ, 700);
    assert_eq!(c.data, Some(b"1.5".to_vec()));

    let c = to_cell(Value::Decimal(b"2.25".to_vec())).unwrap();
    assert_eq!(c.typ, 701);

    let c = to_cell(Value::Text(b"hi".to_vec())).unwrap();
    assert_eq!(c.typ, 25);
    assert_eq!(c.data, Some(b"hi".to_vec()));

    let c = to_cell(Value::Blob(vec![0, 1, 2])).unwrap();
    assert_eq!(c.typ, 17);
    assert_eq!(c.data, Some(vec![0, 1, 2]));

    let c = to_cell(Value::Date32(-7)).unwrap();
    assert_eq!(c.typ, 1083);
    assert_eq!(c.data, Some(b"-7".to_vec()));

    assert!(matches!(
        to_cell(Value::Timestamp),
        Err(MapError::UnsupportedValueType)
    ));
    assert!(matches!(
        to_cell(Value::Time64),
        Err(MapError::UnsupportedValueType)
    ));
}

#[test]
fn map_row_fails_on_any_unsupported_value() {
    assert!(map_row(vec![Value::Int(1), Value::Time64]).is_err());
    let cells = map_row(vec![Value::Int(1), Value::Null]).unwrap();
    assert_eq!(cells.len(), 2);
}

#[test]
fn decimal_rendering_exact() {
    assert_eq!(u128_to_dec(0), b"0".to_vec());
    assert_eq!(u128_to_dec(12345), b"12345".to_vec());
    assert_eq!(i128_to_dec(-1), b"-1".to_vec());
    assert_eq!(
        i128_to_dec(i128::MIN),
        b"-170141183460469231731687303715884105728".to_vec()
    );
}
