use resp_codec::decode;
use resp_codec::encode;
use resp_codec::Error;
use resp_codec::ErrorKind;
use resp_codec::RESPType;

fn assert_round_trips(v: RESPType) {
    let bytes = encode(&v);
    let back = decode(bytes).unwrap();
    assert_eq!(back, v);
}

#[test]
fn test_round_trip_scalars() {
    assert_round_trips(RESPType::SimpleString(b"hello".to_vec()));
    assert_round_trips(RESPType::SimpleString(vec![]));
    assert_round_trips(RESPType::Error(b"ERR wrong type".to_vec()));
    assert_round_trips(RESPType::Integer(0));
    assert_round_trips(RESPType::Integer(-1));
    assert_round_trips(RESPType::Integer(i64::MAX));
    assert_round_trips(RESPType::Integer(i64::MIN));
    assert_round_trips(RESPType::Null);
}

#[test]
fn test_round_trip_bulk() {
    assert_round_trips(RESPType::BulkString(vec![]));
    assert_round_trips(RESPType::BulkString(b"with\r\nterminator inside".to_vec()));
    assert_round_trips(RESPType::BulkString(vec![0, 255, 13, 10, 7]));
}

#[test]
fn test_round_trip_arrays() {
    assert_round_trips(RESPType::Array(vec![]));
    assert_round_trips(RESPType::Array(vec![
        RESPType::Integer(32),
        RESPType::SimpleString(b"foobar".to_vec()),
        RESPType::BulkString(b"really bulk".to_vec()),
        RESPType::Null,
        RESPType::Array(vec![RESPType::Error(b"nested".to_vec())]),
    ]));
}

#[test]
fn test_bulk_frame_shape() {
    let payload = b"some payload".to_vec();
    let mut frame = format!("${}\r\n", payload.len()).into_bytes();
    frame.extend_from_slice(&payload);
    frame.extend_from_slice(b"\r\n");
    assert_eq!(decode(frame).unwrap(), RESPType::BulkString(payload));
}

#[test]
fn test_array_encode_decode_identical_bytes() {
    let text = b"*3\r\n:32\r\n+foobar\r\n$11\r\nreally bulk\r\n".to_vec();
    let v = decode(text.clone()).unwrap();
    assert_eq!(encode(&v), text);
}

#[test]
fn test_error_kinds() {
    assert_eq!(Error::Message(String::from("m")).kind(), ErrorKind::Message);
    assert_eq!(Error::Eof.kind(), ErrorKind::Eof);
    assert_eq!(Error::Syntax(3).kind(), ErrorKind::Syntax);
    assert_eq!(Error::TrailingCharacters.kind(), ErrorKind::TrailingCharacters);
    assert_eq!(Error::ExpectedSign(1).kind(), ErrorKind::ExpectedSign);
    assert_eq!(Error::UnexpectedCR(4).kind(), ErrorKind::UnexpectedCR);
    assert_eq!(
        Error::UnexpectedSign { expected: ':', found: '+', pos: 0 }.kind(),
        ErrorKind::UnexpectedSign
    );
    assert_eq!(Error::BulkStringOverflow.kind(), ErrorKind::BulkStringOverflow);
    assert_eq!(
        Error::WrongSizeOfBulkString { expected: 4, found: 5 }.kind(),
        ErrorKind::WrongSizeOfBulkString
    );
    assert_eq!(Error::UnexpectedType.kind(), ErrorKind::UnexpectedType);
    assert_eq!(Error::IntegerOverflow.kind(), ErrorKind::IntegerOverflow);
    assert_eq!(Error::FromUtf8Error.kind(), ErrorKind::FromUtf8Error);
    assert_eq!(Error::IoError.kind(), ErrorKind::IoError);
    assert_eq!(Error::ParseIntError.kind(), ErrorKind::ParseIntError);
}

#[test]
fn test_value_equality() {
    assert_ne!(RESPType::SimpleString(b"a".to_vec()), RESPType::Error(b"a".to_vec()));
    assert_ne!(RESPType::BulkString(vec![]), RESPType::Null);
    assert_ne!(
        RESPType::Array(vec![RESPType::Integer(1)]),
        RESPType::Array(vec![RESPType::Integer(2)])
    );
    assert_eq!(
        RESPType::Array(vec![RESPType::Integer(1), RESPType::Null]),
        RESPType::Array(vec![RESPType::Integer(1), RESPType::Null])
    );
}
