use resp_codec::decode;
use resp_codec::Deserializer;
use resp_codec::Error;
use resp_codec::ErrorKind;
use resp_codec::RESPType;

#[test]
fn de_test_simple_string() {
    let buf = b"+hello\r\n".to_vec();
    let sstr = decode(buf).unwrap();
    assert_eq!(sstr, RESPType::SimpleString(b"hello".to_vec()));
}

#[test]
fn de_test_error() {
    let err = b"-Err unknown error\r\n".to_vec();
    let resp_err = decode(err).unwrap();
    assert_eq!(resp_err, RESPType::Error(b"Err unknown error".to_vec()));
}

#[test]
fn test_integer() {
    let int = b":114514\r\n".to_vec();
    let resp_int = decode(int).unwrap();
    assert_eq!(resp_int, RESPType::Integer(114514));
}

#[test]
fn de_test_bulk_string() {
    let str = b"$13\r\nhello, world!\r\n".to_vec();
    let resp_str = decode(str).unwrap();
    assert_eq!(resp_str, RESPType::BulkString(b"hello, world!".to_vec()));
}

#[test]
fn de_test_array() {
    let arr = b"*3\r\n:32\r\n+foobar\r\n$11\r\nreally bulk\r\n".to_vec();
    let resp_arr = decode(arr).unwrap();
    assert_eq!(
        resp_arr,
        RESPType::Array(vec![
            RESPType::Integer(32),
            RESPType::SimpleString(b"foobar".to_vec()),
            RESPType::BulkString(b"really bulk".to_vec()),
        ])
    );
}

#[test]
fn test_null() {
    let null_bulk_str = b"$-1\r\n".to_vec();
    let null_array = b"*-1\r\n".to_vec();
    let resp_null = decode(null_bulk_str).unwrap();
    assert_eq!(resp_null, RESPType::Null);
    let resp_null = decode(null_array).unwrap();
    assert_eq!(resp_null, RESPType::Null);
}

#[test]
fn test_error_eof() {
    let bulk_str = b"$6\r\nhello\r\n".to_vec();
    assert!(decode(bulk_str).is_err_and(|err| err.kind() == ErrorKind::Eof));
}

#[test]
fn test_error_expected_sign() {
    let array = b"*2\r\n+514\r\n12\r\n".to_vec();
    assert!(decode(array).is_err_and(|err| {
        if let Error::ExpectedSign(pos) = err {
            return pos == 10;
        }
        false
    }));
}

#[test]
fn test_error_unexpected_cr() {
    let simple_str = b"+123\r124\r\n".to_vec();
    assert!(decode(simple_str).is_err_and(|err| {
        if let Error::UnexpectedCR(pos) = err {
            return pos == 4;
        }
        false
    }));
}

#[test]
fn test_error_integer_overflow() {
    let int = b":11111111111111111111111\r\n".to_vec();
    assert!(decode(int).is_err_and(|err| err.kind() == ErrorKind::ParseIntError));
}

#[test]
fn test_integer_too_large() {
    let int = b":99999999999999999999\r\n".to_vec();
    assert!(decode(int).is_err_and(|err| err.kind() == ErrorKind::ParseIntError));
}

#[test]
fn test_integer_extremes() {
    assert_eq!(
        decode(b":9223372036854775807\r\n".to_vec()).unwrap(),
        RESPType::Integer(i64::MAX)
    );
    assert_eq!(
        decode(b":-9223372036854775808\r\n".to_vec()).unwrap(),
        RESPType::Integer(i64::MIN)
    );
    assert!(decode(b":9223372036854775808\r\n".to_vec())
        .is_err_and(|err| err.kind() == ErrorKind::ParseIntError));
    assert!(decode(b":-9223372036854775809\r\n".to_vec())
        .is_err_and(|err| err.kind() == ErrorKind::ParseIntError));
}

#[test]
fn test_integer_forms() {
    assert_eq!(decode(b":+5\r\n".to_vec()).unwrap(), RESPType::Integer(5));
    assert_eq!(decode(b":-0\r\n".to_vec()).unwrap(), RESPType::Integer(0));
    assert_eq!(decode(b":007\r\n".to_vec()).unwrap(), RESPType::Integer(7));
    assert!(decode(b":\r\n".to_vec()).is_err_and(|e| e.kind() == ErrorKind::ParseIntError));
    assert!(decode(b":-\r\n".to_vec()).is_err_and(|e| e.kind() == ErrorKind::ParseIntError));
    assert!(decode(b":12x\r\n".to_vec()).is_err_and(|e| e.kind() == ErrorKind::ParseIntError));
}

#[test]
fn test_empty_values() {
    assert_eq!(decode(b"$0\r\n\r\n".to_vec()).unwrap(), RESPType::BulkString(vec![]));
    assert_eq!(decode(b"*0\r\n".to_vec()).unwrap(), RESPType::Array(vec![]));
    assert_eq!(decode(b"+\r\n".to_vec()).unwrap(), RESPType::SimpleString(vec![]));
}

#[test]
fn test_error_empty_input() {
    assert!(decode(Vec::new()).is_err_and(|err| err.kind() == ErrorKind::Eof));
}

#[test]
fn test_error_trailing_characters() {
    let two_frames = b"+a\r\n+b\r\n".to_vec();
    assert!(decode(two_frames).is_err_and(|err| err.kind() == ErrorKind::TrailingCharacters));
}

#[test]
fn test_error_bulk_string_overflow() {
    let too_long = b"$536870913\r\nx\r\n".to_vec();
    assert!(decode(too_long).is_err_and(|err| err.kind() == ErrorKind::BulkStringOverflow));
}

#[test]
fn test_error_wrong_size_of_bulk_string() {
    let mismatch = b"$4\r\nhello\r\n".to_vec();
    assert!(decode(mismatch).is_err_and(|err| {
        if let Error::WrongSizeOfBulkString { expected, found } = err {
            return expected == 4 && found == 5;
        }
        false
    }));
}

#[test]
fn test_error_negative_lengths() {
    assert!(decode(b"$-2\r\n".to_vec()).is_err_and(|e| e.kind() == ErrorKind::ParseIntError));
    assert!(decode(b"*-2\r\n".to_vec()).is_err_and(|e| e.kind() == ErrorKind::ParseIntError));
}

#[test]
fn test_nested_array() {
    let nested = b"*2\r\n*2\r\n:1\r\n:2\r\n$-1\r\n".to_vec();
    let v = decode(nested).unwrap();
    assert_eq!(
        v,
        RESPType::Array(vec![
            RESPType::Array(vec![RESPType::Integer(1), RESPType::Integer(2)]),
            RESPType::Null,
        ])
    );
}

#[test]
fn test_cursor_methods() {
    let mut de = Deserializer::from_str(b"ab\r\ncd".to_vec());
    assert_eq!(de.remaining(), 6);
    assert_eq!(de.peek_char().unwrap(), b'a');
    assert_eq!(de.next_char().unwrap(), b'a');
    let mut de = Deserializer::from_str(b"ab\r\ncd".to_vec());
    let line = de.read_to_end().unwrap();
    assert_eq!(line, b"ab".to_vec());
    let rest = de.skip(2).unwrap();
    assert_eq!(rest, b"cd".to_vec());
    assert!(de.at_end());
    assert!(de.skip(1).is_err_and(|e| e.kind() == ErrorKind::Eof));
    assert!(de.peek_char().is_err_and(|e| e.kind() == ErrorKind::Eof));
}

#[test]
fn test_parse_int_wrong_sign() {
    let mut de = Deserializer::from_str(b"+5\r\n".to_vec());
    assert!(de.parse_int().is_err_and(|err| {
        if let Error::UnexpectedSign { expected, found, pos } = err {
            return expected == ':' && found == '+' && pos == 0;
        }
        false
    }));
}

#[test]
fn test_parse_methods() {
    let mut de = Deserializer::from_str(b"+ok\r\n".to_vec());
    assert_eq!(de.parse_simple_string().unwrap(), b"ok".to_vec());
    let mut de = Deserializer::from_str(b"-bad\r\n".to_vec());
    assert_eq!(de.parse_error().unwrap(), b"bad".to_vec());
    let mut de = Deserializer::from_str(b":42\r\n".to_vec());
    assert_eq!(de.parse_int().unwrap(), 42);
    let mut de = Deserializer::from_str(b"$2\r\nhi\r\n".to_vec());
    assert_eq!(de.parse_bytes().unwrap(), Some(b"hi".to_vec()));
    let mut de = Deserializer::from_str(b"$-1\r\n".to_vec());
    assert_eq!(de.parse_bytes().unwrap(), None);
}

#[test]
fn test_failed_read_consumes_nothing() {
    let mut de = Deserializer::from_str(b"ab\rcd".to_vec());
    assert!(de.read_to_end().is_err_and(|e| e.kind() == ErrorKind::Eof));
    assert_eq!(de.offset(), 0);
    let mut de = Deserializer::from_str(b"ab\rcd\r\n".to_vec());
    assert!(de.read_to_end().is_err_and(|e| matches!(e, Error::UnexpectedCR(2))));
    assert_eq!(de.offset(), 0);
    let mut de = Deserializer::from_str(b"+5\r\n".to_vec());
    assert!(de.parse_int().is_err());
    assert_eq!(de.offset(), 0);
    assert!(de.parse_bytes().is_err());
    assert_eq!(de.offset(), 0);
    assert!(de.parse_error().is_err());
    assert_eq!(de.offset(), 0);
    assert!(de.parse_array_header().is_err());
    assert_eq!(de.offset(), 0);
    let mut de = Deserializer::from_str(b":9\r\n".to_vec());
    assert!(de.parse_simple_string().is_err());
    assert_eq!(de.offset(), 0);
    let mut de = Deserializer::from_str(b"hello".to_vec());
    assert!(de.parse_value().is_err_and(|e| matches!(e, Error::ExpectedSign(0))));
    assert_eq!(de.offset(), 0);
    let mut de = Deserializer::from_str(Vec::new());
    assert!(de.parse_value().is_err_and(|e| e.kind() == ErrorKind::Eof));
    assert_eq!(de.offset(), 0);
}

#[test]
fn test_eof_without_terminator() {
    assert!(decode(b"+abc".to_vec()).is_err_and(|e| e.kind() == ErrorKind::Eof));
    assert!(decode(b"+ab\rcd".to_vec()).is_err_and(|e| e.kind() == ErrorKind::Eof));
}
