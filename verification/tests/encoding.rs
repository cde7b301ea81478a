use resp_codec::encode;
use resp_codec::ser::encode_array_header;
use resp_codec::ser::encode_null_array;
use resp_codec::RESPType;

#[test]
fn ser_test_simple_string() {
    let resp_sstr = RESPType::SimpleString(b"hello world".to_vec());
    assert_eq!(encode(&resp_sstr), b"+hello world\r\n".to_vec());
}

#[test]
fn ser_test_bulk_string() {
    let buf = b"Hello, world!";
    let resp_bstr = RESPType::BulkString(buf.to_vec());
    let expected = format!("${}\r\nHello, world!\r\n", buf.len());
    assert_eq!(encode(&resp_bstr), expected.as_bytes().to_vec());
}

#[test]
fn ser_test_error() {
    let err = b"Err some errors";
    let resp_err = RESPType::Error(err.to_vec());
    assert_eq!(encode(&resp_err), b"-Err some errors\r\n".to_vec());
}

#[test]
fn test_int() {
    let int = 114514i64;
    let resp_int = RESPType::Integer(int);
    assert_eq!(encode(&resp_int), b":114514\r\n".to_vec());
}

#[test]
fn ser_test_array() {
    let arr = vec![
        RESPType::Integer(32),
        RESPType::SimpleString(b"foobar".to_vec()),
        RESPType::BulkString(b"really bulk".to_vec()),
    ];
    let resp_arr = RESPType::Array(arr);
    assert_eq!(
        encode(&resp_arr),
        b"*3\r\n:32\r\n+foobar\r\n$11\r\nreally bulk\r\n".to_vec()
    );
}

#[test]
fn test_encode_negative_int() {
    assert_eq!(encode(&RESPType::Integer(-42)), b":-42\r\n".to_vec());
    assert_eq!(
        encode(&RESPType::Integer(i64::MIN)),
        b":-9223372036854775808\r\n".to_vec()
    );
    assert_eq!(encode(&RESPType::Integer(0)), b":0\r\n".to_vec());
}

#[test]
fn test_encode_null() {
    assert_eq!(encode(&RESPType::Null), b"$-1\r\n".to_vec());
}

#[test]
fn test_encode_empty_array() {
    assert_eq!(encode(&RESPType::Array(vec![])), b"*0\r\n".to_vec());
}

#[test]
fn test_encode_empty_bulk() {
    assert_eq!(encode(&RESPType::BulkString(vec![])), b"$0\r\n\r\n".to_vec());
}

#[test]
fn test_encode_ok() {
    assert_eq!(encode(&RESPType::ok()), b"+OK\r\n".to_vec());
}

#[test]
fn test_array_headers() {
    assert_eq!(encode_array_header(3), b"*3\r\n".to_vec());
    assert_eq!(encode_array_header(0), b"*0\r\n".to_vec());
    assert_eq!(encode_null_array(), b"*-1\r\n".to_vec());
}
