use simple_redis::{
    Array, BigNumber, Boolean, BulkError, BulkString, Double, Frame, Integer, Null, RespDecode,
    RespEncode, RespMap, RespSet, SimpleError, SimpleString,
};

#[test]
fn test_array_decode() {
    let (frame, _) = Array::decode(b"*2\r\n$3\r\nfoo\r\n$3\r\nbar\r\n").unwrap();
    assert_eq!(frame, Array::new(vec![Frame::bulk(b"foo"), Frame::bulk(b"bar")]));
}

#[test]
fn test_array_encode() {
    let frame = Array::new(vec![Frame::bulk(b"foo"), Frame::bulk(b"bar")]);
    assert_eq!(frame.encode(), b"*2\r\n$3\r\nfoo\r\n$3\r\nbar\r\n");
}

#[test]
fn test_null_array_decode() {
    let (frame, _) = Array::decode(b"*-1\r\n").unwrap();
    assert_eq!(frame, Array::null());
}

#[test]
fn test_null_array_encode() {
    let frame = Array::null();
    assert_eq!(frame.encode(), b"*-1\r\n");
}

#[test]
fn test_big_number_decode() {
    let (result, _) = BigNumber::decode(b"(1234567890\r\n").unwrap();
    assert_eq!(result.inner, "1234567890");

    let (result, _) = BigNumber::decode(b"(+1234567890\r\n").unwrap();
    assert_eq!(result.inner, "+1234567890");

    let (result, _) = BigNumber::decode(b"(-1234567890\r\n").unwrap();
    assert_eq!(result.inner, "-1234567890");
}

#[test]
fn test_big_number_decode_error() {
    let result = BigNumber::decode(b"+OK\r\n");
    assert!(result.is_err());
}

#[test]
fn test_big_number_encode() {
    let big_number = BigNumber::new("1234567890");
    assert_eq!(big_number.encode(), b"(1234567890\r\n");
}

#[test]
fn test_boolean_decode() {
    let (result, _) = Boolean::decode(b"#t\r\n").unwrap();
    assert!(result.inner);

    let (result, _) = Boolean::decode(b"#f\r\n").unwrap();
    assert!(!result.inner);
}

#[test]
fn test_boolean_decode_error() {
    let result = Boolean::decode(b"#x\r\n");
    assert!(result.is_err());
}

#[test]
fn test_boolean_encode() {
    assert_eq!(Boolean::new(true).encode(), b"#t\r\n");
    assert_eq!(Boolean::new(false).encode(), b"#f\r\n");
}

#[test]
fn test_bulk_error_decode() {
    let (result, _) = BulkError::decode(b"!21\r\nSYNTAX invalid syntax\r\n").unwrap();
    assert_eq!(result.inner, b"SYNTAX invalid syntax");
}

#[test]
fn test_bulk_error_decode_error() {
    let result = BulkError::decode(b"+OK\r\n");
    assert!(result.is_err());
}

#[test]
fn test_bulk_error_encode() {
    let frame = BulkError::new(b"ERR");
    assert_eq!(frame.encode(), b"!3\r\nERR\r\n");
}

#[test]
fn test_bulk_string_decode() {
    let (result, _) = BulkString::decode(b"$5\r\nhello\r\n").unwrap();
    assert_eq!(result.inner, b"hello");
}

#[test]
fn test_bulk_string_decode_error() {
    let result = BulkString::decode(b"+OK\r\n");
    assert!(result.is_err());
}

#[test]
fn test_bulk_string_encode() {
    let bulk_string = BulkString::new(b"hello");
    assert_eq!(bulk_string.encode(), b"$5\r\nhello\r\n");
}

#[test]
fn test_null_bulk_string_decode() {
    let (result, _) = BulkString::decode(b"$-1\r\n").unwrap();
    assert_eq!(result.inner, b"");
    assert!(result.null);
}

#[test]
fn test_null_bulk_string_encode() {
    let bulk_string = BulkString::null();
    assert_eq!(bulk_string.encode(), b"$-1\r\n");
}

#[test]
fn test_double_decode() {
    let cases: [(&[u8], f64); 8] = [
        (b",12.345\r\n", 12.345),
        (b",12.345e-2\r\n", 12.345e-2),
        (b",12.345E-2\r\n", 12.345e-2),
        (b",12.345e2\r\n", 12.345e2),
        (b",12.345E2\r\n", 12.345e2),
        (b",12.345e+2\r\n", 12.345e2),
        (b",-12.345E+2\r\n", -12.345e2),
        (b",+1.23456e-9\r\n", 1.23456e-9),
    ];
    for (input, expected) in cases {
        let (result, _) = Double::decode(input).unwrap();
        assert_eq!(result.inner.parse::<f64>().unwrap(), expected);
    }
}

#[test]
fn test_double_decode_error() {
    let result = Double::decode(b"+OK\r\n");
    assert!(result.is_err());
}

#[test]
fn test_double_encode() {
    let double = Double::new(&12.34555f64.to_string());
    assert_eq!(double.encode(), b",12.34555\r\n");
}

#[test]
fn test_frame_decode() {
    let (result, _) = Frame::decode(b"+OK\r\n").unwrap();
    assert_eq!(result, Frame::simple("OK"));

    let (result, _) = Frame::decode(b"-ERR\r\n").unwrap();
    assert_eq!(result, Frame::SimpleError(SimpleError::new("ERR")));

    let (result, _) = Frame::decode(b":1000\r\n").unwrap();
    assert_eq!(result, Frame::integer(1000));

    let (result, _) = Frame::decode(b"$6\r\nfoobar\r\n").unwrap();
    assert_eq!(result, Frame::bulk(b"foobar"));

    let (result, _) = Frame::decode(b"*2\r\n$3\r\nfoo\r\n$3\r\nbar\r\n").unwrap();
    assert_eq!(result, Frame::array(vec![Frame::bulk(b"foo"), Frame::bulk(b"bar")]));

    let (result, _) = Frame::decode(b"_\r\n").unwrap();
    assert_eq!(result, Frame::Null(Null));

    let (result, _) = Frame::decode(b"#t\r\n").unwrap();
    assert_eq!(result, Frame::boolean(true));

    let (result, _) = Frame::decode(b",1.234\r\n").unwrap();
    assert_eq!(result, Frame::Double(Double::new(&1.234f64.to_string())));

    let (result, _) = Frame::decode(b"(1234567890\r\n").unwrap();
    assert_eq!(result, Frame::BigNumber(BigNumber::new("1234567890")));

    let (result, _) = Frame::decode(b"!21\r\nSYNTAX invalid syntax\r\n").unwrap();
    assert_eq!(result, Frame::BulkError(BulkError::new(b"SYNTAX invalid syntax")));
}

#[test]
fn test_integer_decode() {
    let (result, _) = Integer::decode(b":1000\r\n").unwrap();
    assert_eq!(result.inner, 1000);
}

#[test]
fn test_integer_decode_error() {
    let result = Integer::decode(b"+OK\r\n");
    assert!(result.is_err());
}

#[test]
fn test_integer_encode() {
    let integer = Integer::new(1000);
    assert_eq!(integer.encode(), b":1000\r\n");
}

fn map_value(map: &RespMap, key: &Frame) -> Option<i64> {
    for (k, v) in &map.inner {
        if k == key {
            match v {
                Frame::Integer(integer) => return Some(integer.inner),
                _ => panic!("Expected Integer"),
            }
        }
    }
    None
}

#[test]
fn test_map_decode() {
    let (result, _) = RespMap::decode(b"%2\r\n+first\r\n:1\r\n+second\r\n:2\r\n").unwrap();
    assert_eq!(result.inner.len(), 2);
    assert_eq!(map_value(&result, &Frame::simple("first")), Some(1));
    assert_eq!(map_value(&result, &Frame::simple("second")), Some(2));
}

#[test]
fn test_map_encode() {
    let mut map = RespMap::new();
    map.insert(Frame::simple("first"), Frame::integer(1));
    map.insert(Frame::simple("second"), Frame::integer(2));
    assert_eq!(map.encode(), b"%2\r\n+first\r\n:1\r\n+second\r\n:2\r\n");
}

#[test]
fn test_null_decode() {
    let (result, _) = Null::decode(b"_\r\n").unwrap();
    assert_eq!(result, Null);
}

#[test]
fn test_null_decode_error() {
    let result = Null::decode(b"+OK\r\n");
    assert!(result.is_err());
}

#[test]
fn test_null_encode() {
    let null = Null;
    assert_eq!(null.encode(), b"_\r\n");
}

#[test]
fn test_set_decode() {
    let (result, _) = RespSet::decode(b"~2\r\n:1\r\n:2\r\n").unwrap();
    assert_eq!(result.inner.len(), 2);
    assert!(result.inner.contains(&Frame::integer(1)));
    assert!(result.inner.contains(&Frame::integer(2)));
}

#[test]
fn test_set_decode_error() {
    let result = RespSet::decode(b"+OK\r\n");
    assert!(result.is_err());
}

#[test]
fn test_set_encode() {
    let mut set = RespSet::new();
    set.insert(Frame::integer(1));
    set.insert(Frame::integer(2));
    assert_eq!(set.encode(), b"~2\r\n:1\r\n:2\r\n");
}

#[test]
fn test_simple_error_decode() {
    let (result, _) = SimpleError::decode(b"-ERR\r\n").unwrap();
    assert_eq!(result.inner, "ERR");
}

#[test]
fn test_simple_error_decode_error() {
    let result = SimpleError::decode(b"+OK\r\n");
    assert!(result.is_err());
}

#[test]
fn test_simple_error_encode() {
    let error = SimpleError::new("ERR");
    assert_eq!(error.encode(), b"-ERR\r\n");
}

#[test]
fn test_simple_string_decode() {
    let (result, _) = SimpleString::decode(b"+OK\r\n").unwrap();
    assert_eq!(result.inner, "OK");
}

#[test]
fn test_simple_string_decode_error() {
    let result = SimpleString::decode(b"-ERR\r\n");
    assert!(result.is_err());
}

#[test]
fn test_simple_string_encode() {
    let simple_string = SimpleString::new("OK");
    assert_eq!(simple_string.encode(), b"+OK\r\n");
}

#[test]
fn test_simple_string_encode_empty() {
    let simple_string = SimpleString::new("");
    assert_eq!(simple_string.encode(), b"+\r\n");
}
