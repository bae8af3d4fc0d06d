use simple_redis::reply::ok;
use simple_redis::{
    request_handle, Array, Backend, BigNumber, BulkError, BulkString, Command, Double, Frame,
    ParseError, RespDecode, RespEncode, RespError, RespFrameCodec, RespMap, RespSet, SetCommand,
    SimpleError,
};

fn bulks(items: &[&[u8]]) -> Frame {
    Frame::array(items.iter().map(|s| Frame::bulk(s)).collect())
}

fn sample_frames() -> Vec<Frame> {
    let mut map = RespMap::new();
    map.insert(Frame::simple("first"), Frame::integer(1));
    map.insert(Frame::bulk(b"second"), Frame::array(vec![Frame::null(), Frame::boolean(false)]));
    let mut set = RespSet::new();
    set.insert(Frame::integer(1));
    set.insert(Frame::simple("two"));
    vec![
        Frame::simple("OK"),
        Frame::simple(""),
        Frame::SimpleError(SimpleError::new("ERR bad")),
        Frame::integer(0),
        Frame::integer(i64::MIN),
        Frame::integer(i64::MAX),
        Frame::bulk(b"with\r\nbreak"),
        Frame::bulk(b""),
        Frame::BulkString(BulkString::null()),
        Frame::array(vec![]),
        Frame::Array(Array::null()),
        Frame::array(vec![Frame::bulk(b"foo"), Frame::array(vec![Frame::integer(-7)])]),
        Frame::null(),
        Frame::boolean(true),
        Frame::Double(Double::new("-12.345E+2")),
        Frame::BigNumber(BigNumber::new("-1234567890123456789012")),
        Frame::BulkError(BulkError::new(b"SYNTAX invalid syntax")),
        Frame::RespMap(map),
        Frame::RespSet(set),
    ]
}

#[test]
fn round_trip_of_sample_frames() {
    for f in sample_frames() {
        let bytes = f.encode();
        let (decoded, used) = Frame::decode(&bytes).unwrap();
        assert_eq!(decoded, f);
        assert_eq!(used, bytes.len());
    }
}

#[test]
fn null_and_empty_differ() {
    assert_ne!(Frame::BulkString(BulkString::null()), Frame::bulk(b""));
    assert_ne!(Frame::Array(Array::null()), Frame::array(vec![]));
    assert_eq!(BulkString::new(b"").encode(), b"$0\r\n\r\n");
    assert_eq!(Array::new(vec![]).encode(), b"*0\r\n");
}

#[test]
fn byte_at_a_time_decode() {
    for f in sample_frames() {
        let bytes = f.encode();
        let mut codec = RespFrameCodec;
        for k in 0..bytes.len() {
            assert!(matches!(codec.decode(&bytes[..k]), Ok(None)));
        }
        let (decoded, used) = codec.decode(&bytes).unwrap().unwrap();
        assert_eq!(decoded, f);
        assert_eq!(used, bytes.len());
    }
}

#[test]
fn decode_stops_at_frame_end() {
    let (f, used) = Frame::decode(b":12\r\n+next\r\n").unwrap();
    assert_eq!(f, Frame::integer(12));
    assert_eq!(used, 5);
}

#[test]
fn decode_errors() {
    assert_eq!(Frame::decode(b"").unwrap_err(), RespError::Incomplete);
    assert_eq!(Frame::decode(b"?x\r\n").unwrap_err(), RespError::InvalidType);
    assert_eq!(Frame::decode(b"$3\r\nabcX\r\n").unwrap_err(), RespError::InvalidType);
    assert_eq!(Frame::decode(b"$-2\r\n").unwrap_err(), RespError::InvalidType);
    assert_eq!(Frame::decode(b"+\xff\r\n").unwrap_err(), RespError::Utf8Error);
    assert_eq!(Frame::decode(b":12a\r\n").unwrap_err(), RespError::ParseIntError);
    assert_eq!(Frame::decode(b":9223372036854775808\r\n").unwrap_err(), RespError::ParseIntError);
    assert_eq!(Frame::decode(b"*x\r\n").unwrap_err(), RespError::ParseIntError);
    assert_eq!(Frame::decode(b",1.\r\n").unwrap_err(), RespError::ParseFloatError);
    assert_eq!(Frame::decode(b"*2\r\n:1\r\n").unwrap_err(), RespError::Incomplete);
}

#[test]
fn map_and_set_keep_one_entry_per_key() {
    let (m, _) = RespMap::decode(b"%2\r\n+k\r\n:1\r\n+k\r\n:2\r\n").unwrap();
    assert_eq!(m.inner.len(), 1);
    assert_eq!(m.inner[0].1, Frame::integer(2));
    let (s, _) = RespSet::decode(b"~3\r\n:1\r\n:1\r\n:2\r\n").unwrap();
    assert_eq!(s.inner.len(), 2);
}

#[test]
fn get_before_and_after_set() {
    let backend = Backend::new();
    let get = bulks(&[b"GET", b"key"]);
    assert_eq!(request_handle(get, backend.clone()).unwrap(), Frame::null());
    let set = bulks(&[b"SET", b"key", b"value"]);
    assert_eq!(request_handle(set, backend.clone()).unwrap(), ok());
    let get = bulks(&[b"GET", b"key"]);
    assert_eq!(request_handle(get, backend.clone()).unwrap(), Frame::bulk(b"value"));
}

#[test]
fn hset_hget_hgetall() {
    let backend = Backend::new();
    let hset = bulks(&[b"HSET", b"key", b"field", b"value"]);
    assert_eq!(request_handle(hset, backend.clone()).unwrap(), Frame::integer(1));
    let hget = bulks(&[b"HGET", b"key", b"field"]);
    assert_eq!(request_handle(hget, backend.clone()).unwrap(), Frame::bulk(b"value"));
    let hset = bulks(&[b"HSET", b"key", b"other", b"second"]);
    request_handle(hset, backend.clone()).unwrap();
    let all = request_handle(bulks(&[b"HGETALL", b"key"]), backend.clone()).unwrap();
    let items = match all {
        Frame::Array(a) => a.inner,
        _ => panic!("Expected Array"),
    };
    let mut pairs: Vec<(Frame, Frame)> = Vec::new();
    let mut it = items.into_iter();
    while let (Some(k), Some(v)) = (it.next(), it.next()) {
        pairs.push((k, v));
    }
    assert_eq!(pairs.len(), 2);
    assert!(pairs.contains(&(Frame::bulk(b"field"), Frame::bulk(b"value"))));
    assert!(pairs.contains(&(Frame::bulk(b"other"), Frame::bulk(b"second"))));
}

#[test]
fn sadd_twice_then_sismember() {
    let backend = Backend::new();
    let sadd = bulks(&[b"SADD", b"key", b"a"]);
    assert_eq!(request_handle(sadd, backend.clone()).unwrap(), Frame::integer(1));
    let sadd = bulks(&[b"SADD", b"key", b"a"]);
    assert_eq!(request_handle(sadd, backend.clone()).unwrap(), Frame::integer(0));
    let ism = bulks(&[b"SISMEMBER", b"key", b"a"]);
    assert_eq!(request_handle(ism, backend.clone()).unwrap(), Frame::integer(1));
    let members = request_handle(bulks(&[b"SMEMBERS", b"key"]), backend.clone()).unwrap();
    assert_eq!(members, Frame::array(vec![Frame::bulk(b"a")]));
}

#[test]
fn hmget_in_request_order() {
    let backend = Backend::new();
    request_handle(bulks(&[b"HSET", b"key", b"f1", b"v1"]), backend.clone()).unwrap();
    request_handle(bulks(&[b"HSET", b"key", b"f2", b"v2"]), backend.clone()).unwrap();
    let reply =
        request_handle(bulks(&[b"HMGET", b"key", b"f1", b"f2", b"missing"]), backend.clone())
            .unwrap();
    assert_eq!(
        reply,
        Frame::array(vec![Frame::bulk(b"v1"), Frame::bulk(b"v2"), Frame::null()])
    );
}

#[test]
fn set_without_value_is_refused() {
    let result = SetCommand::try_from(bulks(&[b"SET", b"key"]));
    assert_eq!(result.unwrap_err(), ParseError::EndOfParts);
    let backend = Backend::new();
    let result = request_handle(bulks(&[b"SET", b"key"]), backend);
    assert_eq!(result.unwrap_err(), ParseError::EndOfParts);
}

#[test]
fn command_errors() {
    assert_eq!(Command::try_from(Frame::integer(1)).unwrap_err(), ParseError::InvalidType);
    assert_eq!(
        Command::try_from(bulks(&[b"FLUSHALL"])).unwrap_err(),
        ParseError::InvalidCommand
    );
    assert_eq!(
        Command::try_from(bulks(&[b"GET", b"a", b"b"])).unwrap_err(),
        ParseError::NotFinished
    );
    assert_eq!(
        Command::try_from(Frame::array(vec![Frame::bulk(b"GET"), Frame::integer(3)])).unwrap_err(),
        ParseError::InvalidType
    );
    assert_eq!(
        Command::try_from(bulks(&[b"GET", b"\xff"])).unwrap_err(),
        ParseError::FromUtf8Error
    );
    assert_eq!(Command::try_from(bulks(&[b"HMGET"])).unwrap_err(), ParseError::EndOfParts);
    assert_eq!(
        Command::try_from(Frame::array(vec![])).unwrap_err(),
        ParseError::InvalidCommand
    );
}

#[test]
fn verbs_in_any_case() {
    for verb in [&b"get"[..], b"GeT", b"GET"] {
        match Command::try_from(bulks(&[verb, b"key"])).unwrap() {
            Command::Get(g) => assert_eq!(g.key, "key"),
            _ => panic!("Expected Get"),
        }
    }
}

#[test]
fn echo_replies_with_operand() {
    let backend = Backend::new();
    let reply = request_handle(
        Frame::array(vec![Frame::bulk(b"echo"), Frame::integer(42)]),
        backend,
    )
    .unwrap();
    assert_eq!(reply, Frame::integer(42));
}

#[test]
fn stream_decode_of_several_frames() {
    let mut codec = RespFrameCodec;
    let (frames, used) = codec.decode_all(b"+a\r\n:1\r\n$3\r\nab").unwrap();
    assert_eq!(frames, vec![Frame::simple("a"), Frame::integer(1)]);
    assert_eq!(used, 8);
    let (frames, used) = codec.decode_all(b"").unwrap();
    assert!(frames.is_empty());
    assert_eq!(used, 0);
    assert_eq!(codec.decode_all(b"+a\r\n?\r\n").unwrap_err(), RespError::InvalidType);
}
