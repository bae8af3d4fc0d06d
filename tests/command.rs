use simple_redis::reply::ok;
use simple_redis::{
    Backend, Command, Echo, Frame, Get, HGet, HGetAll, HSet, Hmget, Parse, RespDecode, Sadd,
    SetCommand, Sismember, Smembers, Store,
};

fn decode(input: &[u8]) -> Frame {
    Frame::decode(input).unwrap().0
}

fn texts(items: &[&str]) -> Frame {
    Frame::array(items.iter().map(|s| Frame::simple(s)).collect())
}

fn bulks(items: &[&[u8]]) -> Frame {
    Frame::array(items.iter().map(|s| Frame::bulk(s)).collect())
}

#[test]
fn test_echo_try_from_frame() {
    let frame = decode(b"*2\r\n$4\r\necho\r\n$7\r\nmessage\r\n");
    let cmd = Echo::try_from(frame).unwrap();
    assert_eq!(cmd.message, Frame::bulk(b"message"));
}

#[test]
fn test_echo_try_from_frame_invalid_command() {
    let frame = decode(b"*2\r\n$3\r\nset\r\n$7\r\nmessage\r\n");
    let result = Echo::try_from(frame);
    assert!(result.is_err());
}

#[test]
fn test_echo_execute() {
    let cmd = Echo { message: Frame::bulk(b"message") };
    let backend = Backend::new();
    let result = cmd.execute(backend);
    assert_eq!(result, Frame::bulk(b"message"));
}

#[test]
fn test_get_try_from_frame() {
    let frame = texts(&["get", "key"]);
    let actual = Get::try_from(frame).unwrap();
    let expected = Get { key: "key".to_string() };
    assert_eq!(actual.key, expected.key);
}

#[test]
fn test_get_try_from_frame_invalid_command() {
    let frame = texts(&["set", "key"]);
    let actual = Get::try_from(frame);
    assert!(actual.is_err());
}

#[test]
fn test_get_try_from_frame_invalid_parts() {
    let frame = texts(&["set"]);
    let actual = Get::try_from(frame);
    assert!(actual.is_err());
}

#[test]
fn hget_test_hget_try_from_frame() {
    let frame = texts(&["hget", "key", "field"]);
    let actual = HGet::try_from(frame).unwrap();
    let expected = HGet { key: "key".to_string(), field: "field".to_string() };
    assert_eq!(actual.key, expected.key);
    assert_eq!(actual.field, expected.field);
}

#[test]
fn test_hget_try_from_frame_invalid_command() {
    let frame = texts(&["set", "key", "field"]);
    let actual = HGet::try_from(frame);
    assert!(actual.is_err());
}

#[test]
fn test_hgetall_try_from_frame() {
    let frame = texts(&["hgetall", "key"]);
    let actual = HGetAll::try_from(frame).unwrap();
    let expected = HGetAll { key: "key".to_string() };
    assert_eq!(actual.key, expected.key);
}

#[test]
fn test_hgetall_try_from_frame_invalid_command() {
    let frame = texts(&["set", "key"]);
    let actual = HGetAll::try_from(frame);
    assert!(actual.is_err());
}

const HMGET_INPUT: &[u8] =
    b"*5\r\n$5\r\nhmget\r\n$6\r\nmyhash\r\n$6\r\nfield1\r\n$6\r\nfield2\r\n$7\r\nnofield\r\n";

#[test]
fn test_hmget_try_from_frame() {
    let cmd = Hmget::try_from(decode(HMGET_INPUT));
    assert!(cmd.is_ok());
    let cmd = cmd.unwrap();
    assert_eq!(cmd.key, "myhash");
    assert_eq!(cmd.fields, vec!["field1", "field2", "nofield"]);
}

#[test]
fn test_hmget_try_from_frame_invalid_command() {
    let cmd = Hmget::try_from(decode(b"*2\r\n$3\r\nset\r\n$7\r\nmessage\r\n"));
    assert!(cmd.is_err());
}

#[test]
fn test_hmget_execute() {
    let backend = Backend::new();
    backend.hset("myhash", "field1", Frame::bulk(b"value1"));
    backend.hset("myhash", "field2", Frame::bulk(b"value2"));
    let cmd = Hmget::try_from(decode(HMGET_INPUT)).unwrap();
    let result = cmd.execute(backend);
    match result {
        Frame::Array(array) => {
            assert_eq!(array.len(), 3);
            assert_eq!(array.inner[0], Frame::bulk(b"value1"));
            assert_eq!(array.inner[1], Frame::bulk(b"value2"));
            assert_eq!(array.inner[2], Frame::null());
        },
        _ => panic!("Expected Array"),
    }
}

#[test]
fn hset_test_hget_try_from_frame() {
    let frame = bulks(&[b"hset", b"key", b"field", b"value"]);
    let actual = HSet::try_from(frame).unwrap();
    let expected = HSet {
        key: "key".to_string(),
        field: "field".to_string(),
        value: Frame::bulk(b"value"),
    };
    assert_eq!(actual.key, expected.key);
    assert_eq!(actual.field, expected.field);
    assert_eq!(actual.value, expected.value);
}

#[test]
fn test_command_try_from_frame() {
    let frame = texts(&["get", "key"]);
    let actual = Command::try_from(frame).unwrap();
    let expected = Get { key: "key".to_string() };
    match actual {
        Command::Get(actual) => {
            assert_eq!(actual.key, expected.key);
        },
        _ => panic!("Expected Get"),
    }
}

#[test]
fn test_command_get_and_set() {
    let backend = Backend::new();
    let get_command = Command::try_from(bulks(&[b"get", b"key"])).unwrap();
    let actual = get_command.execute(backend.clone());
    assert_eq!(actual, Frame::null());

    let set_command = Command::try_from(bulks(&[b"set", b"key", b"value"])).unwrap();
    let actual = set_command.execute(backend.clone());
    assert_eq!(actual, ok());

    let result = get_command.execute(backend.clone());
    assert_eq!(result, Frame::bulk(b"value"));
}

#[test]
fn test_command_hget_and_hset() {
    let backend = Backend::new();
    let hget_command = Command::try_from(bulks(&[b"hget", b"key", b"field"])).unwrap();
    let actual = hget_command.execute(backend.clone());
    assert_eq!(actual, Frame::null());

    let hset_command =
        Command::try_from(bulks(&[b"hset", b"key", b"field", b"value"])).unwrap();
    let actual = hset_command.execute(backend.clone());
    assert_eq!(actual, Frame::integer(1));

    let result = hget_command.execute(backend.clone());
    assert_eq!(result, Frame::bulk(b"value"));
}

#[test]
fn test_command_hgetall() {
    let backend = Backend::new();
    let hgetall_command = Command::try_from(bulks(&[b"hgetall", b"key"])).unwrap();
    let actual = hgetall_command.execute(backend.clone());
    assert_eq!(actual, Frame::null());

    let hset_command =
        Command::try_from(bulks(&[b"hset", b"key", b"field1", b"value1"])).unwrap();
    hset_command.execute(backend.clone());
    let hset_command =
        Command::try_from(bulks(&[b"hset", b"key", b"field2", b"value2"])).unwrap();
    hset_command.execute(backend.clone());

    let result = hgetall_command.execute(backend.clone());
    match result {
        Frame::Array(array) => {
            assert_eq!(array.len(), 4);
        },
        _ => panic!("Expected Array"),
    }
}

#[test]
fn test_parse_try_new() {
    let frame = texts(&["get", "key"]);
    let mut actual = Parse::try_new(frame).unwrap();
    assert_eq!(actual.length(), 2);
    let mut parts = Vec::new();
    while let Ok(f) = actual.next() {
        parts.push(f);
    }
    assert_eq!(parts, vec![Frame::simple("get"), Frame::simple("key")]);
}

const SADD_INPUT: &[u8] = b"*3\r\n$4\r\nSADD\r\n$3\r\nkey\r\n$5\r\nvalue\r\n";

#[test]
fn test_sadd_try_from_frame() {
    let cmd = Sadd::try_from(decode(SADD_INPUT)).unwrap();
    assert_eq!(cmd.key, "key");
    assert_eq!(cmd.field, "value");
}

#[test]
fn test_sadd_try_from_frame_invalid_command() {
    let result = Sadd::try_from(decode(b"*3\r\n$3\r\nSET\r\n$3\r\nkey\r\n$5\r\nvalue\r\n"));
    assert!(result.is_err());
}

#[test]
fn test_sadd_execute() {
    let cmd = Sadd::try_from(decode(SADD_INPUT)).unwrap();
    let backend = Backend::new();
    let result = cmd.execute(backend);
    assert_eq!(result, Frame::integer(1));
}

#[test]
fn test_set_try_from_frame() {
    let frame = texts(&["set", "key", "value"]);
    let actual = SetCommand::try_from(frame).unwrap();
    let expected = SetCommand { key: "key".to_string(), value: Frame::simple("value") };
    assert_eq!(actual.key, expected.key);
    assert_eq!(actual.value, expected.value);
}

#[test]
fn test_set_try_from_frame_invalid_command() {
    let frame = texts(&["get", "key", "value"]);
    let actual = SetCommand::try_from(frame);
    assert!(actual.is_err());
}

#[test]
fn test_set_try_from_frame_invalid_parts() {
    let frame = texts(&["set", "key"]);
    let actual = SetCommand::try_from(frame);
    assert!(actual.is_err());
}

const SISMEMBER_INPUT: &[u8] = b"*3\r\n$9\r\nsismember\r\n$5\r\nmyset\r\n$3\r\none\r\n";

#[test]
fn test_sismember_try_from_frame() {
    let cmd = Sismember::try_from(decode(SISMEMBER_INPUT)).unwrap();
    assert_eq!(cmd.key, "myset");
    assert_eq!(cmd.field, "one");
}

#[test]
fn test_sismember_try_from_frame_invalid_command() {
    let cmd = Sismember::try_from(decode(b"*3\r\n$3\r\nset\r\n$5\r\nmyset\r\n$3\r\none\r\n"));
    assert!(cmd.is_err());
}

#[test]
fn test_sismember_execute() {
    let cmd = Sismember::try_from(decode(SISMEMBER_INPUT)).unwrap();
    let backend = Backend::new();
    let result = cmd.execute(backend);
    assert_eq!(result, Frame::integer(0));
}

const SMEMBERS_INPUT: &[u8] = b"*2\r\n$8\r\nSMEMBERS\r\n$3\r\nkey\r\n";

#[test]
fn test_smembers_try_from_frame() {
    let cmd = Smembers::try_from(decode(SMEMBERS_INPUT)).unwrap();
    assert_eq!(cmd.key, "key");
}

#[test]
fn test_smembers_try_from_frame_invalid_command() {
    let result = Smembers::try_from(decode(b"*2\r\n$3\r\nSET\r\n$3\r\nkey\r\n"));
    assert!(result.is_err());
}

#[test]
fn test_smembers_execute() {
    let cmd = Smembers::try_from(decode(SMEMBERS_INPUT)).unwrap();
    let store = Store::new();
    let result = cmd.execute(store);
    assert_eq!(result, Frame::array(Vec::new()));
}
