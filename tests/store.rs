use simple_redis::{Backend, Frame, Store};

#[test]
fn test_backend_get_set() {
    let backend = Backend::new();
    backend.set("key", Frame::simple("value"));
    let result = backend.get("key").unwrap();
    assert_eq!(result, Frame::simple("value"));
}

#[test]
fn test_backend_hset_hget() {
    let backend = Backend::new();
    backend.hset("key", "field", Frame::simple("value"));
    let result = backend.hget("key", "field").unwrap();
    assert_eq!(result, Frame::simple("value"));
}

#[test]
fn test_backend_hgetall() {
    let backend = Backend::new();
    backend.hset("key", "field1", Frame::simple("value1"));
    backend.hset("key", "field2", Frame::simple("value2"));
    let result = backend.hgetall("key").unwrap();
    assert_eq!(result.len(), 2);
}

#[test]
fn test_store_get_set() {
    let store = Store::new();
    store.set("key", Frame::simple("value"));
    let result = store.get("key").unwrap();
    assert_eq!(result, Frame::simple("value"));
}

#[test]
fn test_store_hset_hget() {
    let store = Store::new();
    store.hset("key", "field", Frame::simple("value"));
    let result = store.hget("key", "field").unwrap();
    assert_eq!(result, Frame::simple("value"));
}

#[test]
fn test_store_hgetall() {
    let store = Store::new();
    store.hset("key", "field1", Frame::simple("value1"));
    store.hset("key", "field2", Frame::simple("value2"));
    let result = store.hgetall("key").unwrap();
    assert_eq!(result.len(), 2);
}
