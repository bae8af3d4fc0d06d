//! The shared in-memory store: scalar values, hash fields and set members.
//!
//! Every connection shares one store and may write to it at any time, so what a read
//! returns depends on the writes of other connections: the operations below promise
//! nothing about the values they read back.
use std::sync::Arc;

use dashmap::{DashMap, DashSet};
use vstd::prelude::*;

use crate::frame::Frame;

verus! {

#[verifier::external_type_specification]
#[verifier::external_body]
#[verifier::reject_recursive_types(K)]
#[verifier::reject_recursive_types(V)]
#[verifier::reject_recursive_types(S)]
pub struct ExDashMap<K, V, S>(DashMap<K, V, S>);

#[verifier::external_type_specification]
#[verifier::external_body]
#[verifier::reject_recursive_types(K)]
#[verifier::reject_recursive_types(S)]
pub struct ExDashSet<K, S>(DashSet<K, S>);

/// Relies on `DashMap::new`: an empty concurrent map.
#[verifier::external_body]
fn new_map<V>() -> DashMap<String, V> {
    DashMap::new()
}

/// Relies on `DashMap::get`: a copy of the value stored under `key`, if any.
#[verifier::external_body]
fn scalar_get(m: &DashMap<String, Frame>, key: &str) -> Option<Frame> {
    m.get(key).map(|v| v.duplicate())
}

/// Relies on `DashMap::insert`: stores `value` under `key`, replacing any earlier value.
#[verifier::external_body]
fn scalar_insert(m: &DashMap<String, Frame>, key: String, value: Frame) {
    m.insert(key, value);
}

/// Relies on `DashMap::entry`, `Entry::or_default` and `DashMap::insert`: creates the hash
/// of `key` if it is missing, under the entry's lock, and stores `value` under `field`.
#[verifier::external_body]
fn hash_insert(
    m: &DashMap<String, DashMap<String, Frame>>,
    key: String,
    field: String,
    value: Frame,
) {
    m.entry(key).or_default().insert(field, value);
}

/// Relies on `DashMap::get`: a copy of the value of `field` in the hash of `key`, if any.
#[verifier::external_body]
fn hash_get(
    m: &DashMap<String, DashMap<String, Frame>>,
    key: &str,
    field: &str,
) -> Option<Frame> {
    match m.get(key) {
        Some(h) => h.get(field).map(|v| v.duplicate()),
        None => None,
    }
}

/// Relies on `DashMap::get` and `DashMap::iter`: copies of the field/value pairs of the
/// hash of `key`, in the map's iteration order, if the hash exists.
#[verifier::external_body]
fn hash_entries(
    m: &DashMap<String, DashMap<String, Frame>>,
    key: &str,
) -> Option<Vec<(String, Frame)>> {
    match m.get(key) {
        Some(h) => Some(h.iter().map(|e| (e.key().clone(), e.value().duplicate())).collect()),
        None => None,
    }
}

/// Relies on `DashMap::entry`, `Entry::or_default` and `DashSet::insert`: creates the set of
/// `key` if it is missing and adds `member`; true when `member` was not in the set.
#[verifier::external_body]
fn member_insert(m: &DashMap<String, DashSet<String>>, key: String, member: String) -> bool {
    m.entry(key).or_default().insert(member)
}

/// Relies on `DashMap::get` and `DashSet::iter`: the members of the set of `key`, if the
/// set exists.
#[verifier::external_body]
fn members_of(m: &DashMap<String, DashSet<String>>, key: &str) -> Option<Vec<String>> {
    match m.get(key) {
        Some(s) => Some(s.iter().map(|v| v.key().clone()).collect()),
        None => None,
    }
}

/// Relies on `DashMap::get` and `DashSet::contains`: whether the set of `key` holds `member`.
#[verifier::external_body]
fn member_contains(m: &DashMap<String, DashSet<String>>, key: &str, member: &str) -> bool {
    match m.get(key) {
        Some(s) => s.contains(member),
        None => false,
    }
}

/// The three namespaces of the store.
#[derive(Debug)]
pub struct BackendInner {
    set: DashMap<String, DashSet<String>>,
    map: DashMap<String, Frame>,
    hmap: DashMap<String, DashMap<String, Frame>>,
}

/// A handle on a shared store; clones share the same store.
#[derive(Debug, Clone)]
pub struct Backend {
    inner: Arc<BackendInner>,
}

/// The store under the name its scalar and hash operations were first given.
pub type Store = Backend;

/// The namespaces of a `Store`.
pub type StoreInner = BackendInner;

impl Backend {
    /// A new, empty store.
    pub fn new() -> Backend {
        Backend {
            inner: Arc::new(BackendInner { set: new_map(), map: new_map(), hmap: new_map() }),
        }
    }

    /// The scalar value of `key`, if any.
    pub fn get(&self, key: &str) -> Option<Frame> {
        scalar_get(&self.inner.map, key)
    }

    /// Stores `value` as the scalar value of `key`.
    pub fn set(&self, key: &str, value: Frame) {
        scalar_insert(&self.inner.map, key.to_string(), value)
    }

    /// Stores `value` under `field` in the hash of `key`, creating the hash if needed.
    pub fn hset(&self, key: &str, field: &str, value: Frame) {
        hash_insert(&self.inner.hmap, key.to_string(), field.to_string(), value)
    }

    /// The value of `field` in the hash of `key`, if any.
    pub fn hget(&self, key: &str, field: &str) -> Option<Frame> {
        hash_get(&self.inner.hmap, key, field)
    }

    /// The field/value pairs of the hash of `key`, in no particular order, if it exists.
    pub fn hgetall(&self, key: &str) -> Option<Vec<(String, Frame)>> {
        hash_entries(&self.inner.hmap, key)
    }

    /// Adds `member` to the set of `key`; true when it was not a member yet.
    pub fn sadd(&self, key: &str, member: &str) -> bool {
        member_insert(&self.inner.set, key.to_string(), member.to_string())
    }

    /// The members of the set of `key`, in no particular order, if it exists.
    pub fn smembers(&self, key: &str) -> Option<Vec<String>> {
        members_of(&self.inner.set, key)
    }

    /// Whether the set of `key` holds `member`.
    pub fn sismember(&self, key: &str, member: &str) -> bool {
        member_contains(&self.inner.set, key, member)
    }
}

} // verus!
