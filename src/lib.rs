//! A RESP3-style wire protocol codec, command parser and concurrent key-value store.

pub mod model;
pub mod frame;
pub mod text;
pub mod codec;
pub mod encode;
pub mod parse;
pub mod backend;
pub mod command;
pub mod reply;
pub mod network;
pub mod proofs;

pub use backend::{Backend, BackendInner, Store, StoreInner};
pub use codec::RespDecode;
pub use command::{
    Command, Echo, Get, HGet, HGetAll, HSet, Hmget, Sadd, SetCommand, Sismember, Smembers,
};
pub use encode::RespEncode;
pub use frame::{
    Array, BigNumber, Boolean, BulkError, BulkString, Double, Frame, Integer, Null, RespError,
    RespMap, RespSet, SimpleError, SimpleString,
};
pub use network::{request_handle, RespFrameCodec, RespRequest};
pub use parse::{Parse, ParseError};
