//! What a connection needs: framing of the byte stream and handling of one request.
use vstd::prelude::*;

use crate::backend::Backend;
use crate::command::{kind_shape, parse_command_as, upper_of, verb_kind, verb_of, Command};
use crate::encode::RespEncode;
use crate::frame::{frames_values, Frame, RespError};
use crate::model::{encode_value, parse_frame, parse_stream, Value};
use crate::parse::ParseError;
use crate::reply::ok_reply;

verus! {

/// Splits a byte stream into frames and turns replies into bytes.
#[derive(Debug)]
pub struct RespFrameCodec;

impl RespFrameCodec {
    /// The first frame of `buf` and the number of bytes it took; `None` when `buf` holds
    /// only part of a frame, so that the caller keeps the bytes and waits for more.
    pub fn decode(&mut self, buf: &[u8]) -> (r: Result<Option<(Frame, usize)>, RespError>)
        ensures
            match parse_frame(buf@, 0) {
                Ok((v, n)) => r matches Ok(Some((f, m))) && f@ == v && m == n && 0 < m <= buf@.len(),
                Err(RespError::Incomplete) => r matches Ok(None),
                Err(e) => r == Err::<Option<(Frame, usize)>, _>(e),
            },
    {
        match Frame::decode_at(buf, 0) {
            Ok((f, n)) => Ok(Some((f, n))),
            Err(RespError::Incomplete) => Ok(None),
            Err(e) => Err(e),
        }
    }

    /// Every complete frame at the start of `buf`, in order, and the number of bytes they
    /// took; the bytes after them are part of a frame still to come.
    pub fn decode_all(&mut self, buf: &[u8]) -> (r: Result<(Vec<Frame>, usize), RespError>)
        ensures
            match parse_stream(buf@, 0, seq![]) {
                Ok((vs, n)) => r matches Ok((fs, m)) && frames_values(fs@) == vs && m == n,
                Err(e) => r == Err::<(Vec<Frame>, usize), _>(e),
            },
    {
        let mut frames: Vec<Frame> = Vec::new();
        let mut pos: usize = 0;
        assert(frames_values(frames@) =~= seq![]);
        loop
            invariant
                pos <= buf@.len(),
                parse_stream(buf@, 0, seq![]) == parse_stream(
                    buf@,
                    pos as int,
                    frames_values(frames@),
                ),
            decreases buf@.len() - pos,
        {
            match Frame::decode_at(buf, pos) {
                Ok((f, e)) => {
                    let ghost before = frames@;
                    frames.push(f);
                    assert(frames@.drop_last() =~= before);
                    pos = e;
                },
                Err(RespError::Incomplete) => {
                    return Ok((frames, pos));
                },
                Err(x) => {
                    return Err(x);
                },
            }
        }
    }

    /// The bytes of a reply.
    pub fn encode(&mut self, item: &Frame) -> (r: Vec<u8>)
        ensures
            r@ == encode_value(item@),
    {
        item.encode()
    }
}

/// A command together with the store it runs against.
#[derive(Debug)]
pub struct RespRequest {
    command: Command,
    backend: Backend,
}

impl RespRequest {
    pub fn new(command: Command, backend: Backend) -> (r: RespRequest)
        ensures
            r.command() == command,
    {
        RespRequest { command, backend }
    }

    pub closed spec fn command(&self) -> Command {
        self.command
    }

    /// Runs the command and gives the reply.
    pub fn execute(&self) -> (r: Frame)
        ensures
            self.command() is SetCommand ==> r@ == ok_reply(),
            self.command() is HSet ==> r@ == Value::Integer(1),
            self.command() matches Command::Echo(c) ==> r@ == c.message@,
    {
        self.command.execute(self.backend.clone())
    }
}

/// Reads the command in `frame` and runs it: the reply, or why `frame` is not a command.
pub fn request_handle(frame: Frame, backend: Backend) -> (r: Result<Frame, ParseError>)
    ensures
        match verb_of(frame@) {
            Err(e) => r == Err::<Frame, _>(e),
            Ok(v) => match verb_kind(upper_of(v)) {
                None => r == Err::<Frame, _>(ParseError::InvalidCommand),
                Some(k) => {
                    let (n, variadic, with_value) = kind_shape(k);
                    let u = upper_of(v);
                    match parse_command_as(frame@, u, u, n, variadic, with_value) {
                        Err(e) => r == Err::<Frame, _>(e),
                        Ok(_) => r is Ok,
                    }
                },
            },
        },
{
    let command = match Command::try_from(frame) {
        Ok(c) => c,
        Err(e) => return Err(e),
    };
    let request = RespRequest::new(command, backend);
    Ok(request.execute())
}

} // verus!
