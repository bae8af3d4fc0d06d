//! A cursor over the elements of a command frame.
use vstd::prelude::*;
use vstd::utf8::{decode_utf8, valid_utf8};

use crate::frame::{frames_values, lemma_frames_values, Frame};
use crate::model::Value;
use crate::text::text_from_utf8;

verus! {

/// Why a frame could not be read as a command.
#[derive(Debug, Clone, Copy, PartialEq, Eq, Structural)]
pub enum ParseError {
    /// The frame is not an array, or an operand is not text.
    InvalidType,
    /// An operand is missing.
    EndOfParts,
    /// Elements are left over after the last operand.
    NotFinished,
    /// A bulk string operand is not valid UTF-8.
    FromUtf8Error,
    /// The verb is not the expected one, or not a known one.
    InvalidCommand,
}

/// The elements of a frame read as a command: a null array has none.
pub open spec fn command_parts(f: Value) -> Result<Seq<Value>, ParseError> {
    match f {
        Value::Array(Some(v)) => Ok(v),
        Value::Array(None) => Ok(seq![]),
        _ => Err(ParseError::InvalidType),
    }
}

/// The text that an element carries: a simple string's, or a bulk string's decoded bytes.
pub open spec fn text_of(v: Value) -> Result<Seq<char>, ParseError> {
    match v {
        Value::SimpleString(t) => Ok(t),
        Value::BulkString(None) => Ok(seq![]),
        Value::BulkString(Some(b)) => if valid_utf8(b) {
            Ok(decode_utf8(b))
        } else {
            Err(ParseError::FromUtf8Error)
        },
        _ => Err(ParseError::InvalidType),
    }
}

/// A cursor over the elements of an array frame, from first to last.
#[derive(Debug)]
pub struct Parse {
    parts: Vec<Frame>,
    length: usize,
}

impl Parse {
    /// The elements not read yet.
    pub closed spec fn rest(&self) -> Seq<Value> {
        frames_values(self.parts@)
    }

    /// The number of elements of the frame, read or not.
    pub closed spec fn total(&self) -> nat {
        self.length as nat
    }

    /// A cursor at the first element of `frame`, which must be an array.
    pub fn try_new(frame: Frame) -> (r: Result<Parse, ParseError>)
        ensures
            match command_parts(frame@) {
                Ok(parts) => r matches Ok(p) && p.rest() == parts && p.total() == parts.len(),
                Err(e) => r == Err::<Parse, _>(e),
            },
    {
        match frame {
            Frame::Array(a) => {
                proof {
                    lemma_frames_values(a.inner@);
                }
                if a.null {
                    Ok(Parse { parts: Vec::new(), length: 0 })
                } else {
                    let length = a.inner.len();
                    Ok(Parse { parts: a.inner, length })
                }
            },
            _ => Err(ParseError::InvalidType),
        }
    }

    /// The number of elements of the frame, read or not.
    pub fn length(&self) -> (r: usize)
        ensures
            r == self.total(),
    {
        self.length
    }

    /// Reads the next element.
    pub fn next(&mut self) -> (r: Result<Frame, ParseError>)
        ensures
            final(self).total() == old(self).total(),
            old(self).rest().len() == 0 ==> r == Err::<Frame, _>(ParseError::EndOfParts)
                && final(self).rest() == old(self).rest(),
            old(self).rest().len() > 0 ==> (r matches Ok(f) && f@ == old(self).rest()[0]),
            old(self).rest().len() > 0 ==> final(self).rest() == old(self).rest().drop_first(),
    {
        proof {
            lemma_frames_values(self.parts@);
        }
        if self.parts.len() == 0 {
            return Err(ParseError::EndOfParts);
        }
        let ghost before = self.parts@;
        let f = self.parts.remove(0);
        proof {
            lemma_frames_values(self.parts@);
            assert(frames_values(self.parts@) =~= frames_values(before).drop_first());
        }
        Ok(f)
    }

    /// Reads the next element as text.
    pub fn next_string(&mut self) -> (r: Result<String, ParseError>)
        ensures
            final(self).total() == old(self).total(),
            old(self).rest().len() == 0 ==> r == Err::<String, _>(ParseError::EndOfParts),
            old(self).rest().len() > 0 ==> final(self).rest() == old(self).rest().drop_first()
                && match text_of(old(self).rest()[0]) {
                Ok(t) => r matches Ok(s) && s@ == t,
                Err(e) => r == Err::<String, _>(e),
            },
    {
        let f = match self.next() {
            Ok(f) => f,
            Err(e) => return Err(e),
        };
        frame_text(&f)
    }

    /// The next element as text, without reading it.
    pub fn peek_string(&self) -> (r: Result<String, ParseError>)
        ensures
            self.rest().len() == 0 ==> r == Err::<String, _>(ParseError::EndOfParts),
            self.rest().len() > 0 ==> match text_of(self.rest()[0]) {
                Ok(t) => r matches Ok(s) && s@ == t,
                Err(e) => r == Err::<String, _>(e),
            },
    {
        proof {
            lemma_frames_values(self.parts@);
        }
        if self.parts.len() == 0 {
            return Err(ParseError::EndOfParts);
        }
        frame_text(&self.parts[0])
    }

    /// Succeeds when every element has been read.
    pub fn finish(&mut self) -> (r: Result<(), ParseError>)
        ensures
            *final(self) == *old(self),
            r is Ok <==> old(self).rest().len() == 0,
            r matches Err(e) ==> e == ParseError::NotFinished,
    {
        proof {
            lemma_frames_values(self.parts@);
        }
        if self.parts.len() == 0 {
            Ok(())
        } else {
            Err(ParseError::NotFinished)
        }
    }
}

/// The text that `f` carries.
pub fn frame_text(f: &Frame) -> (r: Result<String, ParseError>)
    ensures
        match text_of(f@) {
            Ok(t) => r matches Ok(s) && s@ == t,
            Err(e) => r == Err::<String, _>(e),
        },
{
    match f {
        Frame::SimpleString(s) => Ok(s.inner.clone()),
        Frame::BulkString(b) => {
            if b.null {
                Ok(String::new())
            } else {
                match text_from_utf8(b.inner.as_slice()) {
                    Some(t) => Ok(t),
                    None => Err(ParseError::FromUtf8Error),
                }
            }
        },
        _ => Err(ParseError::InvalidType),
    }
}

} // verus!
