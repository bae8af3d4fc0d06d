//! Encoding of frames into bytes.
use vstd::prelude::*;

use crate::frame::{
    frame_value, frames_values, lemma_frames_values, lemma_pairs_values, pairs_values, Array,
    BigNumber, Boolean, BulkError, BulkString, Double, Frame, Integer, Null, RespMap, RespSet,
    SimpleError, SimpleString,
};
use crate::model::{
    crlf, encode_pairs, encode_seq, encode_value, int_text, nat_digits, Value, CR, LF, LOWER_F,
    LOWER_T, MINUS, TAG_ARRAY, TAG_BIG_NUMBER, TAG_BOOLEAN, TAG_BULK_ERROR, TAG_BULK_STRING,
    TAG_DOUBLE, TAG_INTEGER, TAG_MAP, TAG_NULL, TAG_SET, TAG_SIMPLE_ERROR, TAG_SIMPLE_STRING,
    ZERO,
};

verus! {

/// Appends `b` to `buf`.
pub fn push_bytes(buf: &mut Vec<u8>, b: &[u8])
    ensures
        final(buf)@ == old(buf)@ + b@,
{
    let ghost start = buf@;
    let mut i: usize = 0;
    while i < b.len()
        invariant
            i <= b@.len(),
            buf@ == start + b@.subrange(0, i as int),
        decreases b.len() - i,
    {
        buf.push(b[i]);
        i = i + 1;
        assert(buf@ =~= start + b@.subrange(0, i as int));
    }
    assert(b@.subrange(0, i as int) =~= b@);
}

/// Appends the line terminator.
pub fn push_crlf(buf: &mut Vec<u8>)
    ensures
        final(buf)@ == old(buf)@ + crlf(),
{
    buf.push(CR);
    buf.push(LF);
    assert(buf@ =~= old(buf)@ + crlf());
}

/// Appends the decimal digits of `n`.
pub fn push_digits(buf: &mut Vec<u8>, n: u64)
    ensures
        final(buf)@ == old(buf)@ + nat_digits(n as nat),
    decreases n,
{
    if n >= 10 {
        push_digits(buf, n / 10);
    }
    buf.push(ZERO + (n % 10) as u8);
    assert(buf@ =~= old(buf)@ + nat_digits(n as nat));
}

/// Appends the decimal text of `i`.
pub fn push_int(buf: &mut Vec<u8>, i: i64)
    ensures
        final(buf)@ == old(buf)@ + int_text(i as int),
{
    if i < 0 {
        buf.push(MINUS);
        let m: u64 = (-(i as i128)) as u64;
        push_digits(buf, m);
        assert(buf@ =~= old(buf)@ + int_text(i as int));
    } else {
        push_digits(buf, i as u64);
    }
}

/// Types whose values have a wire encoding.
pub trait RespEncode: View<V = Value> {
    /// The wire encoding of this value.
    fn encode(&self) -> (r: Vec<u8>)
        ensures
            r@ == encode_value(self@),
    ;
}

impl Frame {
    /// Appends the wire encoding of this frame to `buf`.
    pub fn encode_into(&self, buf: &mut Vec<u8>)
        ensures
            final(buf)@ == old(buf)@ + encode_value(self@),
        decreases self, 1nat,
    {
        match self {
            Frame::SimpleString(x) => x.encode_into(buf),
            Frame::SimpleError(x) => x.encode_into(buf),
            Frame::Integer(x) => x.encode_into(buf),
            Frame::BulkString(x) => x.encode_into(buf),
            Frame::Array(x) => x.encode_into(buf),
            Frame::Null(x) => x.encode_into(buf),
            Frame::Boolean(x) => x.encode_into(buf),
            Frame::Double(x) => x.encode_into(buf),
            Frame::BigNumber(x) => x.encode_into(buf),
            Frame::BulkError(x) => x.encode_into(buf),
            Frame::RespMap(x) => x.encode_into(buf),
            Frame::RespSet(x) => x.encode_into(buf),
        }
    }
}

impl RespEncode for Frame {
    fn encode(&self) -> (r: Vec<u8>) {
        let mut buf = Vec::new();
        self.encode_into(&mut buf);
        assert(buf@ =~= encode_value(self@));
        buf
    }
}

impl SimpleString {
    /// Appends the wire encoding of this value to `buf`.
    pub fn encode_into(&self, buf: &mut Vec<u8>)
        ensures
            final(buf)@ == old(buf)@ + encode_value(self@),
    {
        let ghost start = buf@;
        buf.push(TAG_SIMPLE_STRING);
        push_bytes(buf, self.inner.as_str().as_bytes());
        push_crlf(buf);
        assert(buf@ =~= start + encode_value(self@));
    }
}

impl RespEncode for SimpleString {
    fn encode(&self) -> (r: Vec<u8>) {
        let mut buf = Vec::new();
        self.encode_into(&mut buf);
        assert(buf@ =~= encode_value(self@));
        buf
    }
}

impl SimpleError {
    /// Appends the wire encoding of this value to `buf`.
    pub fn encode_into(&self, buf: &mut Vec<u8>)
        ensures
            final(buf)@ == old(buf)@ + encode_value(self@),
    {
        let ghost start = buf@;
        buf.push(TAG_SIMPLE_ERROR);
        push_bytes(buf, self.inner.as_str().as_bytes());
        push_crlf(buf);
        assert(buf@ =~= start + encode_value(self@));
    }
}

impl RespEncode for SimpleError {
    fn encode(&self) -> (r: Vec<u8>) {
        let mut buf = Vec::new();
        self.encode_into(&mut buf);
        assert(buf@ =~= encode_value(self@));
        buf
    }
}

impl Integer {
    /// Appends the wire encoding of this value to `buf`.
    pub fn encode_into(&self, buf: &mut Vec<u8>)
        ensures
            final(buf)@ == old(buf)@ + encode_value(self@),
    {
        let ghost start = buf@;
        buf.push(TAG_INTEGER);
        push_int(buf, self.inner);
        push_crlf(buf);
        assert(buf@ =~= start + encode_value(self@));
    }
}

impl RespEncode for Integer {
    fn encode(&self) -> (r: Vec<u8>) {
        let mut buf = Vec::new();
        self.encode_into(&mut buf);
        assert(buf@ =~= encode_value(self@));
        buf
    }
}

impl BulkString {
    /// Appends the wire encoding of this value to `buf`.
    pub fn encode_into(&self, buf: &mut Vec<u8>)
        ensures
            final(buf)@ == old(buf)@ + encode_value(self@),
    {
        let ghost start = buf@;
        buf.push(TAG_BULK_STRING);
        if self.null {
            push_int(buf, -1);
            push_crlf(buf);
        } else {
            push_digits(buf, self.inner.len() as u64);
            push_crlf(buf);
            push_bytes(buf, self.inner.as_slice());
            push_crlf(buf);
        }
        assert(buf@ =~= start + encode_value(self@));
    }
}

impl RespEncode for BulkString {
    fn encode(&self) -> (r: Vec<u8>) {
        let mut buf = Vec::new();
        self.encode_into(&mut buf);
        assert(buf@ =~= encode_value(self@));
        buf
    }
}

impl Array {
    /// Appends the wire encoding of this value to `buf`.
    pub fn encode_into(&self, buf: &mut Vec<u8>)
        ensures
            final(buf)@ == old(buf)@ + encode_value(self@),
        decreases self, 0nat,
    {
        let ghost start = buf@;
        buf.push(TAG_ARRAY);
        if self.null {
            push_int(buf, -1);
            push_crlf(buf);
        } else {
            push_digits(buf, self.inner.len() as u64);
            push_crlf(buf);
            encode_items(&self.inner, buf);
        }
        proof {
            lemma_frames_values(self.inner@);
        }
        assert(buf@ =~= start + encode_value(self@));
    }
}

impl RespEncode for Array {
    fn encode(&self) -> (r: Vec<u8>) {
        let mut buf = Vec::new();
        self.encode_into(&mut buf);
        assert(buf@ =~= encode_value(self@));
        buf
    }
}

impl Null {
    /// Appends the wire encoding of this value to `buf`.
    pub fn encode_into(&self, buf: &mut Vec<u8>)
        ensures
            final(buf)@ == old(buf)@ + encode_value(self@),
    {
        let ghost start = buf@;
        buf.push(TAG_NULL);
        push_crlf(buf);
        assert(buf@ =~= start + encode_value(self@));
    }
}

impl RespEncode for Null {
    fn encode(&self) -> (r: Vec<u8>) {
        let mut buf = Vec::new();
        self.encode_into(&mut buf);
        assert(buf@ =~= encode_value(self@));
        buf
    }
}

impl Boolean {
    /// Appends the wire encoding of this value to `buf`.
    pub fn encode_into(&self, buf: &mut Vec<u8>)
        ensures
            final(buf)@ == old(buf)@ + encode_value(self@),
    {
        let ghost start = buf@;
        buf.push(TAG_BOOLEAN);
        buf.push(
            if self.inner {
                LOWER_T
            } else {
                LOWER_F
            },
        );
        push_crlf(buf);
        assert(buf@ =~= start + encode_value(self@));
    }
}

impl RespEncode for Boolean {
    fn encode(&self) -> (r: Vec<u8>) {
        let mut buf = Vec::new();
        self.encode_into(&mut buf);
        assert(buf@ =~= encode_value(self@));
        buf
    }
}

impl Double {
    /// Appends the wire encoding of this value to `buf`.
    pub fn encode_into(&self, buf: &mut Vec<u8>)
        ensures
            final(buf)@ == old(buf)@ + encode_value(self@),
    {
        let ghost start = buf@;
        buf.push(TAG_DOUBLE);
        push_bytes(buf, self.inner.as_str().as_bytes());
        push_crlf(buf);
        assert(buf@ =~= start + encode_value(self@));
    }
}

impl RespEncode for Double {
    fn encode(&self) -> (r: Vec<u8>) {
        let mut buf = Vec::new();
        self.encode_into(&mut buf);
        assert(buf@ =~= encode_value(self@));
        buf
    }
}

impl BigNumber {
    /// Appends the wire encoding of this value to `buf`.
    pub fn encode_into(&self, buf: &mut Vec<u8>)
        ensures
            final(buf)@ == old(buf)@ + encode_value(self@),
    {
        let ghost start = buf@;
        buf.push(TAG_BIG_NUMBER);
        push_bytes(buf, self.inner.as_str().as_bytes());
        push_crlf(buf);
        assert(buf@ =~= start + encode_value(self@));
    }
}

impl RespEncode for BigNumber {
    fn encode(&self) -> (r: Vec<u8>) {
        let mut buf = Vec::new();
        self.encode_into(&mut buf);
        assert(buf@ =~= encode_value(self@));
        buf
    }
}

impl BulkError {
    /// Appends the wire encoding of this value to `buf`.
    pub fn encode_into(&self, buf: &mut Vec<u8>)
        ensures
            final(buf)@ == old(buf)@ + encode_value(self@),
    {
        let ghost start = buf@;
        buf.push(TAG_BULK_ERROR);
        push_digits(buf, self.inner.len() as u64);
        push_crlf(buf);
        push_bytes(buf, self.inner.as_slice());
        push_crlf(buf);
        assert(buf@ =~= start + encode_value(self@));
    }
}

impl RespEncode for BulkError {
    fn encode(&self) -> (r: Vec<u8>) {
        let mut buf = Vec::new();
        self.encode_into(&mut buf);
        assert(buf@ =~= encode_value(self@));
        buf
    }
}

impl RespMap {
    /// Appends the wire encoding of this value to `buf`.
    pub fn encode_into(&self, buf: &mut Vec<u8>)
        ensures
            final(buf)@ == old(buf)@ + encode_value(self@),
        decreases self, 0nat,
    {
        let ghost start = buf@;
        buf.push(TAG_MAP);
        push_digits(buf, self.inner.len() as u64);
        push_crlf(buf);
        encode_pairs_into(&self.inner, buf);
        proof {
            lemma_pairs_values(self.inner@);
        }
        assert(buf@ =~= start + encode_value(self@));
    }
}

impl RespEncode for RespMap {
    fn encode(&self) -> (r: Vec<u8>) {
        let mut buf = Vec::new();
        self.encode_into(&mut buf);
        assert(buf@ =~= encode_value(self@));
        buf
    }
}

impl RespSet {
    /// Appends the wire encoding of this value to `buf`.
    pub fn encode_into(&self, buf: &mut Vec<u8>)
        ensures
            final(buf)@ == old(buf)@ + encode_value(self@),
        decreases self, 0nat,
    {
        let ghost start = buf@;
        buf.push(TAG_SET);
        push_digits(buf, self.inner.len() as u64);
        push_crlf(buf);
        encode_items(&self.inner, buf);
        proof {
            lemma_frames_values(self.inner@);
        }
        assert(buf@ =~= start + encode_value(self@));
    }
}

impl RespEncode for RespSet {
    fn encode(&self) -> (r: Vec<u8>) {
        let mut buf = Vec::new();
        self.encode_into(&mut buf);
        assert(buf@ =~= encode_value(self@));
        buf
    }
}

/// Appends the encodings of `items`, one after the other.
fn encode_items(items: &Vec<Frame>, buf: &mut Vec<u8>)
    ensures
        final(buf)@ == old(buf)@ + encode_seq(frames_values(items@)),
    decreases items, 2nat,
{
    proof {
        lemma_frames_values(items@);
    }
    let ghost vs = frames_values(items@);
    let ghost start = buf@;
    let mut i: usize = 0;
    while i < items.len()
        invariant
            vs == frames_values(items@),
            vs.len() == items@.len(),
            forall|j: int| 0 <= j < items@.len() ==> #[trigger] vs[j] == frame_value(items@[j]),
            i <= items@.len(),
            buf@ == start + encode_seq(vs.take(i as int)),
        decreases items.len() - i,
    {
        proof {
            assert(decreases_to!(*items => items@[i as int]));
        }
        items[i].encode_into(buf);
        proof {
            assert(vs.take(i + 1).drop_last() =~= vs.take(i as int));
        }
        i = i + 1;
        assert(buf@ =~= start + encode_seq(vs.take(i as int)));
    }
    assert(vs.take(i as int) =~= vs);
}

/// Appends the encodings of `pairs`: each key, then its value.
fn encode_pairs_into(pairs: &Vec<(Frame, Frame)>, buf: &mut Vec<u8>)
    ensures
        final(buf)@ == old(buf)@ + encode_pairs(pairs_values(pairs@)),
    decreases pairs, 2nat,
{
    proof {
        lemma_pairs_values(pairs@);
    }
    let ghost ps = pairs_values(pairs@);
    let ghost start = buf@;
    let mut i: usize = 0;
    while i < pairs.len()
        invariant
            ps == pairs_values(pairs@),
            ps.len() == pairs@.len(),
            forall|j: int|
                0 <= j < pairs@.len() ==> #[trigger] ps[j] == (
                frame_value(pairs@[j].0),
                frame_value(pairs@[j].1),
            ),
            i <= pairs@.len(),
            buf@ == start + encode_pairs(ps.take(i as int)),
        decreases pairs.len() - i,
    {
        proof {
            assert(decreases_to!(*pairs => pairs@[i as int]));
            assert(decreases_to!(pairs@[i as int] => pairs@[i as int].0));
            assert(decreases_to!(pairs@[i as int] => pairs@[i as int].1));
        }
        pairs[i].0.encode_into(buf);
        pairs[i].1.encode_into(buf);
        proof {
            assert(ps.take(i + 1).drop_last() =~= ps.take(i as int));
        }
        i = i + 1;
        assert(buf@ =~= start + encode_pairs(ps.take(i as int)));
    }
    assert(ps.take(i as int) =~= ps);
}

} // verus!
