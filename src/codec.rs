//! Decoding of frames from bytes.
use vstd::prelude::*;
use vstd::slice::{slice_subrange, slice_to_vec};

use crate::frame::{
    frame_value, frames_values, lemma_frames_values, lemma_pairs_values, pairs_values, Array,
    BigNumber, Boolean, BulkError, BulkString, Double, Frame, Integer, Null, RespError, RespMap,
    RespSet, SimpleError, SimpleString,
};
use crate::model::{
    key_index, line_value, map_insert, parse_frame, parse_items, parse_members, parse_pairs,
    set_insert, sized_value, Value, CR, LF, LOWER_F, LOWER_T, TAG_ARRAY, TAG_BIG_NUMBER,
    TAG_BOOLEAN, TAG_BULK_ERROR, TAG_BULK_STRING, TAG_DOUBLE, TAG_INTEGER, TAG_MAP, TAG_NULL,
    TAG_SET, TAG_SIMPLE_ERROR, TAG_SIMPLE_STRING,
};
use crate::text::{
    check_big_number_text, check_double_text, parse_decimal, read_line, text_from_utf8,
};

verus! {

/// A decoding result, seen through the values it holds.
pub open spec fn lift<T: View<V = Value>>(r: Result<(T, usize), RespError>) -> Result<
    (Value, int),
    RespError,
> {
    match r {
        Ok((t, n)) => Ok((t@, n as int)),
        Err(x) => Err(x),
    }
}

/// `r` is what decoding the frame at `pos` gives, and a frame it returns ends within `s`.
pub open spec fn decoded_at(s: Seq<u8>, pos: int, r: Result<(Value, int), RespError>) -> bool {
    &&& r == parse_frame(s, pos)
    &&& r matches Ok((_, e)) ==> pos < e <= s.len()
}

/// Decoding of bytes that must start with the prefix byte `tag`.
pub open spec fn parse_tagged(s: Seq<u8>, tag: u8) -> Result<(Value, int), RespError> {
    if s.len() == 0 {
        Err(RespError::Incomplete)
    } else if s[0] != tag {
        Err(RespError::InvalidType)
    } else {
        parse_frame(s, 0)
    }
}

/// Types that can be decoded from the start of a byte buffer.
pub trait RespDecode: Sized + View<V = Value> {
    /// What decoding `buf` gives: a value and the number of bytes it took, or an error.
    spec fn decoding(buf: Seq<u8>) -> Result<(Value, int), RespError>;

    /// Decodes one frame from the start of `buf`: the frame and the number of bytes it took.
    fn decode(buf: &[u8]) -> (r: Result<(Self, usize), RespError>)
        ensures
            lift(r) == Self::decoding(buf@),
    ;
}

/// The line after the prefix byte at `pos`: where it ends and where the next one starts.
fn line_after_tag(buf: &[u8], pos: usize) -> (r: Result<(usize, usize), RespError>)
    requires
        pos < buf@.len(),
    ensures
        match r {
            Ok((e, n)) => {
                &&& pos + 1 <= e
                &&& n == e + 2
                &&& n <= buf@.len()
                &&& crate::model::parse_line(buf@, pos + 1) == Ok::<_, RespError>(
                    (buf@.subrange(pos + 1, e as int), n as int),
                )
            },
            Err(x) => crate::model::parse_line(buf@, pos + 1) == Err::<(Seq<u8>, int), _>(x),
        },
{
    let len = buf.len();
    read_line(buf, pos + 1)
}

/// Decoding of a frame that is one line after its prefix byte.
fn decode_line_frame(buf: &[u8], pos: usize) -> (r: Result<(Frame, usize), RespError>)
    requires
        pos < buf@.len(),
        crate::model::is_line_tag(buf@[pos as int]),
    ensures
        decoded_at(buf@, pos as int, lift(r)),
{
    let tag = buf[pos];
    let (e, next) = match line_after_tag(buf, pos) {
        Ok(p) => p,
        Err(x) => return Err(x),
    };
    let line = slice_subrange(buf, pos + 1, e);
    let ghost l = buf@.subrange(pos + 1, e as int);
    assert(line@ == l);
    let v: Result<Frame, RespError> = if tag == TAG_SIMPLE_STRING || tag == TAG_SIMPLE_ERROR {
        match text_from_utf8(line) {
            Some(t) => if tag == TAG_SIMPLE_STRING {
                Ok(Frame::SimpleString(SimpleString { inner: t }))
            } else {
                Ok(Frame::SimpleError(SimpleError { inner: t }))
            },
            None => Err(RespError::Utf8Error),
        }
    } else if tag == TAG_INTEGER {
        match parse_decimal(line) {
            Some(i) => Ok(Frame::Integer(Integer { inner: i })),
            None => Err(RespError::ParseIntError),
        }
    } else if tag == TAG_NULL {
        if line.len() == 0 {
            Ok(Frame::Null(Null))
        } else {
            Err(RespError::InvalidType)
        }
    } else if tag == TAG_BOOLEAN {
        if line.len() == 1 && line[0] == LOWER_T {
            assert(l =~= seq![LOWER_T]);
            Ok(Frame::Boolean(Boolean { inner: true }))
        } else if line.len() == 1 && line[0] == LOWER_F {
            assert(l =~= seq![LOWER_F]);
            Ok(Frame::Boolean(Boolean { inner: false }))
        } else {
            assert(l != seq![LOWER_T]);
            assert(l != seq![LOWER_F]);
            Err(RespError::InvalidType)
        }
    } else if tag == TAG_DOUBLE {
        let t = if check_double_text(line) {
            text_from_utf8(line)
        } else {
            None
        };
        match t {
            Some(t) => Ok(Frame::Double(Double { inner: t })),
            None => Err(RespError::ParseFloatError),
        }
    } else {
        let t = if check_big_number_text(line) {
            text_from_utf8(line)
        } else {
            None
        };
        match t {
            Some(t) => Ok(Frame::BigNumber(BigNumber { inner: t })),
            None => Err(RespError::InvalidType),
        }
    };
    assert(v matches Ok(f) ==> line_value(tag, l) == Ok::<_, RespError>(f@));
    assert(v matches Err(x) ==> line_value(tag, l) == Err::<Value, _>(x));
    match v {
        Ok(f) => Ok((f, next)),
        Err(x) => Err(x),
    }
}

/// Decoding of a bulk string or bulk error at `pos`.
fn decode_sized_frame(buf: &[u8], pos: usize) -> (r: Result<(Frame, usize), RespError>)
    requires
        pos < buf@.len(),
        buf@[pos as int] == TAG_BULK_STRING || buf@[pos as int] == TAG_BULK_ERROR,
    ensures
        decoded_at(buf@, pos as int, lift(r)),
{
    let tag = buf[pos];
    let (e, next) = match line_after_tag(buf, pos) {
        Ok(p) => p,
        Err(x) => return Err(x),
    };
    let n = match parse_decimal(slice_subrange(buf, pos + 1, e)) {
        Some(n) => n,
        None => return Err(RespError::ParseIntError),
    };
    proof {
        assert(sized_value(buf@, tag, n as int, next as int) == parse_frame(buf@, pos as int));
    }
    if n == -1 && tag == TAG_BULK_STRING {
        return Ok((Frame::BulkString(BulkString { inner: Vec::new(), null: true }), next));
    }
    if n < 0 {
        return Err(RespError::InvalidType);
    }
    let avail = buf.len() - next;
    if n as u64 + 2 > avail as u64 {
        return Err(RespError::Incomplete);
    }
    let end = next + n as usize;
    if buf[end] != CR || buf[end + 1] != LF {
        return Err(RespError::InvalidType);
    }
    let payload = slice_to_vec(slice_subrange(buf, next, end));
    if tag == TAG_BULK_STRING {
        Ok((Frame::BulkString(BulkString { inner: payload, null: false }), end + 2))
    } else {
        Ok((Frame::BulkError(BulkError { inner: payload }), end + 2))
    }
}

/// The element count after the prefix byte at `pos`, where the elements start, and the
/// outcome when there are no elements to read.
fn aggregate_header(buf: &[u8], pos: usize) -> (r: Result<(i64, usize), RespError>)
    requires
        pos < buf@.len(),
    ensures
        match r {
            Ok((n, e)) => {
                &&& pos < e <= buf@.len()
                &&& crate::model::parse_line(buf@, pos + 1) matches Ok((l, e2)) && e2 == e
                    && crate::model::parse_int(l) == Some(n as int)
            },
            Err(x) => {
                ||| crate::model::parse_line(buf@, pos + 1) == Err::<(Seq<u8>, int), _>(x)
                ||| (crate::model::parse_line(buf@, pos + 1) matches Ok((l, _))
                    && crate::model::parse_int(l) is None && x == RespError::ParseIntError)
            },
        },
{
    let (e, next) = match line_after_tag(buf, pos) {
        Ok(p) => p,
        Err(x) => return Err(x),
    };
    match parse_decimal(slice_subrange(buf, pos + 1, e)) {
        Some(n) => Ok((n, next)),
        None => Err(RespError::ParseIntError),
    }
}

impl RespSet {
    /// An empty set.
    pub fn new() -> (r: RespSet)
        ensures
            r@ == Value::RespSet(seq![]),
    {
        RespSet { inner: Vec::new() }
    }

    /// Adds `v` unless a member equal to it is present.
    pub fn insert(&mut self, v: Frame)
        ensures
            final(self)@ == Value::RespSet(set_insert(frames_values(old(self).inner@), v@)),
    {
        proof {
            lemma_frames_values(self.inner@);
            reveal(set_insert);
        }
        let ghost items = frames_values(self.inner@);
        let mut i: usize = 0;
        while i < self.inner.len()
            invariant
                items == frames_values(self.inner@),
                self.inner@ == old(self).inner@,
                items.len() == self.inner@.len(),
                forall|j: int|
                    0 <= j < self.inner@.len() ==> #[trigger] items[j] == frame_value(
                        self.inner@[j],
                    ),
                i <= self.inner@.len(),
                forall|j: int| 0 <= j < i ==> items[j] != v@,
            decreases self.inner.len() - i,
        {
            if self.inner[i].eq_frame(&v) {
                assert(items.contains(v@)) by {
                    assert(items[i as int] == v@);
                }
                proof {
                    reveal(set_insert);
                }
                return;
            }
            i = i + 1;
        }
        assert(!items.contains(v@));
        proof {
            reveal(set_insert);
        }
        let ghost old_inner = self.inner@;
        self.inner.push(v);
        assert(self.inner@.drop_last() =~= old_inner);
    }
}

impl RespMap {
    /// An empty map.
    pub fn new() -> (r: RespMap)
        ensures
            r@ == Value::RespMap(seq![]),
    {
        RespMap { inner: Vec::new() }
    }

    /// Sets the value of key `k` to `v`: in place when the key is present, else as a new last pair.
    pub fn insert(&mut self, k: Frame, v: Frame)
        ensures
            final(self)@ == Value::RespMap(map_insert(pairs_values(old(self).inner@), k@, v@)),
    {
        proof {
            lemma_pairs_values(self.inner@);
        }
        let ghost pairs = pairs_values(self.inner@);
        let mut i: usize = 0;
        while i < self.inner.len()
            invariant
                pairs == pairs_values(self.inner@),
                self.inner@ == old(self).inner@,
                pairs.len() == self.inner@.len(),
                forall|j: int|
                    0 <= j < self.inner@.len() ==> #[trigger] pairs[j] == (
                    frame_value(self.inner@[j].0),
                    frame_value(self.inner@[j].1),
                ),
                i <= self.inner@.len(),
                key_index(pairs, k@, 0) == key_index(pairs, k@, i as int),
            decreases self.inner.len() - i,
        {
            if self.inner[i].0.eq_frame(&k) {
                assert(pairs[i as int].0 == k@);
                assert(key_index(pairs, k@, i as int) == i);
                let ghost old_inner = self.inner@;
                let ghost kv = (k@, v@);
                self.inner.set(i, (k, v));
                proof {
                    lemma_pairs_values(self.inner@);
                    assert(pairs_values(self.inner@) =~= pairs.update(i as int, kv));
                }
                return;
            }
            i = i + 1;
        }
        let ghost old_inner = self.inner@;
        self.inner.push((k, v));
        assert(self.inner@.drop_last() =~= old_inner);
    }
}

impl Frame {
    /// Decodes the frame that starts at `pos`: the frame and the position after it.
    pub fn decode_at(buf: &[u8], pos: usize) -> (r: Result<(Frame, usize), RespError>)
        ensures
            decoded_at(buf@, pos as int, lift(r)),
        decreases buf@.len() - pos, 1nat,
    {
        if pos >= buf.len() {
            return Err(RespError::Incomplete);
        }
        let tag = buf[pos];
        if tag == TAG_SIMPLE_STRING || tag == TAG_SIMPLE_ERROR || tag == TAG_INTEGER || tag
            == TAG_NULL || tag == TAG_BOOLEAN || tag == TAG_DOUBLE || tag == TAG_BIG_NUMBER {
            decode_line_frame(buf, pos)
        } else if tag == TAG_BULK_STRING || tag == TAG_BULK_ERROR {
            decode_sized_frame(buf, pos)
        } else if tag == TAG_ARRAY {
            match Array::decode_at(buf, pos) {
                Ok((a, e)) => Ok((Frame::Array(a), e)),
                Err(x) => Err(x),
            }
        } else if tag == TAG_SET {
            match RespSet::decode_at(buf, pos) {
                Ok((a, e)) => Ok((Frame::RespSet(a), e)),
                Err(x) => Err(x),
            }
        } else if tag == TAG_MAP {
            match RespMap::decode_at(buf, pos) {
                Ok((a, e)) => Ok((Frame::RespMap(a), e)),
                Err(x) => Err(x),
            }
        } else {
            Err(RespError::InvalidType)
        }
    }
}

impl Array {
    fn decode_at(buf: &[u8], pos: usize) -> (r: Result<(Array, usize), RespError>)
        requires
            pos < buf@.len(),
            buf@[pos as int] == TAG_ARRAY,
        ensures
            decoded_at(buf@, pos as int, lift(r)),
        decreases buf@.len() - pos, 0nat,
    {
        let (n, e) = match aggregate_header(buf, pos) {
            Ok(h) => h,
            Err(x) => return Err(x),
        };
        if n == -1 {
            return Ok((Array { inner: Vec::new(), null: true }, e));
        }
        if n < 0 {
            return Err(RespError::InvalidType);
        }
        let mut items: Vec<Frame> = Vec::new();
        let mut p = e;
        let mut k: u64 = 0;
        while k < n as u64
            invariant
                pos < e <= p <= buf@.len(),
                0 <= n,
                k <= n,
                parse_frame(buf@, pos as int) == match parse_items(buf@, e as int, n as nat, seq![]) {
                    Ok((v, e2)) => Ok((Value::Array(Some(v)), e2)),
                    Err(x) => Err(x),
                },
                parse_items(buf@, e as int, n as nat, seq![]) == parse_items(
                    buf@,
                    p as int,
                    (n - k) as nat,
                    frames_values(items@),
                ),
            decreases n - k,
        {
            match Frame::decode_at(buf, p) {
                Ok((f, q)) => {
                    let ghost before = items@;
                    items.push(f);
                    assert(items@.drop_last() =~= before);
                    p = q;
                    k = k + 1;
                },
                Err(x) => {
                    assert(parse_items(buf@, p as int, (n - k) as nat, frames_values(items@))
                        == Err::<(Seq<Value>, int), RespError>(x));
                    return Err(x);
                },
            }
        }
        Ok((Array { inner: items, null: false }, p))
    }

}

impl RespSet {
    fn decode_at(buf: &[u8], pos: usize) -> (r: Result<(RespSet, usize), RespError>)
        requires
            pos < buf@.len(),
            buf@[pos as int] == TAG_SET,
        ensures
            decoded_at(buf@, pos as int, lift(r)),
        decreases buf@.len() - pos, 0nat,
    {
        let (n, e) = match aggregate_header(buf, pos) {
            Ok(h) => h,
            Err(x) => return Err(x),
        };
        if n < 0 {
            return Err(RespError::InvalidType);
        }
        let mut set = RespSet::new();
        let mut p = e;
        let mut k: u64 = 0;
        while k < n as u64
            invariant
                pos < e <= p <= buf@.len(),
                0 <= n,
                k <= n,
                parse_frame(buf@, pos as int) == match parse_members(buf@, e as int, n as nat, seq![]) {
                    Ok((v, e2)) => Ok((Value::RespSet(v), e2)),
                    Err(x) => Err(x),
                },
                parse_members(buf@, e as int, n as nat, seq![]) == parse_members(
                    buf@,
                    p as int,
                    (n - k) as nat,
                    frames_values(set.inner@),
                ),
            decreases n - k,
        {
            match Frame::decode_at(buf, p) {
                Ok((f, q)) => {
                    set.insert(f);
                    p = q;
                    k = k + 1;
                },
                Err(x) => {
                    assert(parse_members(buf@, p as int, (n - k) as nat, frames_values(set.inner@))
                        == Err::<(Seq<Value>, int), RespError>(x));
                    return Err(x);
                },
            }
        }
        Ok((set, p))
    }

}

impl RespMap {
    fn decode_at(buf: &[u8], pos: usize) -> (r: Result<(RespMap, usize), RespError>)
        requires
            pos < buf@.len(),
            buf@[pos as int] == TAG_MAP,
        ensures
            decoded_at(buf@, pos as int, lift(r)),
        decreases buf@.len() - pos, 0nat,
    {
        let (n, e) = match aggregate_header(buf, pos) {
            Ok(h) => h,
            Err(x) => return Err(x),
        };
        if n < 0 {
            return Err(RespError::InvalidType);
        }
        let mut map = RespMap::new();
        let mut p = e;
        let mut k: u64 = 0;
        while k < n as u64
            invariant
                pos < e <= p <= buf@.len(),
                0 <= n,
                k <= n,
                parse_frame(buf@, pos as int) == match parse_pairs(buf@, e as int, n as nat, seq![]) {
                    Ok((v, e2)) => Ok((Value::RespMap(v), e2)),
                    Err(x) => Err(x),
                },
                parse_pairs(buf@, e as int, n as nat, seq![]) == parse_pairs(
                    buf@,
                    p as int,
                    (n - k) as nat,
                    pairs_values(map.inner@),
                ),
            decreases n - k,
        {
            let ghost acc = pairs_values(map.inner@);
            let (key, q1) = match Frame::decode_at(buf, p) {
                Ok(d) => d,
                Err(x) => {
                    assert(parse_pairs(buf@, p as int, (n - k) as nat, acc) == Err::<
                        (Seq<(Value, Value)>, int),
                        RespError,
                    >(x));
                    return Err(x);
                },
            };
            let (value, q2) = match Frame::decode_at(buf, q1) {
                Ok(d) => d,
                Err(x) => {
                    assert(parse_pairs(buf@, p as int, (n - k) as nat, acc) == Err::<
                        (Seq<(Value, Value)>, int),
                        RespError,
                    >(x));
                    return Err(x);
                },
            };
            map.insert(key, value);
            p = q2;
            k = k + 1;
        }
        Ok((map, p))
    }

}

impl RespDecode for Array {
    open spec fn decoding(buf: Seq<u8>) -> Result<(Value, int), RespError> {
        parse_tagged(buf, TAG_ARRAY)
    }

    fn decode(buf: &[u8]) -> (r: Result<(Array, usize), RespError>) {
        if buf.len() == 0 {
            return Err(RespError::Incomplete);
        }
        if buf[0] != TAG_ARRAY {
            return Err(RespError::InvalidType);
        }
        Array::decode_at(buf, 0)
    }
}

impl RespDecode for RespSet {
    open spec fn decoding(buf: Seq<u8>) -> Result<(Value, int), RespError> {
        parse_tagged(buf, TAG_SET)
    }

    fn decode(buf: &[u8]) -> (r: Result<(RespSet, usize), RespError>) {
        if buf.len() == 0 {
            return Err(RespError::Incomplete);
        }
        if buf[0] != TAG_SET {
            return Err(RespError::InvalidType);
        }
        RespSet::decode_at(buf, 0)
    }
}

impl RespDecode for RespMap {
    open spec fn decoding(buf: Seq<u8>) -> Result<(Value, int), RespError> {
        parse_tagged(buf, TAG_MAP)
    }

    fn decode(buf: &[u8]) -> (r: Result<(RespMap, usize), RespError>) {
        if buf.len() == 0 {
            return Err(RespError::Incomplete);
        }
        if buf[0] != TAG_MAP {
            return Err(RespError::InvalidType);
        }
        RespMap::decode_at(buf, 0)
    }
}

impl RespDecode for Frame {
    open spec fn decoding(buf: Seq<u8>) -> Result<(Value, int), RespError> {
        parse_frame(buf, 0)
    }

    fn decode(buf: &[u8]) -> (r: Result<(Frame, usize), RespError>) {
        Frame::decode_at(buf, 0)
    }
}


impl RespDecode for SimpleString {
    open spec fn decoding(buf: Seq<u8>) -> Result<(Value, int), RespError> {
        parse_tagged(buf, TAG_SIMPLE_STRING)
    }

    fn decode(buf: &[u8]) -> (r: Result<(SimpleString, usize), RespError>) {
        if buf.len() == 0 {
            return Err(RespError::Incomplete);
        }
        if buf[0] != TAG_SIMPLE_STRING {
            return Err(RespError::InvalidType);
        }
        match decode_line_frame(buf, 0) {
            Ok((Frame::SimpleString(x), n)) => Ok((x, n)),
            Ok(_) => {
                proof {
                    assert(false);
                }
                Err(RespError::InvalidType)
            },
            Err(x) => Err(x),
        }    }
}

impl RespDecode for SimpleError {
    open spec fn decoding(buf: Seq<u8>) -> Result<(Value, int), RespError> {
        parse_tagged(buf, TAG_SIMPLE_ERROR)
    }

    fn decode(buf: &[u8]) -> (r: Result<(SimpleError, usize), RespError>) {
        if buf.len() == 0 {
            return Err(RespError::Incomplete);
        }
        if buf[0] != TAG_SIMPLE_ERROR {
            return Err(RespError::InvalidType);
        }
        match decode_line_frame(buf, 0) {
            Ok((Frame::SimpleError(x), n)) => Ok((x, n)),
            Ok(_) => {
                proof {
                    assert(false);
                }
                Err(RespError::InvalidType)
            },
            Err(x) => Err(x),
        }    }
}

impl RespDecode for Integer {
    open spec fn decoding(buf: Seq<u8>) -> Result<(Value, int), RespError> {
        parse_tagged(buf, TAG_INTEGER)
    }

    fn decode(buf: &[u8]) -> (r: Result<(Integer, usize), RespError>) {
        if buf.len() == 0 {
            return Err(RespError::Incomplete);
        }
        if buf[0] != TAG_INTEGER {
            return Err(RespError::InvalidType);
        }
        match decode_line_frame(buf, 0) {
            Ok((Frame::Integer(x), n)) => Ok((x, n)),
            Ok(_) => {
                proof {
                    assert(false);
                }
                Err(RespError::InvalidType)
            },
            Err(x) => Err(x),
        }    }
}

impl RespDecode for Null {
    open spec fn decoding(buf: Seq<u8>) -> Result<(Value, int), RespError> {
        parse_tagged(buf, TAG_NULL)
    }

    fn decode(buf: &[u8]) -> (r: Result<(Null, usize), RespError>) {
        if buf.len() == 0 {
            return Err(RespError::Incomplete);
        }
        if buf[0] != TAG_NULL {
            return Err(RespError::InvalidType);
        }
        match decode_line_frame(buf, 0) {
            Ok((Frame::Null(x), n)) => Ok((x, n)),
            Ok(_) => {
                proof {
                    assert(false);
                }
                Err(RespError::InvalidType)
            },
            Err(x) => Err(x),
        }    }
}

impl RespDecode for Boolean {
    open spec fn decoding(buf: Seq<u8>) -> Result<(Value, int), RespError> {
        parse_tagged(buf, TAG_BOOLEAN)
    }

    fn decode(buf: &[u8]) -> (r: Result<(Boolean, usize), RespError>) {
        if buf.len() == 0 {
            return Err(RespError::Incomplete);
        }
        if buf[0] != TAG_BOOLEAN {
            return Err(RespError::InvalidType);
        }
        match decode_line_frame(buf, 0) {
            Ok((Frame::Boolean(x), n)) => Ok((x, n)),
            Ok(_) => {
                proof {
                    assert(false);
                }
                Err(RespError::InvalidType)
            },
            Err(x) => Err(x),
        }    }
}

impl RespDecode for Double {
    open spec fn decoding(buf: Seq<u8>) -> Result<(Value, int), RespError> {
        parse_tagged(buf, TAG_DOUBLE)
    }

    fn decode(buf: &[u8]) -> (r: Result<(Double, usize), RespError>) {
        if buf.len() == 0 {
            return Err(RespError::Incomplete);
        }
        if buf[0] != TAG_DOUBLE {
            return Err(RespError::InvalidType);
        }
        match decode_line_frame(buf, 0) {
            Ok((Frame::Double(x), n)) => Ok((x, n)),
            Ok(_) => {
                proof {
                    assert(false);
                }
                Err(RespError::InvalidType)
            },
            Err(x) => Err(x),
        }    }
}

impl RespDecode for BigNumber {
    open spec fn decoding(buf: Seq<u8>) -> Result<(Value, int), RespError> {
        parse_tagged(buf, TAG_BIG_NUMBER)
    }

    fn decode(buf: &[u8]) -> (r: Result<(BigNumber, usize), RespError>) {
        if buf.len() == 0 {
            return Err(RespError::Incomplete);
        }
        if buf[0] != TAG_BIG_NUMBER {
            return Err(RespError::InvalidType);
        }
        match decode_line_frame(buf, 0) {
            Ok((Frame::BigNumber(x), n)) => Ok((x, n)),
            Ok(_) => {
                proof {
                    assert(false);
                }
                Err(RespError::InvalidType)
            },
            Err(x) => Err(x),
        }    }
}

impl RespDecode for BulkString {
    open spec fn decoding(buf: Seq<u8>) -> Result<(Value, int), RespError> {
        parse_tagged(buf, TAG_BULK_STRING)
    }

    fn decode(buf: &[u8]) -> (r: Result<(BulkString, usize), RespError>) {
        if buf.len() == 0 {
            return Err(RespError::Incomplete);
        }
        if buf[0] != TAG_BULK_STRING {
            return Err(RespError::InvalidType);
        }
        match decode_sized_frame(buf, 0) {
            Ok((Frame::BulkString(x), n)) => Ok((x, n)),
            Ok(_) => {
                proof {
                    assert(false);
                }
                Err(RespError::InvalidType)
            },
            Err(x) => Err(x),
        }    }
}

impl RespDecode for BulkError {
    open spec fn decoding(buf: Seq<u8>) -> Result<(Value, int), RespError> {
        parse_tagged(buf, TAG_BULK_ERROR)
    }

    fn decode(buf: &[u8]) -> (r: Result<(BulkError, usize), RespError>) {
        if buf.len() == 0 {
            return Err(RespError::Incomplete);
        }
        if buf[0] != TAG_BULK_ERROR {
            return Err(RespError::InvalidType);
        }
        match decode_sized_frame(buf, 0) {
            Ok((Frame::BulkError(x), n)) => Ok((x, n)),
            Ok(_) => {
                proof {
                    assert(false);
                }
                Err(RespError::InvalidType)
            },
            Err(x) => Err(x),
        }    }
}

} // verus!
