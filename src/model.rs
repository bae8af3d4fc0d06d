//! The mathematical model of protocol values and of their wire format.
use vstd::prelude::*;
use vstd::utf8::*;

use crate::frame::RespError;

verus! {

pub const CR: u8 = 13;
pub const LF: u8 = 10;
pub const TAG_SIMPLE_STRING: u8 = 43;
pub const TAG_SIMPLE_ERROR: u8 = 45;
pub const TAG_INTEGER: u8 = 58;
pub const TAG_BULK_STRING: u8 = 36;
pub const TAG_ARRAY: u8 = 42;
pub const TAG_NULL: u8 = 95;
pub const TAG_BOOLEAN: u8 = 35;
pub const TAG_DOUBLE: u8 = 44;
pub const TAG_BIG_NUMBER: u8 = 40;
pub const TAG_BULK_ERROR: u8 = 33;
pub const TAG_MAP: u8 = 37;
pub const TAG_SET: u8 = 126;
pub const PLUS: u8 = 43;
pub const MINUS: u8 = 45;
pub const DOT: u8 = 46;
pub const LOWER_E: u8 = 101;
pub const UPPER_E: u8 = 69;
pub const LOWER_T: u8 = 116;
pub const LOWER_F: u8 = 102;
pub const ZERO: u8 = 48;
pub const NINE: u8 = 57;

/// A protocol value as a mathematical object.
pub enum Value {
    SimpleString(Seq<char>),
    SimpleError(Seq<char>),
    Integer(int),
    /// `None` is the null bulk string.
    BulkString(Option<Seq<u8>>),
    /// `None` is the null array.
    Array(Option<Seq<Value>>),
    Null,
    Boolean(bool),
    /// The decimal text of the number.
    Double(Seq<char>),
    /// The decimal text of the number.
    BigNumber(Seq<char>),
    BulkError(Seq<u8>),
    /// Key/value pairs in order; well-formed maps have distinct keys.
    RespMap(Seq<(Value, Value)>),
    /// Members in order; well-formed sets have distinct members.
    RespSet(Seq<Value>),
}

pub open spec fn crlf() -> Seq<u8> {
    seq![CR, LF]
}

pub open spec fn is_digit(b: u8) -> bool {
    48 <= b <= 57
}

pub open spec fn all_digits(s: Seq<u8>) -> bool {
    forall|i: int| 0 <= i < s.len() ==> is_digit(#[trigger] s[i])
}

/// Decimal digits of `n`, most significant first, without leading zeros.
pub open spec fn nat_digits(n: nat) -> Seq<u8>
    decreases n,
{
    if n < 10 {
        seq![(48 + n) as u8]
    } else {
        nat_digits(n / 10).push((48 + n % 10) as u8)
    }
}

/// Decimal text of `i`: a minus sign when negative, then its digits.
pub open spec fn int_text(i: int) -> Seq<u8> {
    if i < 0 {
        seq![MINUS] + nat_digits((-i) as nat)
    } else {
        nat_digits(i as nat)
    }
}

/// The number that a string of decimal digits denotes.
pub open spec fn digits_value(s: Seq<u8>) -> nat
    decreases s.len(),
{
    if s.len() == 0 {
        0
    } else {
        digits_value(s.drop_last()) * 10 + (s.last() - 48) as nat
    }
}

pub open spec fn in_i64(v: int) -> bool {
    i64::MIN <= v <= i64::MAX
}

pub open spec fn has_sign(s: Seq<u8>) -> bool {
    s.len() > 0 && (s[0] == MINUS || s[0] == PLUS)
}

pub open spec fn unsigned_part(s: Seq<u8>) -> Seq<u8> {
    if has_sign(s) {
        s.drop_first()
    } else {
        s
    }
}

/// The integer that a line spells: an optional sign and one or more decimal digits,
/// within the range of `i64`.
pub open spec fn parse_int(s: Seq<u8>) -> Option<int> {
    let d = unsigned_part(s);
    let v = if s.len() > 0 && s[0] == MINUS {
        -digits_value(d)
    } else {
        digits_value(d) as int
    };
    if d.len() > 0 && all_digits(d) && in_i64(v) {
        Some(v)
    } else {
        None
    }
}

/// Position of the first CR LF pair at or after `i`, or -1 when `s` holds none.
pub open spec fn line_end(s: Seq<u8>, i: int) -> int
    decreases s.len() - i,
{
    if i < 0 || i + 1 >= s.len() {
        -1
    } else if s[i] == CR && s[i + 1] == LF {
        i
    } else {
        line_end(s, i + 1)
    }
}

/// The line that starts at `i` and the position after its terminator.
pub open spec fn parse_line(s: Seq<u8>, i: int) -> Result<(Seq<u8>, int), RespError> {
    let e = line_end(s, i);
    if e < i || e + 2 > s.len() {
        Err(RespError::Incomplete)
    } else {
        Ok((s.subrange(i, e), e + 2))
    }
}

/// Text that may stand on one line: it holds no CR and no LF.
pub open spec fn line_safe(b: Seq<u8>) -> bool {
    forall|i: int| 0 <= i < b.len() ==> #[trigger] b[i] != CR && b[i] != LF
}

pub open spec fn sign_end(s: Seq<u8>, i: int) -> int {
    if 0 <= i < s.len() && (s[i] == PLUS || s[i] == MINUS) {
        i + 1
    } else {
        i
    }
}

/// End of the run of digits that starts at `i`.
pub open spec fn digits_end(s: Seq<u8>, i: int) -> int
    decreases s.len() - i,
{
    if 0 <= i < s.len() && is_digit(s[i]) {
        digits_end(s, i + 1)
    } else {
        i
    }
}

pub open spec fn is_exponent_mark(b: u8) -> bool {
    b == LOWER_E || b == UPPER_E
}

/// Decimal text of a double: an optional sign, digits, an optional fraction of one or
/// more digits, and an optional exponent with an optional sign and one or more digits.
pub open spec fn is_double_text(s: Seq<u8>) -> bool {
    let a = sign_end(s, 0);
    let b = digits_end(s, a);
    let has_frac = b < s.len() && s[b] == DOT;
    let c = if has_frac {
        digits_end(s, b + 1)
    } else {
        b
    };
    let has_exp = c < s.len() && is_exponent_mark(s[c]);
    let d = if has_exp {
        digits_end(s, sign_end(s, c + 1))
    } else {
        c
    };
    &&& b > a
    &&& has_frac ==> c > b + 1
    &&& has_exp ==> d > sign_end(s, c + 1)
    &&& d == s.len()
}

/// Text of a big number: an optional sign and one or more digits.
pub open spec fn is_big_number_text(s: Seq<u8>) -> bool {
    let a = sign_end(s, 0);
    s.len() > a && digits_end(s, a) == s.len()
}

/// Wire encoding of a value.
pub open spec fn encode_value(v: Value) -> Seq<u8>
    decreases v,
{
    match v {
        Value::SimpleString(t) => seq![TAG_SIMPLE_STRING] + encode_utf8(t) + crlf(),
        Value::SimpleError(t) => seq![TAG_SIMPLE_ERROR] + encode_utf8(t) + crlf(),
        Value::Integer(i) => seq![TAG_INTEGER] + int_text(i) + crlf(),
        Value::BulkString(None) => seq![TAG_BULK_STRING] + int_text(-1) + crlf(),
        Value::BulkString(Some(b)) => seq![TAG_BULK_STRING] + nat_digits(b.len()) + crlf() + b
            + crlf(),
        Value::Array(None) => seq![TAG_ARRAY] + int_text(-1) + crlf(),
        Value::Array(Some(items)) => seq![TAG_ARRAY] + nat_digits(items.len()) + crlf()
            + encode_seq(items),
        Value::Null => seq![TAG_NULL] + crlf(),
        Value::Boolean(b) => seq![TAG_BOOLEAN, if b { LOWER_T } else { LOWER_F }] + crlf(),
        Value::Double(t) => seq![TAG_DOUBLE] + encode_utf8(t) + crlf(),
        Value::BigNumber(t) => seq![TAG_BIG_NUMBER] + encode_utf8(t) + crlf(),
        Value::BulkError(b) => seq![TAG_BULK_ERROR] + nat_digits(b.len()) + crlf() + b + crlf(),
        Value::RespMap(pairs) => seq![TAG_MAP] + nat_digits(pairs.len()) + crlf() + encode_pairs(
            pairs,
        ),
        Value::RespSet(items) => seq![TAG_SET] + nat_digits(items.len()) + crlf() + encode_seq(items),
    }
}

/// Wire encoding of a sequence of values, one after the other.
pub open spec fn encode_seq(items: Seq<Value>) -> Seq<u8>
    decreases items,
{
    if items.len() == 0 {
        seq![]
    } else {
        encode_seq(items.drop_last()) + encode_value(items.last())
    }
}

/// Wire encoding of key/value pairs: each key, then its value.
pub open spec fn encode_pairs(pairs: Seq<(Value, Value)>) -> Seq<u8>
    decreases pairs,
{
    if pairs.len() == 0 {
        seq![]
    } else {
        encode_pairs(pairs.drop_last()) + encode_value(pairs.last().0) + encode_value(
            pairs.last().1,
        )
    }
}

/// Index of the first pair whose key is `k`, searching from `i`; -1 when there is none.
pub open spec fn key_index(pairs: Seq<(Value, Value)>, k: Value, i: int) -> int
    decreases pairs.len() - i,
{
    if i < 0 || i >= pairs.len() {
        -1
    } else if pairs[i].0 == k {
        i
    } else {
        key_index(pairs, k, i + 1)
    }
}

/// Map insertion: a present key gets the new value in its place, a new key goes last.
pub open spec fn map_insert(pairs: Seq<(Value, Value)>, k: Value, v: Value) -> Seq<(Value, Value)> {
    let i = key_index(pairs, k, 0);
    if i >= 0 {
        pairs.update(i, (k, v))
    } else {
        pairs.push((k, v))
    }
}

/// Set insertion: a member already present is not added again.
#[verifier::opaque]
pub open spec fn set_insert(items: Seq<Value>, v: Value) -> Seq<Value> {
    if items.contains(v) {
        items
    } else {
        items.push(v)
    }
}

pub open spec fn is_text_tag(tag: u8) -> bool {
    tag == TAG_SIMPLE_STRING || tag == TAG_SIMPLE_ERROR
}

pub open spec fn is_sized_tag(tag: u8) -> bool {
    tag == TAG_BULK_STRING || tag == TAG_BULK_ERROR
}

pub open spec fn is_aggregate_tag(tag: u8) -> bool {
    tag == TAG_ARRAY || tag == TAG_MAP || tag == TAG_SET
}

/// Decoding of a simple string or simple error from its line.
pub open spec fn text_value(tag: u8, l: Seq<u8>) -> Result<Value, RespError> {
    if !valid_utf8(l) {
        Err(RespError::Utf8Error)
    } else if tag == TAG_SIMPLE_STRING {
        Ok(Value::SimpleString(decode_utf8(l)))
    } else {
        Ok(Value::SimpleError(decode_utf8(l)))
    }
}

/// Decoding of a frame that is one line after its prefix byte.
pub open spec fn line_value(tag: u8, l: Seq<u8>) -> Result<Value, RespError> {
    if is_text_tag(tag) {
        text_value(tag, l)
    } else if tag == TAG_INTEGER {
        match parse_int(l) {
            Some(i) => Ok(Value::Integer(i)),
            None => Err(RespError::ParseIntError),
        }
    } else if tag == TAG_NULL {
        if l.len() == 0 {
            Ok(Value::Null)
        } else {
            Err(RespError::InvalidType)
        }
    } else if tag == TAG_BOOLEAN {
        if l == seq![LOWER_T] {
            Ok(Value::Boolean(true))
        } else if l == seq![LOWER_F] {
            Ok(Value::Boolean(false))
        } else {
            Err(RespError::InvalidType)
        }
    } else if tag == TAG_DOUBLE {
        if is_double_text(l) && valid_utf8(l) {
            Ok(Value::Double(decode_utf8(l)))
        } else {
            Err(RespError::ParseFloatError)
        }
    } else {
        if is_big_number_text(l) && valid_utf8(l) {
            Ok(Value::BigNumber(decode_utf8(l)))
        } else {
            Err(RespError::InvalidType)
        }
    }
}

pub open spec fn is_line_tag(tag: u8) -> bool {
    is_text_tag(tag) || tag == TAG_INTEGER || tag == TAG_NULL || tag == TAG_BOOLEAN || tag
        == TAG_DOUBLE || tag == TAG_BIG_NUMBER
}

/// Decoding of a bulk string or bulk error whose length field reads `n` and whose
/// payload starts at `e`.
pub open spec fn sized_value(s: Seq<u8>, tag: u8, n: int, e: int) -> Result<(Value, int), RespError> {
    if n == -1 && tag == TAG_BULK_STRING {
        Ok((Value::BulkString(None), e))
    } else if n < 0 {
        Err(RespError::InvalidType)
    } else if e + n + 2 > s.len() {
        Err(RespError::Incomplete)
    } else if s[e + n] != CR || s[e + n + 1] != LF {
        Err(RespError::InvalidType)
    } else if tag == TAG_BULK_STRING {
        Ok((Value::BulkString(Some(s.subrange(e, e + n))), e + n + 2))
    } else {
        Ok((Value::BulkError(s.subrange(e, e + n)), e + n + 2))
    }
}

/// Decoding of the frame that starts at `pos`: the value and the position after it.
pub open spec fn parse_frame(s: Seq<u8>, pos: int) -> Result<(Value, int), RespError>
    decreases s.len() - pos, 0nat, 0nat,
{
    if pos < 0 || pos >= s.len() {
        Err(RespError::Incomplete)
    } else {
        let tag = s[pos];
        if !is_line_tag(tag) && !is_sized_tag(tag) && !is_aggregate_tag(tag) {
            Err(RespError::InvalidType)
        } else {
            match parse_line(s, pos + 1) {
                Err(x) => Err(x),
                Ok((l, e)) => {
                    if is_line_tag(tag) {
                        match line_value(tag, l) {
                            Ok(v) => Ok((v, e)),
                            Err(x) => Err(x),
                        }
                    } else {
                        match parse_int(l) {
                            None => Err(RespError::ParseIntError),
                            Some(n) => {
                                if is_sized_tag(tag) {
                                    sized_value(s, tag, n, e)
                                } else if n == -1 && tag == TAG_ARRAY {
                                    Ok((Value::Array(None), e))
                                } else if n < 0 || e <= pos {
                                    Err(RespError::InvalidType)
                                } else if tag == TAG_ARRAY {
                                    match parse_items(s, e, n as nat, seq![]) {
                                        Ok((v, e2)) => Ok((Value::Array(Some(v)), e2)),
                                        Err(x) => Err(x),
                                    }
                                } else if tag == TAG_SET {
                                    match parse_members(s, e, n as nat, seq![]) {
                                        Ok((v, e2)) => Ok((Value::RespSet(v), e2)),
                                        Err(x) => Err(x),
                                    }
                                } else {
                                    match parse_pairs(s, e, n as nat, seq![]) {
                                        Ok((v, e2)) => Ok((Value::RespMap(v), e2)),
                                        Err(x) => Err(x),
                                    }
                                }
                            },
                        }
                    }
                },
            }
        }
    }
}

/// Decoding of `n` frames in a row from `pos`, appended to `acc`.
pub open spec fn parse_items(s: Seq<u8>, pos: int, n: nat, acc: Seq<Value>) -> Result<
    (Seq<Value>, int),
    RespError,
>
    decreases s.len() - pos, 1nat, n,
{
    if n == 0 {
        Ok((acc, pos))
    } else {
        match parse_frame(s, pos) {
            Err(x) => Err(x),
            Ok((v, e)) => {
                if pos < e <= s.len() {
                    parse_items(s, e, (n - 1) as nat, acc.push(v))
                } else {
                    Err(RespError::InvalidType)
                }
            },
        }
    }
}

/// Decoding of `n` set members in a row from `pos`, inserted into `acc`.
pub open spec fn parse_members(s: Seq<u8>, pos: int, n: nat, acc: Seq<Value>) -> Result<
    (Seq<Value>, int),
    RespError,
>
    decreases s.len() - pos, 1nat, n,
{
    if n == 0 {
        Ok((acc, pos))
    } else {
        match parse_frame(s, pos) {
            Err(x) => Err(x),
            Ok((v, e)) => {
                if pos < e <= s.len() {
                    parse_members(s, e, (n - 1) as nat, set_insert(acc, v))
                } else {
                    Err(RespError::InvalidType)
                }
            },
        }
    }
}

/// Decoding of `n` key/value pairs in a row from `pos`, inserted into `acc`.
pub open spec fn parse_pairs(
    s: Seq<u8>,
    pos: int,
    n: nat,
    acc: Seq<(Value, Value)>,
) -> Result<(Seq<(Value, Value)>, int), RespError>
    decreases s.len() - pos, 1nat, n,
{
    if n == 0 {
        Ok((acc, pos))
    } else {
        match parse_frame(s, pos) {
            Err(x) => Err(x),
            Ok((k, e1)) => {
                if pos < e1 <= s.len() {
                    match parse_frame(s, e1) {
                        Err(x) => Err(x),
                        Ok((v, e2)) => {
                            if e1 < e2 <= s.len() {
                                parse_pairs(s, e2, (n - 1) as nat, map_insert(acc, k, v))
                            } else {
                                Err(RespError::InvalidType)
                            }
                        },
                    }
                } else {
                    Err(RespError::InvalidType)
                }
            },
        }
    }
}

/// Members that are pairwise distinct.
#[verifier::opaque]
pub open spec fn distinct(items: Seq<Value>) -> bool {
    forall|i: int, j: int| 0 <= i < j < items.len() ==> items[i] != items[j]
}

/// Pairs whose keys are pairwise distinct.
pub open spec fn distinct_keys(pairs: Seq<(Value, Value)>) -> bool {
    forall|i: int, j: int| 0 <= i < j < pairs.len() ==> pairs[i].0 != pairs[j].0
}

/// Values that the wire format carries exactly: line text holds no CR or LF, number text
/// follows its grammar, lengths and counts fit in `i64`, and map keys and set members are
/// distinct.
pub open spec fn wf_value(v: Value) -> bool
    decreases v,
{
    match v {
        Value::SimpleString(t) => line_safe(encode_utf8(t)),
        Value::SimpleError(t) => line_safe(encode_utf8(t)),
        Value::Integer(i) => in_i64(i),
        Value::BulkString(Some(b)) => b.len() <= i64::MAX,
        Value::BulkString(None) => true,
        Value::Array(Some(items)) => items.len() <= i64::MAX && forall|i: int|
            0 <= i < items.len() ==> wf_value(#[trigger] items[i]),
        Value::Array(None) => true,
        Value::Null => true,
        Value::Boolean(_) => true,
        Value::Double(t) => is_double_text(encode_utf8(t)) && line_safe(encode_utf8(t)),
        Value::BigNumber(t) => is_big_number_text(encode_utf8(t)) && line_safe(encode_utf8(t)),
        Value::BulkError(b) => b.len() <= i64::MAX,
        Value::RespMap(pairs) => pairs.len() <= i64::MAX && distinct_keys(pairs) && forall|i: int|
            0 <= i < pairs.len() ==> wf_value(#[trigger] pairs[i].0) && wf_value(pairs[i].1),
        Value::RespSet(items) => items.len() <= i64::MAX && distinct(items) && forall|i: int|
            0 <= i < items.len() ==> wf_value(#[trigger] items[i]),
    }
}

/// Decoding of the complete frames of `s` from `pos` on, appended to `acc`: their values
/// and where the rest, a part of a frame, starts; or the first error other than
/// incompleteness.
pub open spec fn parse_stream(s: Seq<u8>, pos: int, acc: Seq<Value>) -> Result<
    (Seq<Value>, int),
    RespError,
>
    decreases s.len() - pos,
{
    match parse_frame(s, pos) {
        Ok((v, e)) => {
            if pos < e <= s.len() {
                parse_stream(s, e, acc.push(v))
            } else {
                Err(RespError::InvalidType)
            }
        },
        Err(RespError::Incomplete) => Ok((acc, pos)),
        Err(x) => Err(x),
    }
}

} // verus!
