//! What decoding does to encoded values.
use vstd::prelude::*;
use vstd::utf8::{encode_utf8, encode_utf8_decode_utf8, encode_utf8_valid_utf8};

use crate::frame::RespError;
use crate::model::{
    all_digits, crlf, digits_value, distinct, distinct_keys, encode_pairs, encode_seq,
    encode_value, has_sign, in_i64, int_text, is_digit, key_index, line_end, line_safe,
    line_value, map_insert, nat_digits, parse_frame, parse_int, parse_items, parse_line,
    parse_members, parse_pairs, set_insert, sized_value, unsigned_part, wf_value, Value, CR, LF,
    LOWER_F, LOWER_T, MINUS, TAG_ARRAY, TAG_BIG_NUMBER, TAG_BOOLEAN, TAG_BULK_ERROR,
    TAG_BULK_STRING, TAG_DOUBLE, TAG_INTEGER, TAG_MAP, TAG_NULL, TAG_SET, TAG_SIMPLE_ERROR,
    TAG_SIMPLE_STRING,
};

verus! {

proof fn lemma_nat_digits(n: nat)
    ensures
        nat_digits(n).len() > 0,
        all_digits(nat_digits(n)),
        digits_value(nat_digits(n)) == n,
    decreases n,
{
    if n >= 10 {
        lemma_nat_digits(n / 10);
        let d = nat_digits(n);
        assert(d.drop_last() =~= nat_digits(n / 10));
        assert(d.last() == (48 + n % 10) as u8);
        assert(digits_value(d) == digits_value(nat_digits(n / 10)) * 10 + n % 10);
        assert((n / 10) * 10 + n % 10 == n);
        assert(all_digits(d)) by {
            assert forall|i: int| 0 <= i < d.len() implies is_digit(#[trigger] d[i]) by {
                if i < d.len() - 1 {
                    assert(d[i] == nat_digits(n / 10)[i]);
                }
            }
        }
    } else {
        assert(nat_digits(n).drop_last() =~= seq![]);
        assert(nat_digits(n).last() == (48 + n) as u8);
        assert(((48 + n) as u8) as int == 48 + n);
        assert(digits_value(seq![]) == 0);
    }
}

/// Reading the decimal text of an integer gives the integer back.
proof fn lemma_parse_int_text(i: int)
    requires
        in_i64(i),
    ensures
        parse_int(int_text(i)) == Some(i),
{
    if i < 0 {
        let n = (-i) as nat;
        lemma_nat_digits(n);
        let s = int_text(i);
        assert(has_sign(s));
        assert(unsigned_part(s) =~= nat_digits(n));
    } else {
        lemma_nat_digits(i as nat);
        let s = int_text(i);
        assert(is_digit(s[0]));
        assert(!has_sign(s));
    }
}

/// `a + b` at `pos` in `s` is `a` at `pos` and `b` right after it.
proof fn lemma_split(s: Seq<u8>, pos: int, a: Seq<u8>, b: Seq<u8>)
    requires
        0 <= pos,
        pos + a.len() + b.len() <= s.len(),
        s.subrange(pos, pos + a.len() + b.len()) == a + b,
    ensures
        s.subrange(pos, pos + a.len()) == a,
        s.subrange(pos + a.len(), pos + a.len() + b.len()) == b,
{
    assert(s.subrange(pos, pos + a.len()) =~= (a + b).subrange(0, a.len() as int));
    assert(s.subrange(pos + a.len(), pos + a.len() + b.len()) =~= (a + b).subrange(
        a.len() as int,
        (a.len() + b.len()) as int,
    ));
}

proof fn lemma_line_end_from(s: Seq<u8>, i: int, t: Seq<u8>, k: int)
    requires
        0 <= i,
        0 <= k <= t.len(),
        i + t.len() + 2 <= s.len(),
        s.subrange(i, i + t.len() + 2) == t + crlf(),
        line_safe(t),
    ensures
        line_end(s, i + k) == i + t.len(),
    decreases t.len() - k,
{
    assert(s[i + t.len()] == (t + crlf())[t.len() as int]);
    assert(s[i + t.len() + 1] == (t + crlf())[t.len() + 1int]);
    if k < t.len() {
        assert(s[i + k] == (t + crlf())[k]);
        lemma_line_end_from(s, i, t, k + 1);
    }
}

/// A line of text without CR or LF, then CR LF, reads as that line.
proof fn lemma_parse_line(s: Seq<u8>, i: int, t: Seq<u8>)
    requires
        0 <= i,
        i + t.len() + 2 <= s.len(),
        s.subrange(i, i + t.len() + 2) == t + crlf(),
        line_safe(t),
    ensures
        parse_line(s, i) == Ok::<_, RespError>((t, i + t.len() + 2)),
{
    lemma_line_end_from(s, i, t, 0);
    assert(line_end(s, i) == i + t.len());
    assert forall|k: int| 0 <= k < t.len() implies #[trigger] s.subrange(i, i + t.len())[k]
        == t[k] by {
        assert(s.subrange(i, i + t.len())[k] == s[i + k]);
        assert(s[i + k] == s.subrange(i, i + t.len() + 2)[k]);
        assert((t + crlf())[k] == t[k]);
    }
    assert(s.subrange(i, i + t.len()) =~= t);
}

proof fn lemma_digits_line_safe(n: nat)
    ensures
        line_safe(nat_digits(n)),
        line_safe(int_text(-1)),
{
    lemma_nat_digits(n);
    lemma_nat_digits(1);
    let t = int_text(-1);
    assert forall|i: int| 0 <= i < t.len() implies #[trigger] t[i] != CR && t[i] != LF by {
        if i > 0 {
            assert(t[i] == nat_digits(1)[i - 1]);
        }
    }
}

/// A frame that is one line after its prefix byte, encoded at `pos`, decodes to `v`.
proof fn lemma_line_frame(s: Seq<u8>, pos: int, tag: u8, t: Seq<u8>, v: Value)
    requires
        0 <= pos,
        pos + 1 + t.len() + 2 <= s.len(),
        s.subrange(pos, pos + 1 + t.len() + 2) == seq![tag] + t + crlf(),
        line_safe(t),
        crate::model::is_line_tag(tag),
        line_value(tag, t) == Ok::<_, RespError>(v),
    ensures
        parse_frame(s, pos) == Ok::<_, RespError>((v, pos + 1 + t.len() + 2)),
{
    assert(seq![tag] + t + crlf() =~= seq![tag] + (t + crlf()));
    lemma_split(s, pos, seq![tag], t + crlf());
    assert(s[pos] == s.subrange(pos, pos + 1)[0]);
    lemma_parse_line(s, pos + 1, t);
}

/// A length or count line after the prefix byte at `pos` reads as `n`.
proof fn lemma_count_line(s: Seq<u8>, pos: int, tag: u8, n: nat, rest: Seq<u8>)
    requires
        0 <= pos,
        n <= i64::MAX,
        pos + 1 + nat_digits(n).len() + 2 + rest.len() <= s.len(),
        s.subrange(pos, pos + 1 + nat_digits(n).len() + 2 + rest.len()) == seq![tag]
            + nat_digits(n) + crlf() + rest,
    ensures
        s[pos] == tag,
        parse_line(s, pos + 1) == Ok::<_, RespError>(
            (nat_digits(n), pos + 1 + nat_digits(n).len() + 2),
        ),
        parse_int(nat_digits(n)) == Some(n as int),
        s.subrange(
            pos + 1 + nat_digits(n).len() + 2,
            pos + 1 + nat_digits(n).len() + 2 + rest.len(),
        ) == rest,
{
    let d = nat_digits(n);
    lemma_digits_line_safe(n);
    lemma_parse_int_text(n as int);
    assert(seq![tag] + d + crlf() + rest =~= seq![tag] + ((d + crlf()) + rest));
    lemma_split(s, pos, seq![tag], (d + crlf()) + rest);
    assert(s[pos] == s.subrange(pos, pos + 1)[0]);
    lemma_split(s, pos + 1, d + crlf(), rest);
    lemma_parse_line(s, pos + 1, d);
}

proof fn lemma_encode_nonempty(v: Value)
    ensures
        encode_value(v).len() > 0,
{
}

proof fn lemma_encode_seq_step(items: Seq<Value>, j: int)
    requires
        0 <= j < items.len(),
    ensures
        encode_seq(items.take(j + 1)) == encode_seq(items.take(j)) + encode_value(items[j]),
{
    assert(items.take(j + 1).drop_last() =~= items.take(j));
}

proof fn lemma_encode_seq_prefix(items: Seq<Value>, j: int)
    requires
        0 <= j <= items.len(),
    ensures
        encode_seq(items.take(j)).len() <= encode_seq(items).len(),
        encode_seq(items).subrange(0, encode_seq(items.take(j)).len() as int) == encode_seq(
            items.take(j),
        ),
    decreases items.len(),
{
    if j == items.len() {
        assert(items.take(j) =~= items);
        assert(encode_seq(items).subrange(0, encode_seq(items).len() as int) =~= encode_seq(items));
    } else {
        let d = items.drop_last();
        lemma_encode_seq_prefix(d, j);
        assert(d.take(j) =~= items.take(j));
        let p = encode_seq(items.take(j));
        assert(encode_seq(items).subrange(0, p.len() as int) =~= encode_seq(d).subrange(
            0,
            p.len() as int,
        ));
    }
}

/// Where item `j` of `items` starts in their encoding, and that it is encoded there.
proof fn lemma_item_at(items: Seq<Value>, s: Seq<u8>, start: int, j: int)
    requires
        0 <= start,
        0 <= j < items.len(),
        start + encode_seq(items).len() <= s.len(),
        s.subrange(start, start + encode_seq(items).len()) == encode_seq(items),
    ensures
        start + encode_seq(items.take(j)).len() < start + encode_seq(items.take(j + 1)).len()
            <= start + encode_seq(items).len(),
        s.subrange(
            start + encode_seq(items.take(j)).len(),
            start + encode_seq(items.take(j + 1)).len(),
        ) == encode_value(items[j]),
{
    lemma_encode_seq_step(items, j);
    lemma_encode_seq_prefix(items, j + 1);
    lemma_encode_nonempty(items[j]);
    let p = encode_seq(items.take(j));
    let q = encode_seq(items.take(j + 1));
    assert(s.subrange(start, start + q.len()) =~= encode_seq(items).subrange(0, q.len() as int));
    lemma_split(s, start, p, encode_value(items[j]));
}

proof fn lemma_parse_items_from(items: Seq<Value>, s: Seq<u8>, start: int, k: int)
    requires
        0 <= start,
        0 <= k <= items.len(),
        start + encode_seq(items).len() <= s.len(),
        s.subrange(start, start + encode_seq(items).len()) == encode_seq(items),
        forall|j: int|
            0 <= j < items.len() ==> parse_frame(s, start + encode_seq(#[trigger] items.take(j)).len())
                == Ok::<_, RespError>((items[j], start + encode_seq(items.take(j + 1)).len())),
    ensures
        parse_items(
            s,
            start + encode_seq(items.take(k)).len(),
            (items.len() - k) as nat,
            items.take(k),
        ) == Ok::<_, RespError>((items, start + encode_seq(items).len())),
    decreases items.len() - k,
{
    if k == items.len() {
        assert(items.take(k) =~= items);
    } else {
        lemma_item_at(items, s, start, k);
        assert(items.take(k).push(items[k]) =~= items.take(k + 1));
        lemma_parse_items_from(items, s, start, k + 1);
    }
}

proof fn lemma_parse_members_from(items: Seq<Value>, s: Seq<u8>, start: int, k: int)
    requires
        0 <= start,
        0 <= k <= items.len(),
        distinct(items),
        start + encode_seq(items).len() <= s.len(),
        s.subrange(start, start + encode_seq(items).len()) == encode_seq(items),
        forall|j: int|
            0 <= j < items.len() ==> parse_frame(s, start + encode_seq(#[trigger] items.take(j)).len())
                == Ok::<_, RespError>((items[j], start + encode_seq(items.take(j + 1)).len())),
    ensures
        parse_members(
            s,
            start + encode_seq(items.take(k)).len(),
            (items.len() - k) as nat,
            items.take(k),
        ) == Ok::<_, RespError>((items, start + encode_seq(items).len())),
    decreases items.len() - k,
{
    reveal(distinct);
    reveal(set_insert);
    if k == items.len() {
        assert(items.take(k) =~= items);
    } else {
        lemma_item_at(items, s, start, k);
        assert forall|i: int| 0 <= i < k implies #[trigger] items.take(k)[i] != items[k] by {
            assert(items.take(k)[i] == items[i]);
        }
        assert(!items.take(k).contains(items[k]));
        assert(set_insert(items.take(k), items[k]) =~= items.take(k + 1));
        lemma_parse_members_from(items, s, start, k + 1);
    }
}

proof fn lemma_encode_pairs_step(pairs: Seq<(Value, Value)>, j: int)
    requires
        0 <= j < pairs.len(),
    ensures
        encode_pairs(pairs.take(j + 1)) == encode_pairs(pairs.take(j)) + encode_value(pairs[j].0)
            + encode_value(pairs[j].1),
{
    assert(pairs.take(j + 1).drop_last() =~= pairs.take(j));
}

proof fn lemma_encode_pairs_prefix(pairs: Seq<(Value, Value)>, j: int)
    requires
        0 <= j <= pairs.len(),
    ensures
        encode_pairs(pairs.take(j)).len() <= encode_pairs(pairs).len(),
        encode_pairs(pairs).subrange(0, encode_pairs(pairs.take(j)).len() as int) == encode_pairs(
            pairs.take(j),
        ),
    decreases pairs.len(),
{
    if j == pairs.len() {
        assert(pairs.take(j) =~= pairs);
        assert(encode_pairs(pairs).subrange(0, encode_pairs(pairs).len() as int) =~= encode_pairs(
            pairs,
        ));
    } else {
        let d = pairs.drop_last();
        lemma_encode_pairs_prefix(d, j);
        assert(d.take(j) =~= pairs.take(j));
        let p = encode_pairs(pairs.take(j));
        assert(encode_pairs(pairs).subrange(0, p.len() as int) =~= encode_pairs(d).subrange(
            0,
            p.len() as int,
        ));
    }
}

/// Where pair `j` starts in the encoding of `pairs`, and that its key and value are
/// encoded there one after the other.
proof fn lemma_pair_at(pairs: Seq<(Value, Value)>, s: Seq<u8>, start: int, j: int)
    requires
        0 <= start,
        0 <= j < pairs.len(),
        start + encode_pairs(pairs).len() <= s.len(),
        s.subrange(start, start + encode_pairs(pairs).len()) == encode_pairs(pairs),
    ensures
        ({
            let a = start + encode_pairs(pairs.take(j)).len();
            let b = a + encode_value(pairs[j].0).len();
            let c = start + encode_pairs(pairs.take(j + 1)).len();
            &&& a < b < c <= start + encode_pairs(pairs).len()
            &&& c == b + encode_value(pairs[j].1).len()
            &&& s.subrange(a, b) == encode_value(pairs[j].0)
            &&& s.subrange(b, c) == encode_value(pairs[j].1)
        }),
{
    lemma_encode_pairs_step(pairs, j);
    lemma_encode_pairs_prefix(pairs, j + 1);
    lemma_encode_nonempty(pairs[j].0);
    lemma_encode_nonempty(pairs[j].1);
    let p = encode_pairs(pairs.take(j));
    let q = encode_pairs(pairs.take(j + 1));
    let ek = encode_value(pairs[j].0);
    let ev = encode_value(pairs[j].1);
    assert(s.subrange(start, start + q.len()) =~= encode_pairs(pairs).subrange(0, q.len() as int));
    assert(p + ek + ev =~= p + (ek + ev));
    lemma_split(s, start, p, ek + ev);
    lemma_split(s, start + p.len(), ek, ev);
}

proof fn lemma_key_index_absent(pairs: Seq<(Value, Value)>, k: Value, i: int)
    requires
        0 <= i,
        forall|j: int| i <= j < pairs.len() ==> pairs[j].0 != k,
    ensures
        key_index(pairs, k, i) == -1,
    decreases pairs.len() - i,
{
    if i < pairs.len() {
        lemma_key_index_absent(pairs, k, i + 1);
    }
}

proof fn lemma_parse_pairs_from(pairs: Seq<(Value, Value)>, s: Seq<u8>, start: int, k: int)
    requires
        0 <= start,
        0 <= k <= pairs.len(),
        distinct_keys(pairs),
        start + encode_pairs(pairs).len() <= s.len(),
        s.subrange(start, start + encode_pairs(pairs).len()) == encode_pairs(pairs),
        forall|j: int|
            0 <= j < pairs.len() ==> {
                let a = start + encode_pairs(#[trigger] pairs.take(j)).len();
                let b = a + encode_value(pairs[j].0).len();
                &&& parse_frame(s, a) == Ok::<_, RespError>((pairs[j].0, b))
                &&& parse_frame(s, b) == Ok::<_, RespError>(
                    (pairs[j].1, b + encode_value(pairs[j].1).len()),
                )
            },
    ensures
        parse_pairs(
            s,
            start + encode_pairs(pairs.take(k)).len(),
            (pairs.len() - k) as nat,
            pairs.take(k),
        ) == Ok::<_, RespError>((pairs, start + encode_pairs(pairs).len())),
    decreases pairs.len() - k,
{
    if k == pairs.len() {
        assert(pairs.take(k) =~= pairs);
    } else {
        lemma_pair_at(pairs, s, start, k);
        lemma_key_index_absent(pairs.take(k), pairs[k].0, 0);
        assert(map_insert(pairs.take(k), pairs[k].0, pairs[k].1) =~= pairs.take(k + 1));
        lemma_parse_pairs_from(pairs, s, start, k + 1);
    }
}

/// The encoding of a well-formed value, found at `pos` in `s`, decodes to that value and
/// ends where the encoding ends, whatever follows it.
pub proof fn lemma_decode_encoded(v: Value, s: Seq<u8>, pos: int)
    requires
        wf_value(v),
        0 <= pos,
        pos + encode_value(v).len() <= s.len(),
        s.subrange(pos, pos + encode_value(v).len()) == encode_value(v),
    ensures
        parse_frame(s, pos) == Ok::<_, RespError>((v, pos + encode_value(v).len())),
    decreases v, 0nat,
{
    match v {
        Value::SimpleString(t) => {
            encode_utf8_valid_utf8(t);
            encode_utf8_decode_utf8(t);
            lemma_line_frame(s, pos, TAG_SIMPLE_STRING, encode_utf8(t), v);
        },
        Value::SimpleError(t) => {
            encode_utf8_valid_utf8(t);
            encode_utf8_decode_utf8(t);
            lemma_line_frame(s, pos, TAG_SIMPLE_ERROR, encode_utf8(t), v);
        },
        Value::Integer(i) => {
            lemma_parse_int_text(i);
            lemma_digits_line_safe(0);
            if i >= 0 {
                lemma_digits_line_safe(i as nat);
            } else {
                lemma_digits_line_safe((-i) as nat);
                let t = int_text(i);
                assert forall|k: int| 0 <= k < t.len() implies #[trigger] t[k] != CR && t[k]
                    != LF by {
                    if k > 0 {
                        assert(t[k] == nat_digits((-i) as nat)[k - 1]);
                    }
                }
            }
            lemma_line_frame(s, pos, TAG_INTEGER, int_text(i), v);
        },
        Value::Null => {
            assert(seq![TAG_NULL] + crlf() =~= seq![TAG_NULL] + Seq::<u8>::empty() + crlf());
            lemma_line_frame(s, pos, TAG_NULL, Seq::<u8>::empty(), v);
        },
        Value::Boolean(b) => {
            let t = seq![if b { LOWER_T } else { LOWER_F }];
            assert(seq![TAG_BOOLEAN, if b { LOWER_T } else { LOWER_F }] + crlf() =~= seq![TAG_BOOLEAN]
                + t + crlf());
            lemma_line_frame(s, pos, TAG_BOOLEAN, t, v);
        },
        Value::Double(t) => {
            encode_utf8_valid_utf8(t);
            encode_utf8_decode_utf8(t);
            lemma_line_frame(s, pos, TAG_DOUBLE, encode_utf8(t), v);
        },
        Value::BigNumber(t) => {
            encode_utf8_valid_utf8(t);
            encode_utf8_decode_utf8(t);
            lemma_line_frame(s, pos, TAG_BIG_NUMBER, encode_utf8(t), v);
        },
        Value::BulkString(None) => {
            lemma_parse_int_text(-1);
            lemma_digits_line_safe(0);
            lemma_line_frame_header(s, pos, TAG_BULK_STRING, int_text(-1));
        },
        Value::BulkString(Some(b)) => {
            lemma_sized(s, pos, TAG_BULK_STRING, b);
        },
        Value::BulkError(b) => {
            lemma_sized(s, pos, TAG_BULK_ERROR, b);
        },
        Value::Array(None) => {
            lemma_parse_int_text(-1);
            lemma_digits_line_safe(0);
            lemma_line_frame_header(s, pos, TAG_ARRAY, int_text(-1));
        },
        Value::Array(Some(items)) => lemma_array_encoded(items, s, pos),
        Value::RespSet(items) => lemma_set_encoded(items, s, pos),
        Value::RespMap(pairs) => lemma_map_encoded(pairs, s, pos),
    }
}

/// Each item of `items`, encoded one after the other from `start`, decodes to itself.
proof fn lemma_items_parse_each(items: Seq<Value>, s: Seq<u8>, start: int)
    requires
        0 <= start,
        start + encode_seq(items).len() <= s.len(),
        s.subrange(start, start + encode_seq(items).len()) == encode_seq(items),
        forall|i: int| 0 <= i < items.len() ==> wf_value(#[trigger] items[i]),
    ensures
        forall|j: int|
            0 <= j < items.len() ==> parse_frame(s, start + encode_seq(#[trigger] items.take(j)).len())
                == Ok::<_, RespError>((items[j], start + encode_seq(items.take(j + 1)).len())),
    decreases items, 0nat,
{
    assert forall|j: int| 0 <= j < items.len() implies parse_frame(
        s,
        start + encode_seq(#[trigger] items.take(j)).len(),
    ) == Ok::<_, RespError>((items[j], start + encode_seq(items.take(j + 1)).len())) by {
        lemma_item_at(items, s, start, j);
        lemma_encode_seq_step(items, j);
        lemma_decode_encoded(items[j], s, start + encode_seq(items.take(j)).len());
    }
}

proof fn lemma_array_encoded(items: Seq<Value>, s: Seq<u8>, pos: int)
    requires
        wf_value(Value::Array(Some(items))),
        0 <= pos,
        pos + encode_value(Value::Array(Some(items))).len() <= s.len(),
        s.subrange(pos, pos + encode_value(Value::Array(Some(items))).len()) == encode_value(
            Value::Array(Some(items)),
        ),
    ensures
        parse_frame(s, pos) == Ok::<_, RespError>(
            (
                Value::Array(Some(items)),
                pos + encode_value(Value::Array(Some(items))).len(),
            ),
        ),
    decreases items, 1nat,
{
    let n = items.len();
    let d = nat_digits(n);
    let start = pos + 1 + d.len() + 2;
    assert(items.len() <= i64::MAX && forall|i: int|
        0 <= i < items.len() ==> wf_value(#[trigger] items[i]));
    assert(encode_value(Value::Array(Some(items))) == seq![TAG_ARRAY] + d + crlf() + encode_seq(
        items,
    ));
    lemma_count_line(s, pos, TAG_ARRAY, n, encode_seq(items));
    assert(parse_items(s, start, n, seq![]) == Ok::<_, RespError>(
        (items, start + encode_seq(items).len()),
    )) by {
        lemma_items_parse_each(items, s, start);
        lemma_parse_items_from(items, s, start, 0);
        assert(items.take(0) =~= seq![]);
        assert(encode_seq(items.take(0)) =~= seq![]);
    }
}

proof fn lemma_set_encoded(items: Seq<Value>, s: Seq<u8>, pos: int)
    requires
        wf_value(Value::RespSet(items)),
        0 <= pos,
        pos + encode_value(Value::RespSet(items)).len() <= s.len(),
        s.subrange(pos, pos + encode_value(Value::RespSet(items)).len()) == encode_value(
            Value::RespSet(items),
        ),
    ensures
        parse_frame(s, pos) == Ok::<_, RespError>(
            (Value::RespSet(items), pos + encode_value(Value::RespSet(items)).len()),
        ),
    decreases items, 1nat,
{
    let n = items.len();
    let d = nat_digits(n);
    let start = pos + 1 + d.len() + 2;
    assert(items.len() <= i64::MAX && distinct(items) && forall|i: int|
        0 <= i < items.len() ==> wf_value(#[trigger] items[i]));
    assert(encode_value(Value::RespSet(items)) == seq![TAG_SET] + d + crlf() + encode_seq(items));
    lemma_count_line(s, pos, TAG_SET, n, encode_seq(items));
    assert(parse_members(s, start, n, seq![]) == Ok::<_, RespError>(
        (items, start + encode_seq(items).len()),
    )) by {
        lemma_items_parse_each(items, s, start);
        lemma_parse_members_from(items, s, start, 0);
        assert(items.take(0) =~= seq![]);
        assert(encode_seq(items.take(0)) =~= seq![]);
    }
}

proof fn lemma_map_encoded(pairs: Seq<(Value, Value)>, s: Seq<u8>, pos: int)
    requires
        wf_value(Value::RespMap(pairs)),
        0 <= pos,
        pos + encode_value(Value::RespMap(pairs)).len() <= s.len(),
        s.subrange(pos, pos + encode_value(Value::RespMap(pairs)).len()) == encode_value(
            Value::RespMap(pairs),
        ),
    ensures
        parse_frame(s, pos) == Ok::<_, RespError>(
            (Value::RespMap(pairs), pos + encode_value(Value::RespMap(pairs)).len()),
        ),
    decreases pairs, 1nat,
{
    let n = pairs.len();
    let d = nat_digits(n);
    lemma_count_line(s, pos, TAG_MAP, n, encode_pairs(pairs));
    let start = pos + 1 + d.len() + 2;
    assert forall|j: int| 0 <= j < pairs.len() implies {
        let a = start + encode_pairs(#[trigger] pairs.take(j)).len();
        let b = a + encode_value(pairs[j].0).len();
        &&& parse_frame(s, a) == Ok::<_, RespError>((pairs[j].0, b))
        &&& parse_frame(s, b) == Ok::<_, RespError>(
            (pairs[j].1, b + encode_value(pairs[j].1).len()),
        )
    } by {
        lemma_pair_at(pairs, s, start, j);
        let a = start + encode_pairs(pairs.take(j)).len();
        let b = a + encode_value(pairs[j].0).len();
        lemma_decode_encoded(pairs[j].0, s, a);
        lemma_decode_encoded(pairs[j].1, s, b);
    }
    lemma_parse_pairs_from(pairs, s, start, 0);
    assert(pairs.take(0) =~= seq![]);
    assert(encode_pairs(pairs.take(0)) =~= seq![]);
}

/// A null bulk string or null array: the prefix byte, then `-1` on its line.
proof fn lemma_line_frame_header(s: Seq<u8>, pos: int, tag: u8, t: Seq<u8>)
    requires
        tag == TAG_BULK_STRING || tag == TAG_ARRAY,
        t == int_text(-1),
        parse_int(t) == Some(-1int),
        line_safe(t),
        0 <= pos,
        pos + 1 + t.len() + 2 <= s.len(),
        s.subrange(pos, pos + 1 + t.len() + 2) == seq![tag] + t + crlf(),
    ensures
        parse_frame(s, pos) == Ok::<_, RespError>(
            (
                if tag == TAG_ARRAY {
                    Value::Array(None)
                } else {
                    Value::BulkString(None)
                },
                pos + 1 + t.len() + 2,
            ),
        ),
{
    assert(seq![tag] + t + crlf() =~= seq![tag] + (t + crlf()));
    lemma_split(s, pos, seq![tag], t + crlf());
    assert(s[pos] == s.subrange(pos, pos + 1)[0]);
    lemma_parse_line(s, pos + 1, t);
}

/// A bulk string or bulk error with payload `b`, encoded at `pos`, decodes to itself.
proof fn lemma_sized(s: Seq<u8>, pos: int, tag: u8, b: Seq<u8>)
    requires
        tag == TAG_BULK_STRING || tag == TAG_BULK_ERROR,
        b.len() <= i64::MAX,
        0 <= pos,
        pos + (seq![tag] + nat_digits(b.len()) + crlf() + b + crlf()).len() <= s.len(),
        s.subrange(pos, pos + (seq![tag] + nat_digits(b.len()) + crlf() + b + crlf()).len()) == seq![tag]
            + nat_digits(b.len()) + crlf() + b + crlf(),
    ensures
        parse_frame(s, pos) == Ok::<_, RespError>(
            (
                if tag == TAG_BULK_STRING {
                    Value::BulkString(Some(b))
                } else {
                    Value::BulkError(b)
                },
                pos + (seq![tag] + nat_digits(b.len()) + crlf() + b + crlf()).len(),
            ),
        ),
{
    let d = nat_digits(b.len());
    let rest = b + crlf();
    assert(seq![tag] + d + crlf() + b + crlf() =~= seq![tag] + d + crlf() + rest);
    lemma_count_line(s, pos, tag, b.len(), rest);
    let e = pos + 1 + d.len() + 2;
    lemma_split(s, e, b, crlf());
    assert(s[e + b.len()] == s.subrange(e + b.len(), e + b.len() + 2)[0]);
    assert(s[e + b.len() + 1] == s.subrange(e + b.len(), e + b.len() + 2)[1]);
    assert(sized_value(s, tag, b.len() as int, e) == Ok::<_, RespError>(
        (
            if tag == TAG_BULK_STRING {
                Value::BulkString(Some(b))
            } else {
                Value::BulkError(b)
            },
            e + b.len() + 2,
        ),
    ));
}

/// Decoding the encoding of a well-formed value gives the value back and takes every byte
/// of the encoding. A null bulk string or array and an empty one are different values
/// with different encodings.
pub proof fn lemma_round_trip(v: Value)
    requires
        wf_value(v),
    ensures
        parse_frame(encode_value(v), 0) == Ok::<_, RespError>((v, encode_value(v).len() as int)),
        encode_value(Value::BulkString(None)) != encode_value(Value::BulkString(Some(seq![]))),
        encode_value(Value::Array(None)) != encode_value(Value::Array(Some(seq![]))),
{
    let e = encode_value(v);
    assert(e.subrange(0, e.len() as int) =~= e);
    lemma_decode_encoded(v, e, 0);
    lemma_nat_digits(0);
    assert(encode_value(Value::BulkString(None))[1] == MINUS);
    assert(encode_value(Value::BulkString(Some(seq![])))[1] == nat_digits(0)[0]);
    assert(encode_value(Value::Array(None))[1] == MINUS);
    assert(encode_value(Value::Array(Some(seq![])))[1] == nat_digits(0)[0]);
}


/// `s` from `pos` to its end is a strict prefix of `enc`.
pub open spec fn cut_at(s: Seq<u8>, pos: int, enc: Seq<u8>) -> bool {
    &&& 0 <= pos <= s.len()
    &&& s.len() < pos + enc.len()
    &&& s.subrange(pos, s.len() as int) == enc.take(s.len() - pos)
}

proof fn lemma_line_end_cut(s: Seq<u8>, i: int, t: Seq<u8>, j: int)
    requires
        0 <= i <= j,
        cut_at(s, i, t + crlf()),
        line_safe(t),
    ensures
        line_end(s, j) == -1,
    decreases s.len() - j,
{
    if j + 1 < s.len() {
        assert(s[j] == s.subrange(i, s.len() as int)[j - i]);
        assert((t + crlf()).take(s.len() - i)[j - i] == (t + crlf())[j - i]);
        if j - i < t.len() {
            assert((t + crlf())[j - i] == t[j - i]);
        }
        lemma_line_end_cut(s, i, t, j + 1);
    }
}

/// A line cut before its terminator is complete reads as incomplete.
proof fn lemma_parse_line_cut(s: Seq<u8>, i: int, t: Seq<u8>)
    requires
        cut_at(s, i, t + crlf()),
        line_safe(t),
    ensures
        parse_line(s, i) == Err::<(Seq<u8>, int), _>(RespError::Incomplete),
{
    lemma_line_end_cut(s, i, t, i);
}

/// Bytes of `s` from `start` are a prefix of `body`: the window `a..b` of `body` that they
/// hold is in `s` at `start + a`.
proof fn lemma_window(s: Seq<u8>, start: int, body: Seq<u8>, a: int, b: int)
    requires
        0 <= start <= s.len(),
        s.len() - start <= body.len(),
        s.subrange(start, s.len() as int) == body.take(s.len() - start),
        0 <= a <= b <= s.len() - start,
    ensures
        s.subrange(start + a, start + b) == body.subrange(a, b),
{
    assert forall|k: int| 0 <= k < b - a implies #[trigger] s.subrange(start + a, start + b)[k]
        == body.subrange(a, b)[k] by {
        assert(s[start + a + k] == s.subrange(start, s.len() as int)[a + k]);
    }
    assert(s.subrange(start + a, start + b) =~= body.subrange(a, b));
}

/// The tail of `s` from `start + a` is a prefix of the window `a..b` of `body`.
proof fn lemma_window_cut(s: Seq<u8>, start: int, body: Seq<u8>, a: int, b: int)
    requires
        0 <= start <= s.len(),
        s.subrange(start, s.len() as int) == body.take(s.len() - start),
        0 <= a <= s.len() - start < b <= body.len(),
    ensures
        cut_at(s, start + a, body.subrange(a, b)),
{
    assert forall|k: int| 0 <= k < s.len() - start - a implies #[trigger] s.subrange(
        start + a,
        s.len() as int,
    )[k] == body.subrange(a, b).take(s.len() - start - a)[k] by {
        assert(s[start + a + k] == s.subrange(start, s.len() as int)[a + k]);
    }
    assert(s.subrange(start + a, s.len() as int) =~= body.subrange(a, b).take(
        s.len() - start - a,
    ));
}

/// The header of a bulk string, bulk error or aggregate: either it is cut, and decoding
/// says incomplete, or it is whole, and the rest of `s` is a strict prefix of the body.
proof fn lemma_header_cut(s: Seq<u8>, pos: int, tag: u8, h: Seq<u8>, body: Seq<u8>)
    requires
        cut_at(s, pos, seq![tag] + h + crlf() + body),
        line_safe(h),
        s.len() > pos,
    ensures
        s[pos] == tag,
        s.len() < pos + 1 + h.len() + 2 ==> parse_line(s, pos + 1) == Err::<(Seq<u8>, int), _>(
            RespError::Incomplete,
        ),
        s.len() >= pos + 1 + h.len() + 2 ==> {
            &&& parse_line(s, pos + 1) == Ok::<_, RespError>((h, pos + 1 + h.len() + 2))
            &&& s.subrange(pos + 1 + h.len() + 2, s.len() as int) == body.take(
                s.len() - (pos + 1 + h.len() + 2),
            )
        },
{
    let enc = seq![tag] + h + crlf() + body;
    let hl = h + crlf();
    assert(enc =~= seq![tag] + hl + body);
    assert(s[pos] == s.subrange(pos, s.len() as int)[0]);
    if s.len() < pos + 1 + h.len() + 2 {
        lemma_window_cut(s, pos, enc, 1, 1 + hl.len() as int);
        assert(enc.subrange(1, 1 + hl.len() as int) =~= hl);
        lemma_parse_line_cut(s, pos + 1, h);
    } else {
        let e = pos + 1 + hl.len();
        lemma_window(s, pos, enc, 1, 1 + hl.len() as int);
        assert(enc.subrange(1, 1 + hl.len() as int) =~= hl);
        assert(s.subrange(pos + 1, pos + 1 + h.len() + 2) == h + crlf());
        lemma_parse_line(s, pos + 1, h);
        assert forall|k: int| 0 <= k < s.len() - e implies #[trigger] s.subrange(
            e,
            s.len() as int,
        )[k] == body.take(s.len() - e)[k] by {
            assert(s[e + k] == s.subrange(pos, s.len() as int)[1 + hl.len() + k]);
            assert(enc[1 + hl.len() + k] == body[k]);
        }
        assert(s.subrange(e, s.len() as int) =~= body.take(s.len() - e));
    }
}

/// A strict prefix of the encoding of a well-formed value, found at `pos` at the end of
/// `s`, decodes as incomplete.
pub proof fn lemma_decode_cut(v: Value, s: Seq<u8>, pos: int)
    requires
        wf_value(v),
        cut_at(s, pos, encode_value(v)),
    ensures
        parse_frame(s, pos) == Err::<(Value, int), _>(RespError::Incomplete),
    decreases v, 1nat, 0nat,
{
    if s.len() == pos {
        return;
    }
    match v {
        Value::SimpleString(t) => lemma_line_cut_value(s, pos, TAG_SIMPLE_STRING, encode_utf8(t)),
        Value::SimpleError(t) => lemma_line_cut_value(s, pos, TAG_SIMPLE_ERROR, encode_utf8(t)),
        Value::Integer(i) => {
            lemma_int_text_line_safe(i);
            lemma_line_cut_value(s, pos, TAG_INTEGER, int_text(i));
        },
        Value::Null => {
            assert(seq![TAG_NULL] + crlf() =~= seq![TAG_NULL] + Seq::<u8>::empty() + crlf());
            lemma_line_cut_value(s, pos, TAG_NULL, Seq::<u8>::empty());
        },
        Value::Boolean(b) => {
            let t = seq![if b { LOWER_T } else { LOWER_F }];
            assert(seq![TAG_BOOLEAN, if b { LOWER_T } else { LOWER_F }] + crlf() =~= seq![TAG_BOOLEAN]
                + t + crlf());
            lemma_line_cut_value(s, pos, TAG_BOOLEAN, t);
        },
        Value::Double(t) => lemma_line_cut_value(s, pos, TAG_DOUBLE, encode_utf8(t)),
        Value::BigNumber(t) => lemma_line_cut_value(s, pos, TAG_BIG_NUMBER, encode_utf8(t)),
        Value::BulkString(None) => {
            lemma_int_text_line_safe(-1);
            lemma_line_cut_value(s, pos, TAG_BULK_STRING, int_text(-1));
        },
        Value::Array(None) => {
            lemma_int_text_line_safe(-1);
            lemma_line_cut_value(s, pos, TAG_ARRAY, int_text(-1));
        },
        Value::BulkString(Some(b)) => lemma_sized_cut(s, pos, TAG_BULK_STRING, b),
        Value::BulkError(b) => lemma_sized_cut(s, pos, TAG_BULK_ERROR, b),
        Value::Array(Some(items)) => lemma_array_cut(items, s, pos),
        Value::RespSet(items) => lemma_set_cut(items, s, pos),
        Value::RespMap(pairs) => lemma_map_cut(pairs, s, pos),
    }
}

proof fn lemma_int_text_line_safe(i: int)
    ensures
        line_safe(int_text(i)),
{
    if i >= 0 {
        lemma_digits_line_safe(i as nat);
    } else {
        lemma_digits_line_safe((-i) as nat);
        let t = int_text(i);
        assert forall|k: int| 0 <= k < t.len() implies #[trigger] t[k] != CR && t[k] != LF by {
            if k > 0 {
                assert(t[k] == nat_digits((-i) as nat)[k - 1]);
            }
        }
    }
}

/// A cut frame of the line kinds decodes as incomplete: the cut falls before its terminator.
proof fn lemma_line_cut_value(s: Seq<u8>, pos: int, tag: u8, t: Seq<u8>)
    requires
        cut_at(s, pos, seq![tag] + t + crlf()),
        s.len() > pos,
        line_safe(t),
        crate::model::is_line_tag(tag) || tag == TAG_BULK_STRING || tag == TAG_ARRAY,
    ensures
        parse_frame(s, pos) == Err::<(Value, int), _>(RespError::Incomplete),
{
    let enc = seq![tag] + t + crlf();
    assert(enc =~= seq![tag] + (t + crlf()));
    assert(s[pos] == s.subrange(pos, s.len() as int)[0]);
    lemma_window_cut(s, pos, enc, 1, enc.len() as int);
    assert(enc.subrange(1, enc.len() as int) =~= t + crlf());
    lemma_parse_line_cut(s, pos + 1, t);
}

proof fn lemma_sized_cut(s: Seq<u8>, pos: int, tag: u8, b: Seq<u8>)
    requires
        tag == TAG_BULK_STRING || tag == TAG_BULK_ERROR,
        b.len() <= i64::MAX,
        s.len() > pos,
        cut_at(s, pos, seq![tag] + nat_digits(b.len()) + crlf() + b + crlf()),
    ensures
        parse_frame(s, pos) == Err::<(Value, int), _>(RespError::Incomplete),
{
    let d = nat_digits(b.len());
    lemma_digits_line_safe(b.len());
    lemma_parse_int_text(b.len() as int);
    assert(seq![tag] + d + crlf() + b + crlf() =~= seq![tag] + d + crlf() + (b + crlf()));
    lemma_header_cut(s, pos, tag, d, b + crlf());
}

/// Items encoded one after the other from `start`, cut at the end of `s`: reading them
/// from item `k` on, all of them before the cut decode and the one cut is incomplete.
proof fn lemma_items_cut(items: Seq<Value>, s: Seq<u8>, start: int, k: int)
    requires
        0 <= start <= s.len(),
        0 <= k <= items.len(),
        forall|i: int| 0 <= i < items.len() ==> wf_value(#[trigger] items[i]),
        s.subrange(start, s.len() as int) == encode_seq(items).take(s.len() - start),
        encode_seq(items.take(k)).len() <= s.len() - start < encode_seq(items).len(),
    ensures
        parse_items(
            s,
            start + encode_seq(items.take(k)).len(),
            (items.len() - k) as nat,
            items.take(k),
        ) == Err::<(Seq<Value>, int), _>(RespError::Incomplete),
        distinct(items) ==> parse_members(
            s,
            start + encode_seq(items.take(k)).len(),
            (items.len() - k) as nat,
            items.take(k),
        ) == Err::<(Seq<Value>, int), _>(RespError::Incomplete),
    decreases items, 0nat, items.len() - k,
{
    if k == items.len() {
        assert(items.take(k) =~= items);
        return;
    }
    lemma_encode_seq_step(items, k);
    lemma_encode_seq_prefix(items, k + 1);
    lemma_encode_nonempty(items[k]);
    let body = encode_seq(items);
    let a = encode_seq(items.take(k)).len() as int;
    let b = encode_seq(items.take(k + 1)).len() as int;
    assert(body.subrange(a, b) =~= encode_value(items[k])) by {
        assert(body.subrange(0, b) == encode_seq(items.take(k)) + encode_value(items[k]));
        assert forall|i: int| 0 <= i < b - a implies #[trigger] body.subrange(a, b)[i]
            == encode_value(items[k])[i] by {
            assert(body.subrange(a, b)[i] == body.subrange(0, b)[a + i]);
        }
    }
    if b <= s.len() - start {
        lemma_window(s, start, body, a, b);
        lemma_decode_encoded(items[k], s, start + a);
        assert(items.take(k).push(items[k]) =~= items.take(k + 1));
        lemma_items_cut(items, s, start, k + 1);
        reveal(set_insert);
        reveal(distinct);
        if distinct(items) {
            assert forall|i: int| 0 <= i < k implies #[trigger] items.take(k)[i] != items[k] by {
                assert(items.take(k)[i] == items[i]);
            }
            assert(!items.take(k).contains(items[k]));
            assert(set_insert(items.take(k), items[k]) =~= items.take(k + 1));
        }
    } else {
        lemma_window_cut(s, start, body, a, b);
        lemma_decode_cut(items[k], s, start + a);
    }
}

proof fn lemma_array_cut(items: Seq<Value>, s: Seq<u8>, pos: int)
    requires
        wf_value(Value::Array(Some(items))),
        s.len() > pos,
        cut_at(s, pos, encode_value(Value::Array(Some(items)))),
    ensures
        parse_frame(s, pos) == Err::<(Value, int), _>(RespError::Incomplete),
    decreases items, 1nat, 0nat,
{
    let d = nat_digits(items.len());
    lemma_digits_line_safe(items.len());
    lemma_parse_int_text(items.len() as int);
    lemma_header_cut(s, pos, TAG_ARRAY, d, encode_seq(items));
    let start = pos + 1 + d.len() + 2;
    if s.len() >= start {
        assert(items.take(0) =~= seq![]);
        assert(encode_seq(items.take(0)) =~= seq![]);
        lemma_items_cut(items, s, start, 0);
    }
}

proof fn lemma_set_cut(items: Seq<Value>, s: Seq<u8>, pos: int)
    requires
        wf_value(Value::RespSet(items)),
        s.len() > pos,
        cut_at(s, pos, encode_value(Value::RespSet(items))),
    ensures
        parse_frame(s, pos) == Err::<(Value, int), _>(RespError::Incomplete),
    decreases items, 1nat, 0nat,
{
    let d = nat_digits(items.len());
    lemma_digits_line_safe(items.len());
    lemma_parse_int_text(items.len() as int);
    lemma_header_cut(s, pos, TAG_SET, d, encode_seq(items));
    let start = pos + 1 + d.len() + 2;
    if s.len() >= start {
        assert(items.take(0) =~= seq![]);
        assert(encode_seq(items.take(0)) =~= seq![]);
        lemma_items_cut(items, s, start, 0);
    }
}

/// Pairs encoded one after the other from `start`, cut at the end of `s`, read from pair
/// `k` on: reading stops at the cut, incomplete.
proof fn lemma_pairs_cut(pairs: Seq<(Value, Value)>, s: Seq<u8>, start: int, k: int)
    requires
        0 <= start <= s.len(),
        0 <= k <= pairs.len(),
        distinct_keys(pairs),
        forall|i: int|
            0 <= i < pairs.len() ==> wf_value(#[trigger] pairs[i].0) && wf_value(pairs[i].1),
        s.subrange(start, s.len() as int) == encode_pairs(pairs).take(s.len() - start),
        encode_pairs(pairs.take(k)).len() <= s.len() - start < encode_pairs(pairs).len(),
    ensures
        parse_pairs(
            s,
            start + encode_pairs(pairs.take(k)).len(),
            (pairs.len() - k) as nat,
            pairs.take(k),
        ) == Err::<(Seq<(Value, Value)>, int), _>(RespError::Incomplete),
    decreases pairs, 0nat, pairs.len() - k,
{
    if k == pairs.len() {
        assert(pairs.take(k) =~= pairs);
        return;
    }
    lemma_encode_pairs_step(pairs, k);
    lemma_encode_pairs_prefix(pairs, k + 1);
    lemma_encode_nonempty(pairs[k].0);
    lemma_encode_nonempty(pairs[k].1);
    let body = encode_pairs(pairs);
    let ek = encode_value(pairs[k].0);
    let ev = encode_value(pairs[k].1);
    let a = encode_pairs(pairs.take(k)).len() as int;
    let m = a + ek.len();
    let b = encode_pairs(pairs.take(k + 1)).len() as int;
    assert(body.subrange(0, b) == encode_pairs(pairs.take(k)) + ek + ev);
    assert(body.subrange(a, m) =~= ek) by {
        assert forall|i: int| 0 <= i < m - a implies #[trigger] body.subrange(a, m)[i] == ek[i] by {
            assert(body.subrange(a, m)[i] == body.subrange(0, b)[a + i]);
        }
    }
    assert(body.subrange(m, b) =~= ev) by {
        assert forall|i: int| 0 <= i < b - m implies #[trigger] body.subrange(m, b)[i] == ev[i] by {
            assert(body.subrange(m, b)[i] == body.subrange(0, b)[m + i]);
        }
    }
    if m > s.len() - start {
        lemma_window_cut(s, start, body, a, m);
        lemma_decode_cut(pairs[k].0, s, start + a);
    } else {
        lemma_window(s, start, body, a, m);
        lemma_decode_encoded(pairs[k].0, s, start + a);
        if b > s.len() - start {
            lemma_window_cut(s, start, body, m, b);
            lemma_decode_cut(pairs[k].1, s, start + m);
        } else {
            lemma_window(s, start, body, m, b);
            lemma_decode_encoded(pairs[k].1, s, start + m);
            lemma_key_index_absent(pairs.take(k), pairs[k].0, 0);
            assert(map_insert(pairs.take(k), pairs[k].0, pairs[k].1) =~= pairs.take(k + 1));
            lemma_pairs_cut(pairs, s, start, k + 1);
        }
    }
}

proof fn lemma_map_cut(pairs: Seq<(Value, Value)>, s: Seq<u8>, pos: int)
    requires
        wf_value(Value::RespMap(pairs)),
        s.len() > pos,
        cut_at(s, pos, encode_value(Value::RespMap(pairs))),
    ensures
        parse_frame(s, pos) == Err::<(Value, int), _>(RespError::Incomplete),
    decreases pairs, 1nat, 0nat,
{
    let d = nat_digits(pairs.len());
    lemma_digits_line_safe(pairs.len());
    lemma_parse_int_text(pairs.len() as int);
    lemma_header_cut(s, pos, TAG_MAP, d, encode_pairs(pairs));
    let start = pos + 1 + d.len() + 2;
    if s.len() >= start {
        assert(pairs.take(0) =~= seq![]);
        assert(encode_pairs(pairs.take(0)) =~= seq![]);
        lemma_pairs_cut(pairs, s, start, 0);
    }
}

/// Feeding the encoding of a well-formed value one byte at a time: every strict prefix
/// decodes as incomplete, never as an error, and the whole encoding decodes to the value,
/// taking all of its bytes.
pub proof fn lemma_incremental_decode(v: Value, k: int)
    requires
        wf_value(v),
        0 <= k <= encode_value(v).len(),
    ensures
        k < encode_value(v).len() ==> parse_frame(encode_value(v).take(k), 0) == Err::<
            (Value, int),
            _,
        >(RespError::Incomplete),
        k == encode_value(v).len() ==> parse_frame(encode_value(v).take(k), 0) == Ok::<
            _,
            RespError,
        >((v, k)),
{
    let e = encode_value(v);
    if k < e.len() {
        assert(e.take(k).subrange(0, k) =~= e.take(k));
        lemma_decode_cut(v, e.take(k), 0);
    } else {
        assert(e.take(k) =~= e);
        lemma_round_trip(v);
    }
}

} // verus!
