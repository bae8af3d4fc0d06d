//! Replies built from what the store returned.
use vstd::prelude::*;
use vstd::utf8::encode_utf8;

use crate::frame::{frames_values, Array, BulkString, Frame, Integer, Null};
use crate::model::Value;

verus! {

/// The fixed reply of a successful write: the bulk string `OK`.
pub open spec fn ok_reply() -> Value {
    Value::BulkString(Some(seq![79u8, 75u8]))
}

/// The reply for a looked-up value: the value itself, or null when absent.
pub open spec fn found_reply(v: Option<Frame>) -> Value {
    match v {
        Some(f) => f@,
        None => Value::Null,
    }
}

/// A text as a bulk string of its UTF-8 bytes.
pub open spec fn bulk_text(t: Seq<char>) -> Value {
    Value::BulkString(Some(encode_utf8(t)))
}

/// Field/value pairs laid out flat: each field as a bulk string, then its value.
pub open spec fn flat_entries(es: Seq<(Seq<char>, Value)>) -> Seq<Value>
    decreases es.len(),
{
    if es.len() == 0 {
        seq![]
    } else {
        flat_entries(es.drop_last()) + seq![bulk_text(es.last().0), es.last().1]
    }
}

pub open spec fn entries_view(es: Seq<(String, Frame)>) -> Seq<(Seq<char>, Value)> {
    es.map_values(|e: (String, Frame)| (e.0@, e.1@))
}

pub open spec fn options_view(vs: Seq<Option<Frame>>) -> Seq<Value> {
    vs.map_values(|v: Option<Frame>| found_reply(v))
}

/// The `OK` reply.
pub fn ok() -> (r: Frame)
    ensures
        r@ == ok_reply(),
{
    let mut b: Vec<u8> = Vec::new();
    b.push(79);
    b.push(75);
    assert(b@ =~= seq![79u8, 75u8]);
    Frame::BulkString(BulkString { inner: b, null: false })
}

/// The reply for a looked-up value.
pub fn value_or_null(v: Option<Frame>) -> (r: Frame)
    ensures
        r@ == found_reply(v),
{
    match v {
        Some(f) => f,
        None => Frame::Null(Null),
    }
}

/// `1` for true, `0` for false.
pub fn flag_reply(b: bool) -> (r: Frame)
    ensures
        r@ == Value::Integer(if b {
            1
        } else {
            0
        }),
{
    Frame::Integer(Integer { inner: if b { 1 } else { 0 } })
}

/// A text as a bulk string.
pub fn text_frame(t: &String) -> (r: Frame)
    ensures
        r@ == bulk_text(t@),
{
    Frame::bulk(t.as_str().as_bytes())
}

/// The reply listing a hash: null when the hash is absent, else its pairs laid out flat.
pub fn entries_reply(entries: Option<Vec<(String, Frame)>>) -> (r: Frame)
    ensures
        r@ == match entries {
            None => Value::Null,
            Some(es) => Value::Array(Some(flat_entries(entries_view(es@)))),
        },
{
    match entries {
        None => Frame::Null(Null),
        Some(es) => {
            let mut out: Vec<Frame> = Vec::new();
            let mut i: usize = 0;
            while i < es.len()
                invariant
                    i <= es@.len(),
                    frames_values(out@) == flat_entries(entries_view(es@).take(i as int)),
                decreases es.len() - i,
            {
                let ghost before = out@;
                out.push(text_frame(&es[i].0));
                let ghost mid = out@;
                out.push(es[i].1.duplicate());
                assert(mid.drop_last() =~= before);
                assert(out@.drop_last() =~= mid);
                let ghost ev = entries_view(es@);
                assert(ev.take(i + 1).drop_last() =~= ev.take(i as int));
                assert(ev.take(i + 1).last() == (es@[i as int].0@, es@[i as int].1@));
                assert(frames_values(mid) == frames_values(before).push(bulk_text(es@[i as int].0@)));
                assert(frames_values(out@) == frames_values(mid).push(es@[i as int].1@));
                assert(frames_values(out@) =~= flat_entries(entries_view(es@).take(i + 1)));
                i = i + 1;
            }
            assert(entries_view(es@).take(i as int) =~= entries_view(es@));
            Frame::Array(Array { inner: out, null: false })
        },
    }
}

/// The reply listing set members: each as a bulk string; an empty array when the set is absent.
pub fn members_reply(members: Option<Vec<String>>) -> (r: Frame)
    ensures
        r@ == Value::Array(
            Some(
                match members {
                    None => seq![],
                    Some(ms) => ms@.map_values(|m: String| bulk_text(m@)),
                },
            ),
        ),
{
    let mut out: Vec<Frame> = Vec::new();
    match members {
        None => {
            assert(frames_values(out@) =~= seq![]);
        },
        Some(ms) => {
            let mut i: usize = 0;
            while i < ms.len()
                invariant
                    i <= ms@.len(),
                    frames_values(out@) == ms@.take(i as int).map_values(|m: String| bulk_text(m@)),
                decreases ms.len() - i,
            {
                let ghost before = out@;
                out.push(text_frame(&ms[i]));
                assert(out@.drop_last() =~= before);
                assert(frames_values(out@) =~= ms@.take(i + 1).map_values(
                    |m: String| bulk_text(m@),
                ));
                i = i + 1;
            }
            assert(ms@.take(i as int) =~= ms@);
        },
    }
    Frame::Array(Array { inner: out, null: false })
}

/// The reply listing looked-up values in order, each the value or null.
pub fn values_reply(values: Vec<Option<Frame>>) -> (r: Frame)
    ensures
        r@ == Value::Array(Some(options_view(values@))),
{
    let mut out: Vec<Frame> = Vec::new();
    let mut rest = values;
    let ghost all = rest@;
    let mut i: usize = 0;
    let n = rest.len();
    while i < n
        invariant
            n == all.len(),
            i <= n,
            rest@ == all.subrange(i as int, n as int),
            frames_values(out@) == options_view(all.take(i as int)),
        decreases n - i,
    {
        let v = rest.remove(0);
        let ghost before = out@;
        out.push(value_or_null(v));
        assert(out@.drop_last() =~= before);
        assert(frames_values(out@) =~= options_view(all.take(i + 1)));
        i = i + 1;
        assert(rest@ =~= all.subrange(i as int, n as int));
    }
    assert(all.take(i as int) =~= all);
    Frame::Array(Array { inner: out, null: false })
}

} // verus!
