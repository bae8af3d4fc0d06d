//! Protocol frames and decoding errors.
use vstd::prelude::*;

use vstd::slice::slice_to_vec;

use crate::model::Value;

verus! {

/// Why bytes could not be decoded into a frame.
#[derive(Debug, Clone, Copy, PartialEq, Eq, Structural)]
pub enum RespError {
    /// The bytes are a prefix of a frame: more input is needed.
    Incomplete,
    /// Unknown prefix byte, bad length or layout, or missing terminator.
    InvalidType,
    /// Text that must be UTF-8 is not.
    Utf8Error,
    /// A number or length field is not a decimal integer in range.
    ParseIntError,
    /// A double's text is not a decimal number.
    ParseFloatError,
}


/// A simple string: one line of UTF-8 text.
#[derive(Debug, Clone)]
pub struct SimpleString {
    pub inner: String,
}

/// A simple error: one line of UTF-8 text.
#[derive(Debug, Clone)]
pub struct SimpleError {
    pub inner: String,
}

/// A signed 64-bit integer.
#[derive(Debug, Clone)]
pub struct Integer {
    pub inner: i64,
}

/// A length-prefixed byte string; `null` marks the null bulk string, whose bytes are ignored.
#[derive(Debug, Clone)]
pub struct BulkString {
    pub inner: Vec<u8>,
    pub null: bool,
}

/// A sequence of frames; `null` marks the null array, whose elements are ignored.
#[derive(Debug)]
pub struct Array {
    pub inner: Vec<Frame>,
    pub null: bool,
}

/// The null value.
#[derive(Debug, Clone, Copy, PartialEq, Eq, Structural)]
pub struct Null;

/// A boolean.
#[derive(Debug, Clone)]
pub struct Boolean {
    pub inner: bool,
}

/// A double, held as its decimal text.
#[derive(Debug, Clone)]
pub struct Double {
    pub inner: String,
}

/// A big number, held as its decimal text.
#[derive(Debug, Clone)]
pub struct BigNumber {
    pub inner: String,
}

/// A length-prefixed error payload.
#[derive(Debug, Clone)]
pub struct BulkError {
    pub inner: Vec<u8>,
}

/// Key/value pairs in insertion order, with distinct keys when built by `insert`.
#[derive(Debug)]
pub struct RespMap {
    pub inner: Vec<(Frame, Frame)>,
}

/// Members in insertion order, distinct when built by `insert`.
#[derive(Debug)]
pub struct RespSet {
    pub inner: Vec<Frame>,
}

/// One protocol value.
#[derive(Debug)]
pub enum Frame {
    SimpleString(SimpleString),
    SimpleError(SimpleError),
    Integer(Integer),
    BulkString(BulkString),
    Array(Array),
    Null(Null),
    Boolean(Boolean),
    Double(Double),
    BigNumber(BigNumber),
    BulkError(BulkError),
    RespMap(RespMap),
    RespSet(RespSet),
}

/// The value that a frame stands for.
pub open spec fn frame_value(f: Frame) -> Value
    decreases f,
{
    match f {
        Frame::SimpleString(s) => Value::SimpleString(s.inner@),
        Frame::SimpleError(s) => Value::SimpleError(s.inner@),
        Frame::Integer(i) => Value::Integer(i.inner as int),
        Frame::BulkString(b) => if b.null {
            Value::BulkString(None)
        } else {
            Value::BulkString(Some(b.inner@))
        },
        Frame::Array(a) => if a.null {
            Value::Array(None)
        } else {
            Value::Array(Some(frames_values(a.inner@)))
        },
        Frame::Null(_) => Value::Null,
        Frame::Boolean(b) => Value::Boolean(b.inner),
        Frame::Double(d) => Value::Double(d.inner@),
        Frame::BigNumber(n) => Value::BigNumber(n.inner@),
        Frame::BulkError(b) => Value::BulkError(b.inner@),
        Frame::RespMap(m) => Value::RespMap(pairs_values(m.inner@)),
        Frame::RespSet(s) => Value::RespSet(frames_values(s.inner@)),
    }
}

pub open spec fn frames_values(s: Seq<Frame>) -> Seq<Value>
    decreases s,
{
    if s.len() == 0 {
        seq![]
    } else {
        frames_values(s.drop_last()).push(frame_value(s.last()))
    }
}

pub open spec fn pairs_values(s: Seq<(Frame, Frame)>) -> Seq<(Value, Value)>
    decreases s,
{
    if s.len() == 0 {
        seq![]
    } else {
        pairs_values(s.drop_last()).push((frame_value(s.last().0), frame_value(s.last().1)))
    }
}

pub proof fn lemma_frames_values(s: Seq<Frame>)
    ensures
        frames_values(s).len() == s.len(),
        forall|i: int| 0 <= i < s.len() ==> #[trigger] frames_values(s)[i] == frame_value(s[i]),
    decreases s.len(),
{
    if s.len() > 0 {
        lemma_frames_values(s.drop_last());
    }
}

pub proof fn lemma_pairs_values(s: Seq<(Frame, Frame)>)
    ensures
        pairs_values(s).len() == s.len(),
        forall|i: int|
            0 <= i < s.len() ==> #[trigger] pairs_values(s)[i] == (
            frame_value(s[i].0),
            frame_value(s[i].1),
        ),
    decreases s.len(),
{
    if s.len() > 0 {
        lemma_pairs_values(s.drop_last());
    }
}

impl View for Frame {
    type V = Value;

    open spec fn view(&self) -> Value {
        frame_value(*self)
    }
}

impl View for SimpleString {
    type V = Value;

    open spec fn view(&self) -> Value {
        Value::SimpleString(self.inner@)
    }
}

impl View for SimpleError {
    type V = Value;

    open spec fn view(&self) -> Value {
        Value::SimpleError(self.inner@)
    }
}

impl View for Integer {
    type V = Value;

    open spec fn view(&self) -> Value {
        Value::Integer(self.inner as int)
    }
}

impl View for BulkString {
    type V = Value;

    open spec fn view(&self) -> Value {
        if self.null {
            Value::BulkString(None)
        } else {
            Value::BulkString(Some(self.inner@))
        }
    }
}

impl View for Null {
    type V = Value;

    open spec fn view(&self) -> Value {
        Value::Null
    }
}

impl View for Boolean {
    type V = Value;

    open spec fn view(&self) -> Value {
        Value::Boolean(self.inner)
    }
}

impl View for Double {
    type V = Value;

    open spec fn view(&self) -> Value {
        Value::Double(self.inner@)
    }
}

impl View for BigNumber {
    type V = Value;

    open spec fn view(&self) -> Value {
        Value::BigNumber(self.inner@)
    }
}

impl View for BulkError {
    type V = Value;

    open spec fn view(&self) -> Value {
        Value::BulkError(self.inner@)
    }
}

impl View for Array {
    type V = Value;

    open spec fn view(&self) -> Value {
        if self.null {
            Value::Array(None)
        } else {
            Value::Array(Some(frames_values(self.inner@)))
        }
    }
}

impl View for RespMap {
    type V = Value;

    open spec fn view(&self) -> Value {
        Value::RespMap(pairs_values(self.inner@))
    }
}

impl View for RespSet {
    type V = Value;

    open spec fn view(&self) -> Value {
        Value::RespSet(frames_values(self.inner@))
    }
}

/// Whether two byte strings are equal.
pub fn bytes_eq(a: &[u8], b: &[u8]) -> (r: bool)
    ensures
        r == (a@ == b@),
{
    if a.len() != b.len() {
        return false;
    }
    let mut i: usize = 0;
    while i < a.len()
        invariant
            a@.len() == b@.len(),
            i <= a@.len(),
            forall|j: int| 0 <= j < i ==> a@[j] == b@[j],
        decreases a.len() - i,
    {
        if a[i] != b[i] {
            return false;
        }
        i = i + 1;
    }
    assert(a@ =~= b@);
    true
}

/// Whether two frame sequences stand for the same values.
pub fn frames_eq(a: &Vec<Frame>, b: &Vec<Frame>) -> (r: bool)
    ensures
        r == (frames_values(a@) == frames_values(b@)),
    decreases a,
{
    proof {
        lemma_frames_values(a@);
        lemma_frames_values(b@);
    }
    if a.len() != b.len() {
        return false;
    }
    let mut i: usize = 0;
    while i < a.len()
        invariant
            a@.len() == b@.len(),
            frames_values(a@).len() == a@.len(),
            frames_values(b@).len() == b@.len(),
            forall|j: int| 0 <= j < a@.len() ==> #[trigger] frames_values(a@)[j] == frame_value(a@[j]),
            forall|j: int| 0 <= j < b@.len() ==> #[trigger] frames_values(b@)[j] == frame_value(b@[j]),
            i <= a@.len(),
            forall|j: int| 0 <= j < i ==> frame_value(a@[j]) == frame_value(b@[j]),
        decreases a.len() - i,
    {
        proof {
            assert(decreases_to!(*a => a@[i as int]));
        }
        if !a[i].eq_frame(&b[i]) {
            assert(frames_values(a@)[i as int] != frames_values(b@)[i as int]);
            return false;
        }
        i = i + 1;
    }
    assert(frames_values(a@) =~= frames_values(b@));
    true
}

/// Whether two pair sequences stand for the same values.
pub fn pairs_eq(a: &Vec<(Frame, Frame)>, b: &Vec<(Frame, Frame)>) -> (r: bool)
    ensures
        r == (pairs_values(a@) == pairs_values(b@)),
    decreases a,
{
    proof {
        lemma_pairs_values(a@);
        lemma_pairs_values(b@);
    }
    if a.len() != b.len() {
        return false;
    }
    let mut i: usize = 0;
    while i < a.len()
        invariant
            a@.len() == b@.len(),
            pairs_values(a@).len() == a@.len(),
            pairs_values(b@).len() == b@.len(),
            forall|j: int|
                0 <= j < a@.len() ==> #[trigger] pairs_values(a@)[j] == (
                frame_value(a@[j].0),
                frame_value(a@[j].1),
            ),
            forall|j: int|
                0 <= j < b@.len() ==> #[trigger] pairs_values(b@)[j] == (
                frame_value(b@[j].0),
                frame_value(b@[j].1),
            ),
            i <= a@.len(),
            forall|j: int|
                0 <= j < i ==> frame_value(a@[j].0) == frame_value(b@[j].0) && frame_value(a@[j].1)
                    == frame_value(b@[j].1),
        decreases a.len() - i,
    {
        proof {
            assert(decreases_to!(*a => a@[i as int]));
            assert(decreases_to!(a@[i as int] => a@[i as int].0));
            assert(decreases_to!(a@[i as int] => a@[i as int].1));
        }
        if !a[i].0.eq_frame(&b[i].0) || !a[i].1.eq_frame(&b[i].1) {
            assert(pairs_values(a@)[i as int] != pairs_values(b@)[i as int]);
            return false;
        }
        i = i + 1;
    }
    assert(pairs_values(a@) =~= pairs_values(b@));
    true
}

impl Frame {
    /// Whether two frames stand for the same value.
    pub fn eq_frame(&self, other: &Frame) -> (r: bool)
        ensures
            r == (self@ == other@),
        decreases self,
    {
        match (self, other) {
            (Frame::SimpleString(a), Frame::SimpleString(b)) => a.inner == b.inner,
            (Frame::SimpleError(a), Frame::SimpleError(b)) => a.inner == b.inner,
            (Frame::Integer(a), Frame::Integer(b)) => a.inner == b.inner,
            (Frame::BulkString(a), Frame::BulkString(b)) => {
                if a.null || b.null {
                    a.null && b.null
                } else {
                    bytes_eq(a.inner.as_slice(), b.inner.as_slice())
                }
            },
            (Frame::Array(a), Frame::Array(b)) => {
                if a.null || b.null {
                    a.null && b.null
                } else {
                    frames_eq(&a.inner, &b.inner)
                }
            },
            (Frame::Null(_), Frame::Null(_)) => true,
            (Frame::Boolean(a), Frame::Boolean(b)) => a.inner == b.inner,
            (Frame::Double(a), Frame::Double(b)) => a.inner == b.inner,
            (Frame::BigNumber(a), Frame::BigNumber(b)) => a.inner == b.inner,
            (Frame::BulkError(a), Frame::BulkError(b)) => bytes_eq(
                a.inner.as_slice(),
                b.inner.as_slice(),
            ),
            (Frame::RespMap(a), Frame::RespMap(b)) => pairs_eq(&a.inner, &b.inner),
            (Frame::RespSet(a), Frame::RespSet(b)) => frames_eq(&a.inner, &b.inner),
            _ => false,
        }
    }
}

impl PartialEq for Frame {
    fn eq(&self, other: &Frame) -> bool {
        self.eq_frame(other)
    }
}

impl vstd::std_specs::cmp::PartialEqSpecImpl for Frame {
    open spec fn obeys_eq_spec() -> bool {
        true
    }

    open spec fn eq_spec(&self, other: &Frame) -> bool {
        self@ == other@
    }
}

impl PartialEq for Array {
    fn eq(&self, other: &Array) -> bool {
        if self.null || other.null {
            self.null && other.null
        } else {
            frames_eq(&self.inner, &other.inner)
        }
    }
}

impl vstd::std_specs::cmp::PartialEqSpecImpl for Array {
    open spec fn obeys_eq_spec() -> bool {
        true
    }

    open spec fn eq_spec(&self, other: &Array) -> bool {
        self@ == other@
    }
}

/// A copy of `v`.
pub fn copy_frames(v: &Vec<Frame>) -> (r: Vec<Frame>)
    ensures
        frames_values(r@) == frames_values(v@),
    decreases v,
{
    proof {
        lemma_frames_values(v@);
    }
    let mut out: Vec<Frame> = Vec::new();
    let mut i: usize = 0;
    while i < v.len()
        invariant
            i <= v@.len(),
            frames_values(out@) == frames_values(v@).take(i as int),
            frames_values(v@).len() == v@.len(),
            forall|j: int| 0 <= j < v@.len() ==> #[trigger] frames_values(v@)[j] == frame_value(v@[j]),
        decreases v.len() - i,
    {
        proof {
            assert(decreases_to!(*v => v@[i as int]));
        }
        let ghost before = out@;
        out.push(v[i].duplicate());
        assert(out@.drop_last() =~= before);
        assert(frames_values(v@).take(i + 1) =~= frames_values(v@).take(i as int).push(
            frame_value(v@[i as int]),
        ));
        i = i + 1;
    }
    assert(frames_values(v@).take(i as int) =~= frames_values(v@));
    out
}

/// A copy of `v`.
pub fn copy_pairs(v: &Vec<(Frame, Frame)>) -> (r: Vec<(Frame, Frame)>)
    ensures
        pairs_values(r@) == pairs_values(v@),
    decreases v,
{
    proof {
        lemma_pairs_values(v@);
    }
    let mut out: Vec<(Frame, Frame)> = Vec::new();
    let mut i: usize = 0;
    while i < v.len()
        invariant
            i <= v@.len(),
            pairs_values(out@) == pairs_values(v@).take(i as int),
            pairs_values(v@).len() == v@.len(),
            forall|j: int|
                0 <= j < v@.len() ==> #[trigger] pairs_values(v@)[j] == (
                frame_value(v@[j].0),
                frame_value(v@[j].1),
            ),
        decreases v.len() - i,
    {
        proof {
            assert(decreases_to!(*v => v@[i as int]));
            assert(decreases_to!(v@[i as int] => v@[i as int].0));
            assert(decreases_to!(v@[i as int] => v@[i as int].1));
        }
        let ghost before = out@;
        let k = v[i].0.duplicate();
        let x = v[i].1.duplicate();
        out.push((k, x));
        assert(out@.drop_last() =~= before);
        assert(pairs_values(v@).take(i + 1) =~= pairs_values(v@).take(i as int).push(
            (frame_value(v@[i as int].0), frame_value(v@[i as int].1)),
        ));
        i = i + 1;
    }
    assert(pairs_values(v@).take(i as int) =~= pairs_values(v@));
    out
}

impl Frame {
    /// A copy of this frame.
    pub fn duplicate(&self) -> (r: Frame)
        ensures
            r@ == self@,
        decreases self,
    {
        match self {
            Frame::SimpleString(s) => Frame::SimpleString(SimpleString { inner: s.inner.clone() }),
            Frame::SimpleError(s) => Frame::SimpleError(SimpleError { inner: s.inner.clone() }),
            Frame::Integer(n) => Frame::Integer(Integer { inner: n.inner }),
            Frame::BulkString(b) => Frame::BulkString(
                BulkString { inner: slice_to_vec(b.inner.as_slice()), null: b.null },
            ),
            Frame::Array(a) => Frame::Array(Array { inner: copy_frames(&a.inner), null: a.null }),
            Frame::Null(_) => Frame::Null(Null),
            Frame::Boolean(b) => Frame::Boolean(Boolean { inner: b.inner }),
            Frame::Double(d) => Frame::Double(Double { inner: d.inner.clone() }),
            Frame::BigNumber(d) => Frame::BigNumber(BigNumber { inner: d.inner.clone() }),
            Frame::BulkError(b) => Frame::BulkError(
                BulkError { inner: slice_to_vec(b.inner.as_slice()) },
            ),
            Frame::RespMap(m) => Frame::RespMap(RespMap { inner: copy_pairs(&m.inner) }),
            Frame::RespSet(m) => Frame::RespSet(RespSet { inner: copy_frames(&m.inner) }),
        }
    }

    /// A simple string frame holding `s`.
    pub fn simple(s: &str) -> (r: Frame)
        ensures
            r@ == Value::SimpleString(s@),
    {
        Frame::SimpleString(SimpleString::new(s))
    }

    /// A bulk string frame holding `b`.
    pub fn bulk(b: &[u8]) -> (r: Frame)
        ensures
            r@ == Value::BulkString(Some(b@)),
    {
        Frame::BulkString(BulkString::new(b))
    }

    /// An integer frame holding `i`.
    pub fn integer(i: i64) -> (r: Frame)
        ensures
            r@ == Value::Integer(i as int),
    {
        Frame::Integer(Integer::new(i))
    }

    /// A boolean frame holding `b`.
    pub fn boolean(b: bool) -> (r: Frame)
        ensures
            r@ == Value::Boolean(b),
    {
        Frame::Boolean(Boolean::new(b))
    }

    /// An array frame holding `items`.
    pub fn array(items: Vec<Frame>) -> (r: Frame)
        ensures
            r@ == Value::Array(Some(frames_values(items@))),
    {
        Frame::Array(Array::new(items))
    }

    /// The null frame.
    pub fn null() -> (r: Frame)
        ensures
            r@ == Value::Null,
    {
        Frame::Null(Null)
    }
}

impl SimpleString {
    pub fn new(inner: &str) -> (r: SimpleString)
        ensures
            r.inner@ == inner@,
    {
        SimpleString { inner: inner.to_string() }
    }
}

impl SimpleError {
    pub fn new(inner: &str) -> (r: SimpleError)
        ensures
            r.inner@ == inner@,
    {
        SimpleError { inner: inner.to_string() }
    }
}

impl Integer {
    pub fn new(inner: i64) -> (r: Integer)
        ensures
            r.inner == inner,
    {
        Integer { inner }
    }
}

impl BulkString {
    /// A bulk string holding `inner`; an empty one is not the null bulk string.
    pub fn new(inner: &[u8]) -> (r: BulkString)
        ensures
            r.inner@ == inner@,
            !r.null,
    {
        BulkString { inner: slice_to_vec(inner), null: false }
    }

    /// The null bulk string.
    pub fn null() -> (r: BulkString)
        ensures
            r.inner@.len() == 0,
            r.null,
    {
        BulkString { inner: Vec::new(), null: true }
    }
}

impl Array {
    /// An array holding `inner`; an empty one is not the null array.
    pub fn new(inner: Vec<Frame>) -> (r: Array)
        ensures
            r.inner == inner,
            !r.null,
    {
        Array { inner, null: false }
    }

    /// The null array.
    pub fn null() -> (r: Array)
        ensures
            r.inner@.len() == 0,
            r.null,
    {
        Array { inner: Vec::new(), null: true }
    }

    /// Number of elements.
    pub fn len(&self) -> (r: usize)
        ensures
            r == self.inner@.len(),
    {
        self.inner.len()
    }
}

impl Boolean {
    pub fn new(inner: bool) -> (r: Boolean)
        ensures
            r.inner == inner,
    {
        Boolean { inner }
    }
}

impl Double {
    /// A double written as the decimal text `inner`.
    pub fn new(inner: &str) -> (r: Double)
        ensures
            r.inner@ == inner@,
    {
        Double { inner: inner.to_string() }
    }
}

impl BigNumber {
    /// A big number written as the decimal text `inner`.
    pub fn new(inner: &str) -> (r: BigNumber)
        ensures
            r.inner@ == inner@,
    {
        BigNumber { inner: inner.to_string() }
    }
}

impl BulkError {
    pub fn new(inner: &[u8]) -> (r: BulkError)
        ensures
            r.inner@ == inner@,
    {
        BulkError { inner: slice_to_vec(inner) }
    }
}

} // verus!
