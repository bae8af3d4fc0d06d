//! Commands: reading them from frames and running them against the store.
use vstd::prelude::*;
use vstd::utf8::encode_utf8_decode_utf8;

use crate::backend::Backend;
use crate::frame::{bytes_eq, lemma_frames_values, Frame};
use crate::model::Value;
use crate::parse::{command_parts, frame_text, text_of, Parse, ParseError};
use crate::reply::{
    entries_reply, flag_reply, members_reply, ok, ok_reply, value_or_null, values_reply,
};

verus! {

/// What `str::to_uppercase` gives for a text.
pub uninterp spec fn upper_of(s: Seq<char>) -> Seq<char>;

/// Relies on `str::to_uppercase`: the result depends on the characters alone.
#[verifier::external_body]
fn uppercase(s: &str) -> (r: String)
    ensures
        r@ == upper_of(s@),
{
    s.to_uppercase()
}

/// Whether two texts are equal.
pub fn text_eq(a: &str, b: &str) -> (r: bool)
    ensures
        r == (a@ == b@),
{
    let r = bytes_eq(a.as_bytes(), b.as_bytes());
    proof {
        encode_utf8_decode_utf8(a@);
        encode_utf8_decode_utf8(b@);
    }
    r
}

/// The texts of a sequence of strings.
pub open spec fn texts(v: Seq<String>) -> Seq<Seq<char>> {
    v.map_values(|s: String| s@)
}

/// The text of the element at `i`.
pub open spec fn text_at(parts: Seq<Value>, i: int) -> Result<Seq<char>, ParseError> {
    if 0 <= i < parts.len() {
        text_of(parts[i])
    } else {
        Err(ParseError::EndOfParts)
    }
}

/// The texts of `n` elements from `i` on, appended to `acc`, or the first error among them.
pub open spec fn texts_from(parts: Seq<Value>, i: int, n: nat, acc: Seq<Seq<char>>) -> Result<
    Seq<Seq<char>>,
    ParseError,
>
    decreases n,
{
    if n == 0 {
        Ok(acc)
    } else {
        match text_at(parts, i) {
            Ok(t) => texts_from(parts, i + 1, (n - 1) as nat, acc.push(t)),
            Err(e) => Err(e),
        }
    }
}

/// How many text operands a command reads: `n`, or with `variadic` every element after
/// the verb (at least one).
pub open spec fn text_count(parts: Seq<Value>, n: nat, variadic: bool) -> nat {
    if !variadic {
        n
    } else if parts.len() >= 2 {
        (parts.len() - 1) as nat
    } else {
        1
    }
}

/// Reading a command frame whose verb, upper-cased, is `upper`, as the command `verb`: its
/// text operands and, with `with_value`, a last operand of any kind; then no element may
/// be left.
pub open spec fn parse_command_as(
    f: Value,
    upper: Seq<char>,
    verb: Seq<char>,
    n: nat,
    variadic: bool,
    with_value: bool,
) -> Result<(Seq<Seq<char>>, Option<Value>), ParseError> {
    match command_parts(f) {
        Err(e) => Err(e),
        Ok(parts) => match text_at(parts, 0) {
            Err(e) => Err(e),
            Ok(_) => if upper != verb {
                Err(ParseError::InvalidCommand)
            } else {
                let k = text_count(parts, n, variadic);
                match texts_from(parts, 1, k, seq![]) {
                    Err(e) => Err(e),
                    Ok(ts) => {
                        let next = 1 + k as int;
                        if with_value && next >= parts.len() {
                            Err(ParseError::EndOfParts)
                        } else if (with_value && next + 1 < parts.len()) || (!with_value && next
                            < parts.len()) {
                            Err(ParseError::NotFinished)
                        } else if with_value {
                            Ok((ts, Some(parts[next])))
                        } else {
                            Ok((ts, None))
                        }
                    },
                }
            },
        },
    }
}

/// Reading a command frame as the command `verb`, its own verb compared after upper-casing.
pub open spec fn parse_command(
    f: Value,
    verb: Seq<char>,
    n: nat,
    variadic: bool,
    with_value: bool,
) -> Result<(Seq<Seq<char>>, Option<Value>), ParseError> {
    match command_parts(f) {
        Err(e) => Err(e),
        Ok(parts) => match text_at(parts, 0) {
            Err(e) => Err(e),
            Ok(v) => parse_command_as(f, upper_of(v), verb, n, variadic, with_value),
        },
    }
}

/// The value of a last operand, if there is one.
pub open spec fn operand_view(v: Option<Frame>) -> Option<Value> {
    match v {
        Some(f) => Some(f@),
        None => None,
    }
}

/// The text of the verb of a command frame.
fn verb_text(frame: &Frame) -> (r: Result<String, ParseError>)
    ensures
        match command_parts(frame@) {
            Err(e) => r == Err::<String, _>(e),
            Ok(parts) => match text_at(parts, 0) {
                Ok(v) => r matches Ok(s) && s@ == v,
                Err(e) => r == Err::<String, _>(e),
            },
        },
{
    match frame {
        Frame::Array(a) => {
            proof {
                lemma_frames_values(a.inner@);
            }
            if a.null || a.inner.len() == 0 {
                Err(ParseError::EndOfParts)
            } else {
                frame_text(&a.inner[0])
            }
        },
        _ => Err(ParseError::InvalidType),
    }
}

/// The operands of the command in `frame`, read as `parse_command` says.
pub fn parse_operands(frame: Frame, verb: &str, n: usize, variadic: bool, with_value: bool) -> (r:
    Result<(Vec<String>, Option<Frame>), ParseError>)
    ensures
        match parse_command(frame@, verb@, n as nat, variadic, with_value) {
            Ok(p) => r matches Ok((xs, y)) && (texts(xs@), operand_view(y)) == p,
            Err(e) => r == Err::<(Vec<String>, Option<Frame>), _>(e),
        },
        r matches Ok((xs, _)) ==> (if variadic {
            xs@.len() >= 1
        } else {
            xs@.len() == n
        }),
        r matches Ok((_, y)) ==> (y is Some <==> with_value),
{
    let v = match verb_text(&frame) {
        Ok(v) => v,
        Err(e) => return Err(e),
    };
    let upper = uppercase(v.as_str());
    parse_operands_as(frame, upper.as_str(), verb, n, variadic, with_value)
}

/// The operands of the command in `frame` whose verb, upper-cased, is `upper`, read as
/// `parse_command_as` says.
pub fn parse_operands_as(
    frame: Frame,
    upper: &str,
    verb: &str,
    n: usize,
    variadic: bool,
    with_value: bool,
) -> (r: Result<(Vec<String>, Option<Frame>), ParseError>)
    ensures
        match parse_command_as(frame@, upper@, verb@, n as nat, variadic, with_value) {
            Ok(p) => r matches Ok((xs, y)) && (texts(xs@), operand_view(y)) == p,
            Err(e) => r == Err::<(Vec<String>, Option<Frame>), _>(e),
        },
        r matches Ok((xs, _)) ==> (if variadic {
            xs@.len() >= 1
        } else {
            xs@.len() == n
        }),
        r matches Ok((_, y)) ==> (y is Some <==> with_value),
{
    let ghost fv = frame@;
    let mut parse = match Parse::try_new(frame) {
        Ok(p) => p,
        Err(e) => return Err(e),
    };
    let ghost parts = parse.rest();
    let command = match parse.next_string() {
        Ok(c) => c,
        Err(e) => return Err(e),
    };
    if !text_eq(upper, verb) {
        return Err(ParseError::InvalidCommand);
    }
    let count: usize = if !variadic {
        n
    } else if parse.length() >= 2 {
        parse.length() - 1
    } else {
        1
    };
    let mut strings: Vec<String> = Vec::new();
    let mut i: usize = 0;
    assert(parse.rest() =~= parts.skip(1));
    assert(texts(strings@) =~= seq![]);
    while i < count
        invariant
            i <= count,
            1 + i <= parts.len(),
            fv == frame@,
            command_parts(fv) == Ok::<_, ParseError>(parts),
            text_at(parts, 0) == Ok::<_, ParseError>(command@),
            upper@ == verb@,
            count == text_count(parts, n as nat, variadic),
            parse.total() == parts.len(),
            parse.rest() == parts.skip(1 + i),
            strings@.len() == i,
            texts_from(parts, 1, count as nat, seq![]) == texts_from(
                parts,
                1 + i,
                (count - i) as nat,
                texts(strings@),
            ),
        decreases count - i,
    {
        let ghost rest = parse.rest();
        proof {
            if 1 + i < parts.len() {
                assert(rest[0] == parts[1 + i as int]);
            }
        }
        let t = match parse.next_string() {
            Ok(t) => t,
            Err(e) => {
                assert(texts_from(parts, 1 + i, (count - i) as nat, texts(strings@)) == Err::<
                    Seq<Seq<char>>,
                    ParseError,
                >(e));
                return Err(e);
            },
        };
        let ghost before = strings@;
        strings.push(t);
        assert(texts(strings@) =~= texts(before).push(t@));
        assert(parse.rest() =~= parts.skip(1 + i + 1));
        i = i + 1;
    }
    let value = if with_value {
        match parse.next() {
            Ok(f) => Some(f),
            Err(e) => return Err(e),
        }
    } else {
        None
    };
    match parse.finish() {
        Ok(()) => Ok((strings, value)),
        Err(e) => Err(e),
    }
}


/// The operands of a command: its texts, and its last operand of any kind if it has one.
pub type Operands = (Seq<Seq<char>>, Option<Value>);

/// `r` is what reading a command with the given shape from `f` gives, as `parse_command` says.
pub open spec fn read_as<C: CommandOperands>(
    f: Value,
    verb: Seq<char>,
    n: nat,
    variadic: bool,
    with_value: bool,
    r: Result<C, ParseError>,
) -> bool {
    match parse_command(f, verb, n, variadic, with_value) {
        Ok(p) => r matches Ok(c) && c.operands() == p,
        Err(e) => r == Err::<C, _>(e),
    }
}

/// Commands, seen through their operands.
pub trait CommandOperands {
    spec fn operands(&self) -> Operands;
}

/// `GET key`: the scalar value of a key.
#[derive(Debug)]
pub struct Get {
    pub key: String,
}

impl CommandOperands for Get {
    open spec fn operands(&self) -> Operands {
        (seq![self.key@], None)
    }
}

impl Get {
    /// The command with the operands read from its frame.
    fn build(xs: Vec<String>, v: Option<Frame>) -> (c: Get)
        requires
            xs@.len() == 1,
            v is None,
        ensures
            c.operands() == (texts(xs@), operand_view(v)),
    {
        let key = xs[0].clone();
        let c = Get { key };
        assert(c.operands().0 =~= texts(xs@));
        c
    }

    /// Reads the command from `frame`.
    pub fn try_from(frame: Frame) -> (r: Result<Get, ParseError>)
        ensures
            read_as(frame@, "GET"@, 1, false, false, r),
    {
        match parse_operands(frame, "GET", 1, false, false) {
            Ok((xs, v)) => Ok(Get::build(xs, v)),
            Err(e) => Err(e),
        }
    }
}

/// `SET key value`: stores a scalar value.
#[derive(Debug)]
pub struct SetCommand {
    pub key: String,
    pub value: Frame,
}

impl CommandOperands for SetCommand {
    open spec fn operands(&self) -> Operands {
        (seq![self.key@], Some(self.value@))
    }
}

impl SetCommand {
    /// The command with the operands read from its frame.
    fn build(xs: Vec<String>, v: Option<Frame>) -> (c: SetCommand)
        requires
            xs@.len() == 1,
            v is Some,
        ensures
            c.operands() == (texts(xs@), operand_view(v)),
    {
        let key = xs[0].clone();
        let value = v.unwrap();
        let c = SetCommand { key, value };
        assert(c.operands().0 =~= texts(xs@));
        c
    }

    /// Reads the command from `frame`.
    pub fn try_from(frame: Frame) -> (r: Result<SetCommand, ParseError>)
        ensures
            read_as(frame@, "SET"@, 1, false, true, r),
    {
        match parse_operands(frame, "SET", 1, false, true) {
            Ok((xs, v)) => Ok(SetCommand::build(xs, v)),
            Err(e) => Err(e),
        }
    }
}

/// `ECHO value`: replies with its operand.
#[derive(Debug)]
pub struct Echo {
    pub message: Frame,
}

impl CommandOperands for Echo {
    open spec fn operands(&self) -> Operands {
        (seq![], Some(self.message@))
    }
}

impl Echo {
    /// The command with the operands read from its frame.
    fn build(xs: Vec<String>, v: Option<Frame>) -> (c: Echo)
        requires
            xs@.len() == 0,
            v is Some,
        ensures
            c.operands() == (texts(xs@), operand_view(v)),
    {
        let message = v.unwrap();
        let c = Echo { message };
        assert(c.operands().0 =~= texts(xs@));
        c
    }

    /// Reads the command from `frame`.
    pub fn try_from(frame: Frame) -> (r: Result<Echo, ParseError>)
        ensures
            read_as(frame@, "ECHO"@, 0, false, true, r),
    {
        match parse_operands(frame, "ECHO", 0, false, true) {
            Ok((xs, v)) => Ok(Echo::build(xs, v)),
            Err(e) => Err(e),
        }
    }
}

/// `HGET key field`: the value of a hash field.
#[derive(Debug)]
pub struct HGet {
    pub key: String,
    pub field: String,
}

impl CommandOperands for HGet {
    open spec fn operands(&self) -> Operands {
        (seq![self.key@, self.field@], None)
    }
}

impl HGet {
    /// The command with the operands read from its frame.
    fn build(xs: Vec<String>, v: Option<Frame>) -> (c: HGet)
        requires
            xs@.len() == 2,
            v is None,
        ensures
            c.operands() == (texts(xs@), operand_view(v)),
    {
        let key = xs[0].clone();
        let field = xs[1].clone();
        let c = HGet { key, field };
        assert(c.operands().0 =~= texts(xs@));
        c
    }

    /// Reads the command from `frame`.
    pub fn try_from(frame: Frame) -> (r: Result<HGet, ParseError>)
        ensures
            read_as(frame@, "HGET"@, 2, false, false, r),
    {
        match parse_operands(frame, "HGET", 2, false, false) {
            Ok((xs, v)) => Ok(HGet::build(xs, v)),
            Err(e) => Err(e),
        }
    }
}

/// `HSET key field value`: stores a hash field.
#[derive(Debug)]
pub struct HSet {
    pub key: String,
    pub field: String,
    pub value: Frame,
}

impl CommandOperands for HSet {
    open spec fn operands(&self) -> Operands {
        (seq![self.key@, self.field@], Some(self.value@))
    }
}

impl HSet {
    /// The command with the operands read from its frame.
    fn build(xs: Vec<String>, v: Option<Frame>) -> (c: HSet)
        requires
            xs@.len() == 2,
            v is Some,
        ensures
            c.operands() == (texts(xs@), operand_view(v)),
    {
        let key = xs[0].clone();
        let field = xs[1].clone();
        let value = v.unwrap();
        let c = HSet { key, field, value };
        assert(c.operands().0 =~= texts(xs@));
        c
    }

    /// Reads the command from `frame`.
    pub fn try_from(frame: Frame) -> (r: Result<HSet, ParseError>)
        ensures
            read_as(frame@, "HSET"@, 2, false, true, r),
    {
        match parse_operands(frame, "HSET", 2, false, true) {
            Ok((xs, v)) => Ok(HSet::build(xs, v)),
            Err(e) => Err(e),
        }
    }
}

/// `HGETALL key`: every field and value of a hash.
#[derive(Debug)]
pub struct HGetAll {
    pub key: String,
}

impl CommandOperands for HGetAll {
    open spec fn operands(&self) -> Operands {
        (seq![self.key@], None)
    }
}

impl HGetAll {
    /// The command with the operands read from its frame.
    fn build(xs: Vec<String>, v: Option<Frame>) -> (c: HGetAll)
        requires
            xs@.len() == 1,
            v is None,
        ensures
            c.operands() == (texts(xs@), operand_view(v)),
    {
        let key = xs[0].clone();
        let c = HGetAll { key };
        assert(c.operands().0 =~= texts(xs@));
        c
    }

    /// Reads the command from `frame`.
    pub fn try_from(frame: Frame) -> (r: Result<HGetAll, ParseError>)
        ensures
            read_as(frame@, "HGETALL"@, 1, false, false, r),
    {
        match parse_operands(frame, "HGETALL", 1, false, false) {
            Ok((xs, v)) => Ok(HGetAll::build(xs, v)),
            Err(e) => Err(e),
        }
    }
}

/// `SADD key member`: adds a set member.
#[derive(Debug)]
pub struct Sadd {
    pub key: String,
    pub field: String,
}

impl CommandOperands for Sadd {
    open spec fn operands(&self) -> Operands {
        (seq![self.key@, self.field@], None)
    }
}

impl Sadd {
    /// The command with the operands read from its frame.
    fn build(xs: Vec<String>, v: Option<Frame>) -> (c: Sadd)
        requires
            xs@.len() == 2,
            v is None,
        ensures
            c.operands() == (texts(xs@), operand_view(v)),
    {
        let key = xs[0].clone();
        let field = xs[1].clone();
        let c = Sadd { key, field };
        assert(c.operands().0 =~= texts(xs@));
        c
    }

    /// Reads the command from `frame`.
    pub fn try_from(frame: Frame) -> (r: Result<Sadd, ParseError>)
        ensures
            read_as(frame@, "SADD"@, 2, false, false, r),
    {
        match parse_operands(frame, "SADD", 2, false, false) {
            Ok((xs, v)) => Ok(Sadd::build(xs, v)),
            Err(e) => Err(e),
        }
    }
}

/// `SMEMBERS key`: the members of a set.
#[derive(Debug)]
pub struct Smembers {
    pub key: String,
}

impl CommandOperands for Smembers {
    open spec fn operands(&self) -> Operands {
        (seq![self.key@], None)
    }
}

impl Smembers {
    /// The command with the operands read from its frame.
    fn build(xs: Vec<String>, v: Option<Frame>) -> (c: Smembers)
        requires
            xs@.len() == 1,
            v is None,
        ensures
            c.operands() == (texts(xs@), operand_view(v)),
    {
        let key = xs[0].clone();
        let c = Smembers { key };
        assert(c.operands().0 =~= texts(xs@));
        c
    }

    /// Reads the command from `frame`.
    pub fn try_from(frame: Frame) -> (r: Result<Smembers, ParseError>)
        ensures
            read_as(frame@, "SMEMBERS"@, 1, false, false, r),
    {
        match parse_operands(frame, "SMEMBERS", 1, false, false) {
            Ok((xs, v)) => Ok(Smembers::build(xs, v)),
            Err(e) => Err(e),
        }
    }
}

/// `SISMEMBER key member`: whether a set holds a member.
#[derive(Debug)]
pub struct Sismember {
    pub key: String,
    pub field: String,
}

impl CommandOperands for Sismember {
    open spec fn operands(&self) -> Operands {
        (seq![self.key@, self.field@], None)
    }
}

impl Sismember {
    /// The command with the operands read from its frame.
    fn build(xs: Vec<String>, v: Option<Frame>) -> (c: Sismember)
        requires
            xs@.len() == 2,
            v is None,
        ensures
            c.operands() == (texts(xs@), operand_view(v)),
    {
        let key = xs[0].clone();
        let field = xs[1].clone();
        let c = Sismember { key, field };
        assert(c.operands().0 =~= texts(xs@));
        c
    }

    /// Reads the command from `frame`.
    pub fn try_from(frame: Frame) -> (r: Result<Sismember, ParseError>)
        ensures
            read_as(frame@, "SISMEMBER"@, 2, false, false, r),
    {
        match parse_operands(frame, "SISMEMBER", 2, false, false) {
            Ok((xs, v)) => Ok(Sismember::build(xs, v)),
            Err(e) => Err(e),
        }
    }
}

/// `HMGET key field...`: the values of several hash fields.
#[derive(Debug)]
pub struct Hmget {
    pub key: String,
    pub fields: Vec<String>,
}

impl CommandOperands for Hmget {
    open spec fn operands(&self) -> Operands {
        (seq![self.key@] + texts(self.fields@), None)
    }
}

impl Hmget {
    /// The command with the operands read from its frame: the key, then the fields.
    fn build(xs: Vec<String>) -> (c: Hmget)
        requires
            xs@.len() >= 1,
        ensures
            c.operands() == (texts(xs@), None::<Value>),
    {
        let mut xs = xs;
        let ghost all = xs@;
        let fields = xs.split_off(1);
        let key = xs[0].clone();
        let c = Hmget { key, fields };
        assert(c.operands().0 =~= texts(all));
        c
    }

    /// Reads the command from `frame`: every element after the key is a field.
    pub fn try_from(frame: Frame) -> (r: Result<Hmget, ParseError>)
        ensures
            read_as(frame@, "HMGET"@, 1, true, false, r),
    {
        match parse_operands(frame, "HMGET", 1, true, false) {
            Ok((xs, _)) => Ok(Hmget::build(xs)),
            Err(e) => Err(e),
        }
    }
}

/// One command of the protocol.
#[derive(Debug)]
pub enum Command {
    Get(Get),
    SetCommand(SetCommand),
    HGet(HGet),
    HSet(HSet),
    HGetAll(HGetAll),
    Echo(Echo),
    Hmget(Hmget),
    Sadd(Sadd),
    Smembers(Smembers),
    Sismember(Sismember),
}

/// The commands, by kind.
pub enum CommandKind {
    Get,
    SetCommand,
    HGet,
    HSet,
    HGetAll,
    Echo,
    Hmget,
    Sadd,
    Smembers,
    Sismember,
}

/// The command that an upper-case verb names.
pub open spec fn verb_kind(verb: Seq<char>) -> Option<CommandKind> {
    if verb == "GET"@ {
        Some(CommandKind::Get)
    } else if verb == "SET"@ {
        Some(CommandKind::SetCommand)
    } else if verb == "HGET"@ {
        Some(CommandKind::HGet)
    } else if verb == "HSET"@ {
        Some(CommandKind::HSet)
    } else if verb == "HGETALL"@ {
        Some(CommandKind::HGetAll)
    } else if verb == "ECHO"@ {
        Some(CommandKind::Echo)
    } else if verb == "HMGET"@ {
        Some(CommandKind::Hmget)
    } else if verb == "SADD"@ {
        Some(CommandKind::Sadd)
    } else if verb == "SMEMBERS"@ {
        Some(CommandKind::Smembers)
    } else if verb == "SISMEMBER"@ {
        Some(CommandKind::Sismember)
    } else {
        None
    }
}

/// The shape of a command: its number of text operands, whether it takes every remaining
/// element as text, and whether a last operand of any kind follows.
pub open spec fn kind_shape(k: CommandKind) -> (nat, bool, bool) {
    match k {
        CommandKind::Get => (1, false, false),
        CommandKind::SetCommand => (1, false, true),
        CommandKind::HGet => (2, false, false),
        CommandKind::HSet => (2, false, true),
        CommandKind::HGetAll => (1, false, false),
        CommandKind::Echo => (0, false, true),
        CommandKind::Hmget => (1, true, false),
        CommandKind::Sadd => (2, false, false),
        CommandKind::Smembers => (1, false, false),
        CommandKind::Sismember => (2, false, false),
    }
}

/// The verb of a command frame, or why it has none.
pub open spec fn verb_of(f: Value) -> Result<Seq<char>, ParseError> {
    match command_parts(f) {
        Err(e) => Err(e),
        Ok(parts) => match text_at(parts, 0) {
            Ok(v) => Ok(v),
            Err(_) => Err(ParseError::InvalidCommand),
        },
    }
}

/// `r` is the command that the upper-case verb `upper` selects, read from `f`.
pub open spec fn command_read(f: Value, upper: Seq<char>, r: Result<Command, ParseError>) -> bool {
    match verb_kind(upper) {
        None => r == Err::<Command, _>(ParseError::InvalidCommand),
        Some(k) => {
            let (n, variadic, with_value) = kind_shape(k);
            match parse_command_as(f, upper, upper, n, variadic, with_value) {
                Ok(p) => r matches Ok(c) && c.kind() == k && c.operands() == p,
                Err(e) => r == Err::<Command, _>(e),
            }
        },
    }
}

impl CommandOperands for Command {
    open spec fn operands(&self) -> Operands {
        match self {
            Command::Get(c) => c.operands(),
            Command::SetCommand(c) => c.operands(),
            Command::HGet(c) => c.operands(),
            Command::HSet(c) => c.operands(),
            Command::HGetAll(c) => c.operands(),
            Command::Echo(c) => c.operands(),
            Command::Hmget(c) => c.operands(),
            Command::Sadd(c) => c.operands(),
            Command::Smembers(c) => c.operands(),
            Command::Sismember(c) => c.operands(),
        }
    }
}

/// The verb of a command frame, without reading the frame.
fn peek_verb(frame: &Frame) -> (r: Result<String, ParseError>)
    ensures
        match verb_of(frame@) {
            Ok(v) => r matches Ok(s) && s@ == v,
            Err(e) => r == Err::<String, _>(e),
        },
{
    match frame {
        Frame::Array(a) => {
            proof {
                lemma_frames_values(a.inner@);
            }
            if a.null || a.inner.len() == 0 {
                Err(ParseError::InvalidCommand)
            } else {
                match frame_text(&a.inner[0]) {
                    Ok(t) => Ok(t),
                    Err(_) => Err(ParseError::InvalidCommand),
                }
            }
        },
        _ => Err(ParseError::InvalidType),
    }
}

impl Command {
    /// The kind of the command.
    pub open spec fn kind(&self) -> CommandKind {
        match self {
            Command::Get(_) => CommandKind::Get,
            Command::SetCommand(_) => CommandKind::SetCommand,
            Command::HGet(_) => CommandKind::HGet,
            Command::HSet(_) => CommandKind::HSet,
            Command::HGetAll(_) => CommandKind::HGetAll,
            Command::Echo(_) => CommandKind::Echo,
            Command::Hmget(_) => CommandKind::Hmget,
            Command::Sadd(_) => CommandKind::Sadd,
            Command::Smembers(_) => CommandKind::Smembers,
            Command::Sismember(_) => CommandKind::Sismember,
        }
    }

    /// Reads the command that the upper-case verb `upper` names from `frame`.
    pub fn dispatch(upper: &str, frame: Frame) -> (r: Result<Command, ParseError>)
        ensures
            command_read(frame@, upper@, r),
    {
        if text_eq(upper, "GET") {
            match parse_operands_as(frame, upper, "GET", 1, false, false) {
                Ok((xs, v)) => Ok(Command::Get(Get::build(xs, v))),
                Err(e) => Err(e),
            }
        } else if text_eq(upper, "SET") {
            match parse_operands_as(frame, upper, "SET", 1, false, true) {
                Ok((xs, v)) => Ok(Command::SetCommand(SetCommand::build(xs, v))),
                Err(e) => Err(e),
            }
        } else if text_eq(upper, "HGET") {
            match parse_operands_as(frame, upper, "HGET", 2, false, false) {
                Ok((xs, v)) => Ok(Command::HGet(HGet::build(xs, v))),
                Err(e) => Err(e),
            }
        } else if text_eq(upper, "HSET") {
            match parse_operands_as(frame, upper, "HSET", 2, false, true) {
                Ok((xs, v)) => Ok(Command::HSet(HSet::build(xs, v))),
                Err(e) => Err(e),
            }
        } else if text_eq(upper, "HGETALL") {
            match parse_operands_as(frame, upper, "HGETALL", 1, false, false) {
                Ok((xs, v)) => Ok(Command::HGetAll(HGetAll::build(xs, v))),
                Err(e) => Err(e),
            }
        } else if text_eq(upper, "ECHO") {
            match parse_operands_as(frame, upper, "ECHO", 0, false, true) {
                Ok((xs, v)) => Ok(Command::Echo(Echo::build(xs, v))),
                Err(e) => Err(e),
            }
        } else if text_eq(upper, "HMGET") {
            match parse_operands_as(frame, upper, "HMGET", 1, true, false) {
                Ok((xs, _v)) => Ok(Command::Hmget(Hmget::build(xs))),
                Err(e) => Err(e),
            }
        } else if text_eq(upper, "SADD") {
            match parse_operands_as(frame, upper, "SADD", 2, false, false) {
                Ok((xs, v)) => Ok(Command::Sadd(Sadd::build(xs, v))),
                Err(e) => Err(e),
            }
        } else if text_eq(upper, "SMEMBERS") {
            match parse_operands_as(frame, upper, "SMEMBERS", 1, false, false) {
                Ok((xs, v)) => Ok(Command::Smembers(Smembers::build(xs, v))),
                Err(e) => Err(e),
            }
        } else if text_eq(upper, "SISMEMBER") {
            match parse_operands_as(frame, upper, "SISMEMBER", 2, false, false) {
                Ok((xs, v)) => Ok(Command::Sismember(Sismember::build(xs, v))),
                Err(e) => Err(e),
            }
        } else {
            Err(ParseError::InvalidCommand)
        }
    }

    /// Reads a command from `frame`, choosing it by its verb in any letter case.
    pub fn try_from(frame: Frame) -> (r: Result<Command, ParseError>)
        ensures
            match verb_of(frame@) {
                Err(e) => r == Err::<Command, _>(e),
                Ok(v) => command_read(frame@, upper_of(v), r),
            },
    {
        let verb = match peek_verb(&frame) {
            Ok(v) => v,
            Err(e) => return Err(e),
        };
        let upper = uppercase(verb.as_str());
        Command::dispatch(upper.as_str(), frame)
    }
}


impl Get {
    /// The stored value of the key, or null.
    pub fn execute(&self, backend: Backend) -> (r: Frame) {
        value_or_null(backend.get(self.key.as_str()))
    }
}

impl SetCommand {
    /// Stores the value under the key and replies `OK`.
    pub fn execute(&self, backend: Backend) -> (r: Frame)
        ensures
            r@ == ok_reply(),
    {
        backend.set(self.key.as_str(), self.value.duplicate());
        ok()
    }
}

impl Echo {
    /// Replies with the operand.
    pub fn execute(&self, _backend: Backend) -> (r: Frame)
        ensures
            r@ == self.message@,
    {
        self.message.duplicate()
    }
}

impl HGet {
    /// The stored value of the field, or null.
    pub fn execute(&self, backend: Backend) -> (r: Frame) {
        value_or_null(backend.hget(self.key.as_str(), self.field.as_str()))
    }
}

impl HSet {
    /// Stores the field and replies `1`.
    pub fn execute(&self, backend: Backend) -> (r: Frame)
        ensures
            r@ == Value::Integer(1),
    {
        backend.hset(self.key.as_str(), self.field.as_str(), self.value.duplicate());
        Frame::integer(1)
    }
}

impl HGetAll {
    /// Every field and value of the hash laid out flat, or null when there is no hash.
    pub fn execute(&self, backend: Backend) -> (r: Frame)
        ensures
            r@ is Null || r@ is Array,
    {
        entries_reply(backend.hgetall(self.key.as_str()))
    }
}

impl Hmget {
    /// The value of each field in order, null for a missing one.
    pub fn execute(&self, backend: Backend) -> (r: Frame)
        ensures
            r@ matches Value::Array(Some(items)) && items.len() == self.fields@.len(),
    {
        let mut values: Vec<Option<Frame>> = Vec::new();
        let mut i: usize = 0;
        while i < self.fields.len()
            invariant
                i <= self.fields@.len(),
                values@.len() == i,
            decreases self.fields.len() - i,
        {
            values.push(backend.hget(self.key.as_str(), self.fields[i].as_str()));
            i = i + 1;
        }
        values_reply(values)
    }
}

impl Sadd {
    /// Adds the member; replies `1` when it is new, `0` when it was present.
    pub fn execute(&self, backend: Backend) -> (r: Frame)
        ensures
            r@ == Value::Integer(0) || r@ == Value::Integer(1),
    {
        flag_reply(backend.sadd(self.key.as_str(), self.field.as_str()))
    }
}

impl Smembers {
    /// Every member of the set, or an empty array when there is no set.
    pub fn execute(&self, backend: Backend) -> (r: Frame)
        ensures
            r@ matches Value::Array(Some(_)),
    {
        members_reply(backend.smembers(self.key.as_str()))
    }
}

impl Sismember {
    /// `1` when the set holds the member, else `0`.
    pub fn execute(&self, backend: Backend) -> (r: Frame)
        ensures
            r@ == Value::Integer(0) || r@ == Value::Integer(1),
    {
        flag_reply(backend.sismember(self.key.as_str(), self.field.as_str()))
    }
}

impl Command {
    /// Runs the command against the store and gives the reply.
    pub fn execute(&self, backend: Backend) -> (r: Frame)
        ensures
            self is SetCommand ==> r@ == ok_reply(),
            self is HSet ==> r@ == Value::Integer(1),
            self matches Command::Echo(c) ==> r@ == c.message@,
            self is Sadd || self is Sismember ==> r@ == Value::Integer(0) || r@ == Value::Integer(1),
    {
        match self {
            Command::Get(c) => c.execute(backend),
            Command::SetCommand(c) => c.execute(backend),
            Command::HGet(c) => c.execute(backend),
            Command::HSet(c) => c.execute(backend),
            Command::HGetAll(c) => c.execute(backend),
            Command::Echo(c) => c.execute(backend),
            Command::Hmget(c) => c.execute(backend),
            Command::Sadd(c) => c.execute(backend),
            Command::Smembers(c) => c.execute(backend),
            Command::Sismember(c) => c.execute(backend),
        }
    }
}

} // verus!
