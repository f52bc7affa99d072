//! Requests: the bytes a client sends for one command, and their decoding.
//!
//! A request is a `u32` count of fields followed by that many fields, each a
//! `u32` length and that many bytes. The first field is the command's name
//! (`get`, `set` or `del`), the others its arguments in order.

use crate::command::{Command, CommandView};
use crate::text::{text_of, utf8_lossy};
use crate::wire::{field_at, field_bytes, le_bytes, lemma_field_at_written, lemma_le_bytes, read_u32, u32_at, write_u32};
use vstd::prelude::*;
use vstd::utf8::{encode_utf8, encode_utf8_decode_utf8, encode_utf8_valid_utf8};

verus! {

/// The field of a frame that a decoder found missing.
#[derive(Clone, Copy, Debug, PartialEq, Eq, Structural)]
pub enum Field {
    /// A request's command name.
    Name,
    /// The key argument.
    Key,
    /// The value argument of `set`.
    Value,
    /// A response's status code.
    Status,
    /// A response's message.
    Message,
}

/// Why bytes could not be decoded.
#[derive(Clone, Copy, Debug, PartialEq, Eq, Structural)]
pub enum DecodeError {
    /// The bytes end before the field does.
    MalformedPayload(Field),
    /// The command name is none of `get`, `set` and `del`.
    UnknownCommand,
    /// The status code is not one of the protocol's.
    UnknownStatus,
}

pub open spec fn error_text(e: DecodeError) -> Seq<char> {
    match e {
        DecodeError::MalformedPayload(Field::Name) => "Payload doesn't contain any command."@,
        DecodeError::MalformedPayload(Field::Key) => "Missing key argument."@,
        DecodeError::MalformedPayload(Field::Value) => "Missing value argument."@,
        DecodeError::MalformedPayload(Field::Status) => "Missing status code."@,
        DecodeError::MalformedPayload(Field::Message) => "Missing message."@,
        DecodeError::UnknownCommand => "Invalid command."@,
        DecodeError::UnknownStatus => "Invalid status code."@,
    }
}

impl DecodeError {
    /// A sentence that says what went wrong.
    pub fn message(&self) -> (r: String)
        ensures
            r@ == error_text(*self),
    {
        match self {
            DecodeError::MalformedPayload(Field::Name) => "Payload doesn't contain any command.".to_owned(),
            DecodeError::MalformedPayload(Field::Key) => "Missing key argument.".to_owned(),
            DecodeError::MalformedPayload(Field::Value) => "Missing value argument.".to_owned(),
            DecodeError::MalformedPayload(Field::Status) => "Missing status code.".to_owned(),
            DecodeError::MalformedPayload(Field::Message) => "Missing message.".to_owned(),
            DecodeError::UnknownCommand => "Invalid command.".to_owned(),
            DecodeError::UnknownStatus => "Invalid status code.".to_owned(),
        }
    }
}

/// A command could not be encoded: one of its texts is longer than a
/// field's `u32` length can say.
#[derive(Clone, Copy, Debug, PartialEq, Eq, Structural)]
pub enum EncodeError {
    FieldTooLong,
}

/// The bytes of a command's name on the wire.
pub open spec fn name_bytes(c: CommandView) -> Seq<u8> {
    match c {
        CommandView::Get { .. } => seq![103u8, 101u8, 116u8],
        CommandView::Put { .. } => seq![115u8, 101u8, 116u8],
        CommandView::Delete { .. } => seq![100u8, 101u8, 108u8],
    }
}

/// Each of the command's texts fits in a field.
pub open spec fn encodable(c: CommandView) -> bool {
    match c {
        CommandView::Get { key } => encode_utf8(key).len() <= u32::MAX,
        CommandView::Put { key, value } => encode_utf8(key).len() <= u32::MAX && encode_utf8(
            value,
        ).len() <= u32::MAX,
        CommandView::Delete { key } => encode_utf8(key).len() <= u32::MAX,
    }
}

/// The bytes of the request for a command: the number of fields, the name,
/// then the UTF-8 of each argument.
pub open spec fn encode_request(c: CommandView) -> Seq<u8> {
    match c {
        CommandView::Get { key } => le_bytes(2) + field_bytes(name_bytes(c)) + field_bytes(
            encode_utf8(key),
        ),
        CommandView::Put { key, value } => le_bytes(3) + field_bytes(name_bytes(c)) + field_bytes(
            encode_utf8(key),
        ) + field_bytes(encode_utf8(value)),
        CommandView::Delete { key } => le_bytes(2) + field_bytes(name_bytes(c)) + field_bytes(
            encode_utf8(key),
        ),
    }
}

/// The command that the fields from `pos` on describe: the name, then as
/// many arguments as that command takes. The count before them is not
/// consulted, and fields after them are ignored.
pub open spec fn decode_request(s: Seq<u8>, pos: int) -> Result<CommandView, DecodeError> {
    match field_at(s, pos) {
        None => Err(DecodeError::MalformedPayload(Field::Name)),
        Some((name, name_end)) => {
            if name == seq![103u8, 101u8, 116u8] || name == seq![100u8, 101u8, 108u8] {
                match field_at(s, name_end) {
                    None => Err(DecodeError::MalformedPayload(Field::Key)),
                    Some((key, _)) => if name == seq![103u8, 101u8, 116u8] {
                        Ok(CommandView::Get { key: text_of(key) })
                    } else {
                        Ok(CommandView::Delete { key: text_of(key) })
                    },
                }
            } else if name == seq![115u8, 101u8, 116u8] {
                match field_at(s, name_end) {
                    None => Err(DecodeError::MalformedPayload(Field::Key)),
                    Some((key, key_end)) => match field_at(s, key_end) {
                        None => Err(DecodeError::MalformedPayload(Field::Value)),
                        Some((value, _)) => Ok(
                            CommandView::Put { key: text_of(key), value: text_of(value) },
                        ),
                    },
                }
            } else {
                Err(DecodeError::UnknownCommand)
            }
        },
    }
}

/// A decode result as texts.
pub open spec fn decoded(r: Result<Command, DecodeError>) -> Result<CommandView, DecodeError> {
    match r {
        Ok(c) => Ok(c@),
        Err(e) => Err(e),
    }
}

/// Decoding the request encoded for a command gives the command back.
pub proof fn lemma_request_round_trip(c: CommandView)
    requires
        encodable(c),
    ensures
        decode_request(encode_request(c), 4) == Ok::<CommandView, DecodeError>(c),
{
    broadcast use encode_utf8_valid_utf8, encode_utf8_decode_utf8;

    let s = encode_request(c);
    let name = name_bytes(c);
    lemma_le_bytes(2);
    lemma_le_bytes(3);
    lemma_le_bytes(name.len() as u32);
    let (key, count) = match c {
        CommandView::Get { key } => (key, 2u32),
        CommandView::Put { key, .. } => (key, 3u32),
        CommandView::Delete { key } => (key, 2u32),
    };
    let kb = encode_utf8(key);
    lemma_le_bytes(kb.len() as u32);
    let name_end: int = 8 + name.len() as int;
    let key_end: int = name_end + 4 + kb.len() as int;
    let head = le_bytes(count) + field_bytes(name) + field_bytes(kb);
    assert(s.subrange(0, head.len() as int) =~= head);
    assert(head.subrange(4, name_end) =~= field_bytes(name));
    assert(s.subrange(4, name_end) =~= field_bytes(name));
    lemma_field_at_written(s, 4, name);
    assert(s.subrange(name_end, key_end) =~= field_bytes(kb));
    lemma_field_at_written(s, name_end, kb);
    if let CommandView::Put { value, .. } = c {
        let vb = encode_utf8(value);
        lemma_le_bytes(vb.len() as u32);
        assert(s.subrange(key_end, key_end + 4 + vb.len() as int) =~= field_bytes(vb));
        lemma_field_at_written(s, key_end, vb);
    }
}

/// A request: its bytes, and a cursor that decoding moves forward.
#[derive(Debug, PartialEq, Eq)]
pub struct Request {
    payload: Vec<u8>,
    pointer_pos: usize,
}

impl Request {
    /// The request's bytes.
    pub closed spec fn bytes(&self) -> Seq<u8> {
        self.payload@
    }

    /// Where decoding reads next.
    pub closed spec fn cursor(&self) -> int {
        self.pointer_pos as int
    }

    /// An empty request.
    pub fn new() -> (r: Request)
        ensures
            r.bytes() == Seq::<u8>::empty(),
            r.cursor() == 0,
    {
        Request { payload: Vec::new(), pointer_pos: 0 }
    }

    /// A request over the given bytes, its cursor just past the count.
    pub fn new_with_payload(payload: Vec<u8>) -> (r: Request)
        ensures
            r.bytes() == payload@,
            r.cursor() == 4,
    {
        Request { payload, pointer_pos: 4 }
    }

    /// The request's bytes.
    pub fn payload(&self) -> (r: &[u8])
        ensures
            r@ == self.bytes(),
    {
        self.payload.as_slice()
    }

    /// The request's bytes, by value.
    pub fn into_payload(self) -> (r: Vec<u8>)
        ensures
            r@ == self.bytes(),
    {
        self.payload
    }

    /// The count of fields at the start of the request.
    pub fn header(&mut self) -> (r: u32)
        requires
            old(self).bytes().len() >= 4,
        ensures
            r == u32_at(old(self).bytes(), 0),
            *final(self) == *old(self),
    {
        read_u32(self.payload.as_slice(), 0)
    }

    /// Reads the length of the next field and moves past it.
    fn next_msg_len(&mut self) -> (r: Option<u32>)
        ensures
            final(self).bytes() == old(self).bytes(),
            old(self).cursor() + 4 <= old(self).bytes().len() ==> {
                &&& r == Some(u32_at(old(self).bytes(), old(self).cursor()))
                &&& final(self).cursor() == old(self).cursor() + 4
            },
            old(self).cursor() + 4 > old(self).bytes().len() ==> r is None && *final(self)
                == *old(self),
    {
        let len = self.payload.len();
        if self.pointer_pos > len || len - self.pointer_pos < 4 {
            return None;
        }
        let n = read_u32(self.payload.as_slice(), self.pointer_pos);
        self.pointer_pos = self.pointer_pos + 4;
        Some(n)
    }

    /// Finds where the next field's bytes lie and moves past it. When the
    /// bytes end inside the field, the cursor is left past its length, if
    /// that was complete.
    fn next_range(&mut self) -> (r: Option<(usize, usize)>)
        ensures
            final(self).bytes() == old(self).bytes(),
            match field_at(old(self).bytes(), old(self).cursor()) {
                Some((body, next)) => {
                    &&& r matches Some((from, to))
                    &&& from == old(self).cursor() + 4
                    &&& to == next
                    &&& body == old(self).bytes().subrange(from as int, to as int)
                    &&& final(self).cursor() == next
                },
                None => {
                    &&& r is None
                    &&& final(self).cursor() == if old(self).cursor() + 4 <= old(
                        self,
                    ).bytes().len() {
                        old(self).cursor() + 4
                    } else {
                        old(self).cursor()
                    }
                },
            },
    {
        let n = match self.next_msg_len() {
            Some(n) => n as usize,
            None => {
                return None;
            },
        };
        let len = self.payload.len();
        if len - self.pointer_pos < n {
            return None;
        }
        let from = self.pointer_pos;
        self.pointer_pos = self.pointer_pos + n;
        Some((from, self.pointer_pos))
    }

    /// Reads the next field as text and moves past it; `None` when the bytes
    /// end inside the field.
    pub fn next_msg(&mut self) -> (r: Option<String>)
        ensures
            final(self).bytes() == old(self).bytes(),
            match field_at(old(self).bytes(), old(self).cursor()) {
                Some((body, next)) => {
                    &&& r matches Some(text)
                    &&& text@ == text_of(body)
                    &&& final(self).cursor() == next
                },
                None => {
                    &&& r is None
                    &&& final(self).cursor() == if old(self).cursor() + 4 <= old(
                        self,
                    ).bytes().len() {
                        old(self).cursor() + 4
                    } else {
                        old(self).cursor()
                    }
                },
            },
    {
        match self.next_range() {
            Some((from, to)) => {
                let body = vstd::slice::slice_subrange(self.payload.as_slice(), from, to);
                Some(utf8_lossy(body))
            },
            None => None,
        }
    }

    /// Whether the bytes in `[from, to)` are the three given ones.
    fn spells(&self, from: usize, to: usize, a: u8, b: u8, c: u8) -> (r: bool)
        requires
            from <= to <= self.bytes().len(),
        ensures
            r == (self.bytes().subrange(from as int, to as int) == seq![a, b, c]),
    {
        let ghost w = self.payload@.subrange(from as int, to as int);
        if to - from != 3 {
            assert(w.len() != seq![a, b, c].len());
            return false;
        }
        assert(w[0] == self.payload@[from as int] && w[1] == self.payload@[from + 1] && w[2]
            == self.payload@[from + 2]);
        let r = self.payload[from] == a && self.payload[from + 1] == b && self.payload[from + 2]
            == c;
        if r {
            assert(w =~= seq![a, b, c]);
        } else {
            assert(seq![a, b, c][0] == a && seq![a, b, c][1] == b && seq![a, b, c][2] == c);
        }
        r
    }

    /// Decodes the command that the fields from the cursor on describe.
    pub fn to_command(&mut self) -> (r: Result<Command, DecodeError>)
        ensures
            decoded(r) == decode_request(old(self).bytes(), old(self).cursor()),
    {
        let (from, to) = match self.next_range() {
            Some(range) => range,
            None => {
                return Err(DecodeError::MalformedPayload(Field::Name));
            },
        };
        let is_get = self.spells(from, to, 103, 101, 116);
        let is_set = self.spells(from, to, 115, 101, 116);
        let is_del = self.spells(from, to, 100, 101, 108);
        if !is_get && !is_set && !is_del {
            return Err(DecodeError::UnknownCommand);
        }
        let key = match self.next_msg() {
            Some(key) => key,
            None => {
                return Err(DecodeError::MalformedPayload(Field::Key));
            },
        };
        if is_get {
            return Ok(Command::Get(key));
        }
        if is_del {
            return Ok(Command::Delete(key));
        }
        match self.next_msg() {
            Some(value) => Ok(Command::Put(key, value)),
            None => Err(DecodeError::MalformedPayload(Field::Value)),
        }
    }
}

impl Default for Request {
    /// An empty request, as `Request::new` makes.
    fn default() -> (r: Request)
        ensures
            r.bytes() == Seq::<u8>::empty(),
            r.cursor() == 0,
    {
        Request::new()
    }
}

impl TryFrom<Request> for Command {
    type Error = DecodeError;

    /// Decodes the command of a request; see `Request::to_command`.
    fn try_from(request: Request) -> (r: Result<Command, DecodeError>)
        ensures
            decoded(r) == decode_request(request.bytes(), request.cursor()),
    {
        let mut request = request;
        request.to_command()
    }
}

/// The exact `String`s of a decoded command are fixed only up to their
/// text, so the conversion is described by the `ensures` of `try_from`
/// above rather than by a spec function of this trait.
impl vstd::std_specs::convert::TryFromSpecImpl<Request> for Command {
    open spec fn obeys_try_from_spec() -> bool {
        false
    }

    open spec fn try_from_spec(v: Request) -> Result<Command, DecodeError> {
        Err(DecodeError::UnknownCommand)
    }
}

/// Appends a field: the length of `body`, then `body`.
fn write_field(out: &mut Vec<u8>, body: &[u8])
    requires
        body@.len() <= u32::MAX,
    ensures
        final(out)@ == old(out)@ + field_bytes(body@),
{
    write_u32(out, body.len() as u32);
    out.extend_from_slice(body);
    assert(final(out)@ =~= old(out)@ + field_bytes(body@));
}

impl Command {
    /// The request that carries this command, or an error when one of its
    /// texts is too long for a field.
    pub fn to_request(&self) -> (r: Result<Request, EncodeError>)
        ensures
            match r {
                Ok(req) => encodable(self@) && req.bytes() == encode_request(self@) && req.cursor()
                    == 4,
                Err(_) => !encodable(self@),
            },
    {
        let mut payload: Vec<u8> = Vec::new();
        match self {
            Command::Get(key) | Command::Delete(key) => {
                let kb = key.as_str().as_bytes();
                if kb.len() > u32::MAX as usize {
                    return Err(EncodeError::FieldTooLong);
                }
                write_u32(&mut payload, 2);
                let name: [u8; 3] = if let Command::Get(_) = self {
                    [103, 101, 116]
                } else {
                    [100, 101, 108]
                };
                write_field(&mut payload, name.as_slice());
                write_field(&mut payload, kb);
            },
            Command::Put(key, value) => {
                let kb = key.as_str().as_bytes();
                let vb = value.as_str().as_bytes();
                if kb.len() > u32::MAX as usize || vb.len() > u32::MAX as usize {
                    return Err(EncodeError::FieldTooLong);
                }
                write_u32(&mut payload, 3);
                let name: [u8; 3] = [115, 101, 116];
                write_field(&mut payload, name.as_slice());
                write_field(&mut payload, kb);
                write_field(&mut payload, vb);
            },
        }
        Ok(Request::new_with_payload(payload))
    }
}

} // verus!
