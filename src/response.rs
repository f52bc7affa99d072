//! Responses: a status code and an optional message.
//!
//! On the wire a response is the status code as a `u32`, then the message
//! as a field: its length, then its UTF-8. A length of 0 means no message.

use crate::request::{DecodeError, Field};
use crate::text::{text_of, utf8_lossy};
use crate::wire::{field_at, field_bytes, le_bytes, lemma_field_at_written, lemma_le_bytes, lemma_u32_at_le_bytes, read_u32, u32_at, write_u32};
use vstd::prelude::*;
use vstd::utf8::{encode_utf8, encode_utf8_decode_utf8, encode_utf8_valid_utf8};

verus! {

/// The outcome of a command.
#[derive(Clone, Copy, Debug, PartialEq, Eq, Structural)]
pub enum StatusCodes {
    /// The command succeeded.
    Success,
    /// The request was malformed, or the key was not there.
    ClientErr,
    /// The server could not carry out the request.
    ServerErr,
    /// The key was not there; part of the protocol, though this server
    /// answers a missing key with `ClientErr`.
    ErrNotFound,
}

/// The number that stands for a status code on the wire.
pub open spec fn code_of(s: StatusCodes) -> u32 {
    match s {
        StatusCodes::Success => 0,
        StatusCodes::ClientErr => 1,
        StatusCodes::ServerErr => 2,
        StatusCodes::ErrNotFound => 3,
    }
}

/// The status code a number stands for, if any.
pub open spec fn status_of(code: u32) -> Option<StatusCodes> {
    if code == 0 {
        Some(StatusCodes::Success)
    } else if code == 1 {
        Some(StatusCodes::ClientErr)
    } else if code == 2 {
        Some(StatusCodes::ServerErr)
    } else if code == 3 {
        Some(StatusCodes::ErrNotFound)
    } else {
        None
    }
}

/// How a status code reads to a person.
pub open spec fn status_text(s: StatusCodes) -> Seq<char> {
    match s {
        StatusCodes::Success => "OK"@,
        StatusCodes::ClientErr => "Client error"@,
        StatusCodes::ServerErr => "Server error"@,
        StatusCodes::ErrNotFound => "Key not found"@,
    }
}

impl StatusCodes {
    /// How the status code reads to a person.
    pub fn to_text(&self) -> (r: &'static str)
        ensures
            r@ == status_text(*self),
    {
        match self {
            StatusCodes::Success => "OK",
            StatusCodes::ClientErr => "Client error",
            StatusCodes::ServerErr => "Server error",
            StatusCodes::ErrNotFound => "Key not found",
        }
    }

    /// The number that stands for this status code on the wire.
    pub fn code(&self) -> (r: u32)
        ensures
            r == code_of(*self),
    {
        match self {
            StatusCodes::Success => 0,
            StatusCodes::ClientErr => 1,
            StatusCodes::ServerErr => 2,
            StatusCodes::ErrNotFound => 3,
        }
    }

    /// The status code that a number stands for, if any.
    pub fn from_code(code: u32) -> (r: Option<StatusCodes>)
        ensures
            r == status_of(code),
    {
        if code == 0 {
            Some(StatusCodes::Success)
        } else if code == 1 {
            Some(StatusCodes::ClientErr)
        } else if code == 2 {
            Some(StatusCodes::ServerErr)
        } else if code == 3 {
            Some(StatusCodes::ErrNotFound)
        } else {
            None
        }
    }
}

/// A message as text, if there is one.
pub open spec fn text_opt(m: Option<String>) -> Option<Seq<char>> {
    match m {
        Some(s) => Some(s@),
        None => None,
    }
}

/// A message fits in a field.
pub open spec fn message_fits(m: Option<Seq<char>>) -> bool {
    match m {
        Some(t) => encode_utf8(t).len() <= u32::MAX,
        None => true,
    }
}

/// The bytes of a response.
pub open spec fn encode_response(status: StatusCodes, m: Option<Seq<char>>) -> Seq<u8> {
    le_bytes(code_of(status)) + match m {
        Some(t) => field_bytes(encode_utf8(t)),
        None => le_bytes(0),
    }
}

/// The status code and message that response bytes carry; bytes after the
/// message are ignored.
pub open spec fn decode_response(s: Seq<u8>) -> Result<(StatusCodes, Option<Seq<char>>), DecodeError> {
    if s.len() < 4 {
        Err(DecodeError::MalformedPayload(Field::Status))
    } else if status_of(u32_at(s, 0)) is None {
        Err(DecodeError::UnknownStatus)
    } else {
        match field_at(s, 4) {
            None => Err(DecodeError::MalformedPayload(Field::Message)),
            Some((body, _)) => Ok(
                (
                    status_of(u32_at(s, 0))->0,
                    if body.len() == 0 {
                        None
                    } else {
                        Some(text_of(body))
                    },
                ),
            ),
        }
    }
}

/// Decoding an encoded response gives back its status code and message. An
/// empty message is the one exception: it has the encoding of no message.
pub proof fn lemma_response_round_trip(status: StatusCodes, m: Option<Seq<char>>)
    requires
        message_fits(m),
        m != Some(Seq::<char>::empty()),
    ensures
        decode_response(encode_response(status, m)) == Ok::<
            (StatusCodes, Option<Seq<char>>),
            DecodeError,
        >((status, m)),
{
    broadcast use encode_utf8_valid_utf8, encode_utf8_decode_utf8;

    let s = encode_response(status, m);
    lemma_le_bytes(code_of(status));
    assert(s.subrange(0, 4) =~= le_bytes(code_of(status)));
    lemma_u32_at_le_bytes(s, 0, code_of(status));
    let body = match m {
        Some(t) => encode_utf8(t),
        None => Seq::<u8>::empty(),
    };
    lemma_le_bytes(body.len() as u32);
    assert(s.subrange(4, s.len() as int) =~= field_bytes(body));
    lemma_field_at_written(s, 4, body);
    if let Some(t) = m {
        if encode_utf8(t).len() == 0 {
            assert(t =~= Seq::<char>::empty()) by {
                assert(t == vstd::utf8::decode_utf8(encode_utf8(t)));
                assert(encode_utf8(t) =~= Seq::<u8>::empty());
            }
        }
    }
}

/// A response as its status code and message text.
pub open spec fn response_view(status: StatusCodes, m: Option<String>) -> (StatusCodes, Option<Seq<char>>) {
    (status, text_opt(m))
}

/// How a response reads to a person: its message, or a placeholder when it
/// has none.
pub open spec fn display_text(v: (StatusCodes, Option<Seq<char>>)) -> Seq<char> {
    match v.1 {
        Some(m) => m,
        None => match v.0 {
            StatusCodes::Success => "<Ok>"@,
            _ => "<nil>"@,
        },
    }
}

/// A response: a status code and an optional message.
#[derive(Debug)]
pub struct Response {
    status_code: StatusCodes,
    message: Option<String>,
}

impl View for Response {
    type V = (StatusCodes, Option<Seq<char>>);

    closed spec fn view(&self) -> (StatusCodes, Option<Seq<char>>) {
        response_view(self.status_code, self.message)
    }
}

impl Response {
    pub fn new(status_code: StatusCodes, msg: Option<String>) -> (r: Response)
        ensures
            r@ == response_view(status_code, msg),
    {
        Response { status_code, message: msg }
    }

    pub fn status_code(&self) -> (r: StatusCodes)
        ensures
            r == self@.0,
    {
        self.status_code
    }

    pub fn message(&self) -> (r: Option<&str>)
        ensures
            match r {
                Some(t) => self@.1 == Some(t@),
                None => self@.1 is None,
            },
    {
        match &self.message {
            Some(m) => Some(m.as_str()),
            None => None,
        }
    }

    /// How the response reads to a person.
    pub fn to_text(&self) -> (r: String)
        ensures
            r@ == display_text(self@),
    {
        match &self.message {
            Some(m) => m.clone(),
            None => match self.status_code {
                StatusCodes::Success => "<Ok>".to_owned(),
                _ => "<nil>".to_owned(),
            },
        }
    }

    /// The status code and the message, by value.
    pub fn into_parts(self) -> (r: (StatusCodes, Option<String>))
        ensures
            response_view(r.0, r.1) == self@,
    {
        (self.status_code, self.message)
    }

    /// Decodes response bytes.
    pub fn decode(bytes: &[u8]) -> (r: Result<Response, DecodeError>)
        ensures
            match r {
                Ok(resp) => decode_response(bytes@) == Ok::<
                    (StatusCodes, Option<Seq<char>>),
                    DecodeError,
                >(resp@),
                Err(e) => decode_response(bytes@) == Err::<
                    (StatusCodes, Option<Seq<char>>),
                    DecodeError,
                >(e),
            },
    {
        let len = bytes.len();
        if len < 4 {
            return Err(DecodeError::MalformedPayload(Field::Status));
        }
        let status = match StatusCodes::from_code(read_u32(bytes, 0)) {
            Some(s) => s,
            None => {
                return Err(DecodeError::UnknownStatus);
            },
        };
        if len - 4 < 4 {
            return Err(DecodeError::MalformedPayload(Field::Message));
        }
        let n = read_u32(bytes, 4) as usize;
        if len - 8 < n {
            return Err(DecodeError::MalformedPayload(Field::Message));
        }
        if n == 0 {
            return Ok(Response { status_code: status, message: None });
        }
        let body = vstd::slice::slice_subrange(bytes, 8, 8 + n);
        Ok(Response { status_code: status, message: Some(utf8_lossy(body)) })
    }

    /// The response that well-formed response bytes carry.
    pub fn from_raw(raw: &RawResponse) -> (r: Response)
        ensures
            decode_response(raw@) == Ok::<(StatusCodes, Option<Seq<char>>), DecodeError>(r@),
    {
        proof {
            use_type_invariant(raw);
        }
        match Response::decode(raw.0.as_slice()) {
            Ok(r) => r,
            Err(_) => {
                // The bytes of a `RawResponse` always decode.
                assert(false);
                Response { status_code: StatusCodes::ServerErr, message: None }
            },
        }
    }
}

impl From<RawResponse> for Response {
    /// Decodes well-formed response bytes; see `Response::from_raw`.
    fn from(raw: RawResponse) -> (r: Response)
        ensures
            decode_response(raw@) == Ok::<(StatusCodes, Option<Seq<char>>), DecodeError>(r@),
    {
        Response::from_raw(&raw)
    }
}

/// The exact `String` of a decoded message is fixed only up to its text, so
/// the conversion is described by the `ensures` of `from` above rather than
/// by a spec function of this trait.
impl vstd::std_specs::convert::FromSpecImpl<RawResponse> for Response {
    open spec fn obeys_from_spec() -> bool {
        false
    }

    closed spec fn from_spec(v: RawResponse) -> Response {
        Response { status_code: StatusCodes::ServerErr, message: None }
    }
}

/// The bytes of a well-formed response.
#[derive(Debug)]
pub struct RawResponse(Vec<u8>);

impl View for RawResponse {
    type V = Seq<u8>;

    closed spec fn view(&self) -> Seq<u8> {
        self.0@
    }
}

impl RawResponse {
    #[verifier::type_invariant]
    spec fn well_formed(&self) -> bool {
        decode_response(self.0@) is Ok
    }

    /// Encodes a response.
    pub fn new(status_code: StatusCodes, msg: Option<String>) -> (r: RawResponse)
        requires
            message_fits(text_opt(msg)),
        ensures
            r@ == encode_response(status_code, text_opt(msg)),
    {
        let mut payload: Vec<u8> = Vec::new();
        write_u32(&mut payload, status_code.code());
        match &msg {
            Some(m) => {
                let b = m.as_str().as_bytes();
                write_u32(&mut payload, b.len() as u32);
                payload.extend_from_slice(b);
            },
            None => {
                write_u32(&mut payload, 0);
            },
        }
        proof {
            broadcast use encode_utf8_valid_utf8, encode_utf8_decode_utf8;

            let s = payload@;
            assert(s =~= encode_response(status_code, text_opt(msg)));
            lemma_le_bytes(code_of(status_code));
            assert(s.subrange(0, 4) =~= le_bytes(code_of(status_code)));
            lemma_u32_at_le_bytes(s, 0, code_of(status_code));
            let body = match text_opt(msg) {
                Some(t) => encode_utf8(t),
                None => Seq::<u8>::empty(),
            };
            lemma_le_bytes(body.len() as u32);
            assert(s.subrange(4, s.len() as int) =~= field_bytes(body));
            lemma_field_at_written(s, 4, body);
        }
        RawResponse(payload)
    }

    /// Checks that bytes are a well-formed response.
    pub fn from_bytes(bytes: Vec<u8>) -> (r: Result<RawResponse, DecodeError>)
        ensures
            match r {
                Ok(raw) => raw@ == bytes@ && decode_response(bytes@) is Ok,
                Err(e) => decode_response(bytes@) == Err::<
                    (StatusCodes, Option<Seq<char>>),
                    DecodeError,
                >(e),
            },
    {
        match Response::decode(bytes.as_slice()) {
            Ok(_) => Ok(RawResponse(bytes)),
            Err(e) => Err(e),
        }
    }

    /// The response's bytes.
    pub fn payload(&self) -> (r: &[u8])
        ensures
            r@ == self@,
    {
        self.0.as_slice()
    }

    /// The response's bytes, by value.
    pub fn into_bytes(self) -> (r: Vec<u8>)
        ensures
            r@ == self@,
    {
        self.0
    }
}

} // verus!
