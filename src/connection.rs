//! The life of one client connection on the server.
//!
//! A connection waits to be readable while a request comes in, then to be
//! writable while its response goes out, then reads again: one request in
//! flight at a time, answered in order. Partial reads and writes resume
//! exactly where they stopped. The socket itself, and the multiplexer that
//! reports readiness, belong to the caller, which performs the I/O that
//! these methods decide on.

use crate::command::Command;
use crate::frame::{fed, fed_all, frame_end, lemma_fed_in_chunks, FrameReader, Layout};
use crate::request::{decode_request, decoded, error_text, DecodeError, Request};
use crate::command::CommandView;
use crate::response::{
    code_of, encode_response, message_fits, response_view, RawResponse, Response, StatusCodes,
};
use crate::store::{apply, reply, Store};
use vstd::prelude::*;

verus! {

/// The readiness a connection is registered for; never both at once.
#[derive(Clone, Copy, Debug, PartialEq, Eq, Structural)]
pub enum Interest {
    Readable,
    Writable,
}

/// Where a connection stands.
#[derive(Clone, Copy, Debug, PartialEq, Eq, Structural)]
pub enum Phase {
    /// Reading a request.
    AwaitingRequest,
    /// A request is decoded; its response is yet to be built or sent.
    AwaitingWritable,
    /// The connection is finished; the caller deregisters and drops it.
    Closed,
}

/// The kinds of I/O failure that the state machine tells apart.
#[derive(Clone, Copy, Debug, PartialEq, Eq, Structural)]
pub enum IoErrorKind {
    WouldBlock,
    Interrupted,
    UnexpectedEof,
    ConnectionReset,
    ConnectionAborted,
    BrokenPipe,
    Other,
}

/// What to do after an I/O call failed.
#[derive(Clone, Copy, Debug, PartialEq, Eq, Structural)]
pub enum IoOutcome {
    /// Try the call again at once.
    Retry,
    /// Stop until the next readiness event; nothing is lost.
    Suspend,
    /// The connection is finished.
    Close,
}

pub open spec fn outcome_of(kind: IoErrorKind) -> IoOutcome {
    match kind {
        IoErrorKind::WouldBlock => IoOutcome::Suspend,
        IoErrorKind::Interrupted => IoOutcome::Retry,
        _ => IoOutcome::Close,
    }
}

/// Would-block suspends and an interrupted call is retried; any other
/// failure ends the connection, and only that connection.
pub fn classify(kind: IoErrorKind) -> (r: IoOutcome)
    ensures
        r == outcome_of(kind),
{
    match kind {
        IoErrorKind::WouldBlock => IoOutcome::Suspend,
        IoErrorKind::Interrupted => IoOutcome::Retry,
        _ => IoOutcome::Close,
    }
}

/// The bytes that answer a decoded request, given the store's contents:
/// the command's reply, or a server error naming what could not be decoded.
/// A reply too long for a field is answered with a bare server error.
pub open spec fn answer(
    m: Map<Seq<char>, Seq<char>>,
    p: Result<CommandView, DecodeError>,
) -> Seq<u8> {
    let (status, msg) = match p {
        Ok(c) => reply(m, c),
        Err(e) => (StatusCodes::ServerErr, Some(error_text(e))),
    };
    if message_fits(msg) {
        encode_response(status, msg)
    } else {
        encode_response(StatusCodes::ServerErr, None)
    }
}

/// The store's contents after a decoded request is carried out.
pub open spec fn effect(m: Map<Seq<char>, Seq<char>>, p: Result<CommandView, DecodeError>) -> Map<
    Seq<char>,
    Seq<char>,
> {
    match p {
        Ok(c) => apply(m, c),
        Err(_) => m,
    }
}

/// The state of one client connection.
pub struct Connection {
    reader: FrameReader,
    pending: Option<Result<Command, DecodeError>>,
    out: Vec<u8>,
    written: usize,
    phase: Phase,
}

/// What taking `chunk` while reading does: the bytes join the request in
/// progress; when they complete it, it is decoded and kept for the writable
/// event.
pub open spec fn read_step(c: Connection, d: Connection, chunk: Seq<u8>, taken: int) -> bool {
    let t = fed(Layout::Request, c.held(), chunk);
    &&& taken == t.len() - c.held().len()
    &&& d.outgoing() == Seq::<u8>::empty()
    &&& if frame_end(Layout::Request, t) is Some {
        &&& d.phase() == Phase::AwaitingWritable
        &&& d.held() == Seq::<u8>::empty()
        &&& d.pending() == Some(decode_request(t, 4))
    } else {
        &&& d.phase() == Phase::AwaitingRequest
        &&& d.held() == t
        &&& d.pending() is None
    }
}

/// What the writable event does: a pending request is carried out against
/// the store and its answer queued; with nothing pending, nothing changes.
pub open spec fn write_step(
    c: Connection,
    d: Connection,
    m: Map<Seq<char>, Seq<char>>,
    m2: Map<Seq<char>, Seq<char>>,
) -> bool {
    &&& d.phase() == Phase::AwaitingWritable
    &&& d.held() == c.held()
    &&& d.pending() is None
    &&& match c.pending() {
        Some(p) => m2 == effect(m, p) && d.outgoing() == answer(m, p),
        None => m2 == m && d.outgoing() == c.outgoing(),
    }
}

/// What sending the first `n` unsent bytes does: the rest stays queued, and
/// once all is sent the connection reads the next request.
pub open spec fn sent_step(c: Connection, d: Connection, n: int) -> bool {
    let rest = c.outgoing().subrange(n, c.outgoing().len() as int);
    &&& d.outgoing() == rest
    &&& d.pending() is None
    &&& d.held() == Seq::<u8>::empty()
    &&& d.phase() == if rest.len() == 0 {
        Phase::AwaitingRequest
    } else {
        Phase::AwaitingWritable
    }
}

impl Connection {
    pub closed spec fn phase(&self) -> Phase {
        self.phase
    }

    /// The bytes of the request read so far.
    pub closed spec fn held(&self) -> Seq<u8> {
        self.reader@
    }

    /// The decoded request waiting for the writable event.
    pub closed spec fn pending(&self) -> Option<Result<CommandView, DecodeError>> {
        match self.pending {
            Some(r) => Some(decoded(r)),
            None => None,
        }
    }

    /// The bytes of the response not yet sent.
    pub closed spec fn outgoing(&self) -> Seq<u8> {
        self.out@.subrange(self.written as int, self.out@.len() as int)
    }

    pub closed spec fn wf(&self) -> bool {
        &&& self.reader.wf()
        &&& self.reader.layout() == Layout::Request
        &&& self.written <= self.out@.len()
        &&& self.phase == Phase::AwaitingRequest ==> {
            &&& self.pending is None
            &&& self.outgoing() == Seq::<u8>::empty()
            &&& frame_end(Layout::Request, self.reader@) is None
        }
        &&& self.phase == Phase::AwaitingWritable ==> {
            &&& self.reader@ == Seq::<u8>::empty()
            &&& self.pending is None ==> self.outgoing().len() > 0
        }
    }

    /// A connection just accepted: waiting for a request.
    pub fn new() -> (r: Connection)
        ensures
            r.wf(),
            r.phase() == Phase::AwaitingRequest,
            r.held() == Seq::<u8>::empty(),
            r.pending() is None,
            r.outgoing() == Seq::<u8>::empty(),
    {
        let r = Connection {
            reader: FrameReader::new(Layout::Request),
            pending: None,
            out: Vec::new(),
            written: 0,
            phase: Phase::AwaitingRequest,
        };
        assert(r.out@.subrange(0, 0) =~= Seq::<u8>::empty());
        assert(frame_end(Layout::Request, Seq::<u8>::empty()) is None);
        r
    }

    /// Where the connection stands.
    pub fn phase_now(&self) -> (r: Phase)
        ensures
            r == self.phase(),
    {
        self.phase
    }

    /// The readiness to register for: readable while a request comes in,
    /// writable while a response goes out.
    pub fn interest(&self) -> (r: Interest)
        requires
            self.wf(),
            self.phase() != Phase::Closed,
        ensures
            r == Interest::Readable <==> self.phase() == Phase::AwaitingRequest,
    {
        match self.phase {
            Phase::AwaitingRequest => Interest::Readable,
            _ => Interest::Writable,
        }
    }

    /// How many bytes to read at most, so that no byte past the end of the
    /// request is taken from the socket; positive while reading.
    pub fn read_budget(&self) -> (r: usize)
        requires
            self.wf(),
            self.phase() == Phase::AwaitingRequest,
        ensures
            r > 0,
            forall|chunk: Seq<u8>|
                chunk.len() <= r ==> #[trigger] fed(Layout::Request, self.held(), chunk)
                    == self.held() + chunk,
    {
        self.reader.wanted()
    }

    /// Takes bytes read from the socket; returns how many were taken.
    pub fn on_read(&mut self, chunk: &[u8]) -> (taken: usize)
        requires
            old(self).wf(),
            old(self).phase() == Phase::AwaitingRequest,
        ensures
            final(self).wf(),
            read_step(*old(self), *final(self), chunk@, taken as int),
    {
        let taken = self.reader.feed(chunk);
        if self.reader.is_complete() {
            let frame = self.reader.take_frame();
            let mut request = Request::new_with_payload(frame);
            self.pending = Some(request.to_command());
            self.phase = Phase::AwaitingWritable;
        }
        taken
    }

    /// The writable event: carries out the pending request, if any, against
    /// the store and queues its answer.
    pub fn on_writable(&mut self, store: &mut Store)
        requires
            old(self).wf(),
            old(self).phase() == Phase::AwaitingWritable,
            old(store).wf(),
        ensures
            final(self).wf(),
            final(store).wf(),
            write_step(*old(self), *final(self), old(store)@, final(store)@),
    {
        match self.pending.take() {
            Some(p) => {
                let ghost m = store@;
                let ghost pv = decoded(p);
                let response = match p {
                    Ok(command) => store.execute(command),
                    Err(e) => Response::new(StatusCodes::ServerErr, Some(e.message())),
                };
                let (status, message) = response.into_parts();
                let fits = match &message {
                    Some(t) => t.as_str().as_bytes().len() <= u32::MAX as usize,
                    None => true,
                };
                let raw = if fits {
                    RawResponse::new(status, message)
                } else {
                    RawResponse::new(StatusCodes::ServerErr, None)
                };
                self.out = raw.into_bytes();
                self.written = 0;
                proof {
                    crate::wire::lemma_le_bytes(code_of(status));
                    crate::wire::lemma_le_bytes(code_of(StatusCodes::ServerErr));
                    assert(self.out@.subrange(0, self.out@.len() as int) =~= self.out@);
                    assert(response_view(status, message) == reply_or_error(m, pv));
                }
            },
            None => {},
        }
    }

    /// The bytes of the response still to be written.
    pub fn unsent(&self) -> (r: &[u8])
        requires
            self.wf(),
        ensures
            r@ == self.outgoing(),
    {
        vstd::slice::slice_subrange(self.out.as_slice(), self.written, self.out.len())
    }

    /// Records that the first `n` unsent bytes were written.
    pub fn on_sent(&mut self, n: usize)
        requires
            old(self).wf(),
            old(self).phase() == Phase::AwaitingWritable,
            old(self).pending() is None,
            n <= old(self).outgoing().len(),
        ensures
            final(self).wf(),
            sent_step(*old(self), *final(self), n as int),
    {
        let ghost u = self.outgoing();
        let total = self.out.len();
        assert(u.len() == total - self.written);
        self.written = self.written + n;
        assert(self.outgoing() =~= u.subrange(n as int, u.len() as int));
        if self.written == self.out.len() {
            self.out = Vec::new();
            self.written = 0;
            self.phase = Phase::AwaitingRequest;
            assert(self.out@.subrange(0, 0) =~= Seq::<u8>::empty());
            assert(u.subrange(n as int, u.len() as int) =~= Seq::<u8>::empty());
            assert(frame_end(Layout::Request, Seq::<u8>::empty()) is None);
        }
    }

    /// Ends the connection, after a fatal I/O error or the peer's shutdown.
    pub fn close(&mut self)
        requires
            old(self).wf(),
        ensures
            final(self).wf(),
            final(self).phase() == Phase::Closed,
    {
        self.phase = Phase::Closed;
    }

    /// Decides what a failed I/O call means for the connection, closing it
    /// when the failure is terminal.
    pub fn on_io_error(&mut self, kind: IoErrorKind) -> (r: IoOutcome)
        requires
            old(self).wf(),
        ensures
            final(self).wf(),
            r == outcome_of(kind),
            r == IoOutcome::Close ==> final(self).phase() == Phase::Closed,
            r != IoOutcome::Close ==> *final(self) == *old(self),
    {
        let r = classify(kind);
        if let IoOutcome::Close = r {
            self.close();
        }
        r
    }
}

/// However the bytes of a request arrive, in one chunk or split across any
/// number of reads, the command decoded from them is the same.
pub proof fn lemma_chunked_request_decodes_alike(chunks: Seq<Seq<u8>>)
    ensures
        frame_end(Layout::Request, fed_all(Layout::Request, Seq::empty(), chunks)) == frame_end(
            Layout::Request,
            fed(Layout::Request, Seq::empty(), chunks.flatten()),
        ),
        decode_request(fed_all(Layout::Request, Seq::empty(), chunks), 4) == decode_request(
            fed(Layout::Request, Seq::empty(), chunks.flatten()),
            4,
        ),
{
    assert(frame_end(Layout::Request, Seq::<u8>::empty()) is None);
    lemma_fed_in_chunks(Layout::Request, Seq::empty(), chunks);
}

/// After two `set`s of a key, from any connections, the answer written for
/// a `get` of that key is the second value, and the `get` changes nothing.
/// A value too long for a field is answered with a bare server error, so
/// the value is taken to fit.
pub proof fn lemma_get_after_overwrite_answers(
    m: Map<Seq<char>, Seq<char>>,
    key: Seq<char>,
    v1: Seq<char>,
    v2: Seq<char>,
)
    requires
        message_fits(Some(v2)),
    ensures
        ({
            let m2 = apply(
                apply(m, CommandView::Put { key, value: v1 }),
                CommandView::Put { key, value: v2 },
            );
            &&& answer(m2, Ok(CommandView::Get { key })) == encode_response(
                StatusCodes::Success,
                Some(v2),
            )
            &&& effect(m2, Ok(CommandView::Get { key })) == m2
        }),
{
    crate::store::lemma_set_overwrites(m, key, v1, v2);
}

/// The status and message that answer a decoded request.
pub open spec fn reply_or_error(
    m: Map<Seq<char>, Seq<char>>,
    p: Result<CommandView, DecodeError>,
) -> (StatusCodes, Option<Seq<char>>) {
    match p {
        Ok(c) => reply(m, c),
        Err(e) => (StatusCodes::ServerErr, Some(error_text(e))),
    }
}

} // verus!
