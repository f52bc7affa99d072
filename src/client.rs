//! One request/response exchange as a client sees it: the request goes out,
//! resuming after short writes, and the response is assembled from whatever
//! chunks the socket yields. The socket and the multiplexer belong to the
//! caller.

use crate::command::Command;
use crate::frame::{fed, frame_end, FrameReader, Layout};
use crate::request::{encodable, encode_request, DecodeError, EncodeError};
use crate::response::{decode_response, RawResponse, Response, StatusCodes};
use vstd::prelude::*;

verus! {

/// A request on its way out and the response on its way in.
pub struct Exchange {
    request: Vec<u8>,
    written: usize,
    reader: FrameReader,
}

impl Exchange {
    /// The request bytes not yet written.
    pub closed spec fn outgoing(&self) -> Seq<u8> {
        self.request@.subrange(self.written as int, self.request@.len() as int)
    }

    /// The response bytes received so far.
    pub closed spec fn received(&self) -> Seq<u8> {
        self.reader@
    }

    pub closed spec fn wf(&self) -> bool {
        &&& self.written <= self.request@.len()
        &&& self.reader.wf()
        &&& self.reader.layout() == Layout::Response
    }

    /// Starts an exchange for a command, or says why it cannot be encoded.
    pub fn new(command: &Command) -> (r: Result<Exchange, EncodeError>)
        ensures
            match r {
                Ok(x) => x.wf() && x.outgoing() == encode_request(command@) && x.received()
                    == Seq::<u8>::empty(),
                Err(_) => !encodable(command@),
            },
    {
        let request = match command.to_request() {
            Ok(req) => req.into_payload(),
            Err(e) => {
                return Err(e);
            },
        };
        let x = Exchange { request, written: 0, reader: FrameReader::new(Layout::Response) };
        assert(x.request@.subrange(0, x.request@.len() as int) =~= x.request@);
        Ok(x)
    }

    /// The request bytes still to be written.
    pub fn unsent(&self) -> (r: &[u8])
        requires
            self.wf(),
        ensures
            r@ == self.outgoing(),
    {
        vstd::slice::slice_subrange(self.request.as_slice(), self.written, self.request.len())
    }

    /// Records that the first `n` unsent bytes were written.
    pub fn on_sent(&mut self, n: usize)
        requires
            old(self).wf(),
            n <= old(self).outgoing().len(),
        ensures
            final(self).wf(),
            final(self).outgoing() == old(self).outgoing().subrange(
                n as int,
                old(self).outgoing().len() as int,
            ),
            final(self).received() == old(self).received(),
    {
        let total = self.request.len();
        let ghost u = self.outgoing();
        assert(u.len() == total - self.written);
        self.written = self.written + n;
        assert(self.outgoing() =~= u.subrange(n as int, u.len() as int));
    }

    /// How many bytes to read at most; 0 once the response is complete.
    pub fn read_budget(&self) -> (r: usize)
        requires
            self.wf(),
        ensures
            r == 0 <==> frame_end(Layout::Response, self.received()) is Some,
            forall|chunk: Seq<u8>|
                chunk.len() <= r ==> #[trigger] fed(Layout::Response, self.received(), chunk)
                    == self.received() + chunk,
    {
        self.reader.wanted()
    }

    /// Takes bytes read from the socket; returns how many were taken.
    pub fn on_read(&mut self, chunk: &[u8]) -> (taken: usize)
        requires
            old(self).wf(),
        ensures
            final(self).wf(),
            final(self).outgoing() == old(self).outgoing(),
            final(self).received() == fed(Layout::Response, old(self).received(), chunk@),
            taken == final(self).received().len() - old(self).received().len(),
    {
        self.reader.feed(chunk)
    }

    /// The response, once all of it has arrived.
    pub fn response(&self) -> (r: Option<Result<Response, DecodeError>>)
        requires
            self.wf(),
        ensures
            match r {
                None => frame_end(Layout::Response, self.received()) is None,
                Some(Ok(resp)) => frame_end(Layout::Response, self.received()) is Some
                    && decode_response(self.received()) == Ok::<
                    (StatusCodes, Option<Seq<char>>),
                    DecodeError,
                >(resp@),
                Some(Err(e)) => frame_end(Layout::Response, self.received()) is Some
                    && decode_response(self.received()) == Err::<
                    (StatusCodes, Option<Seq<char>>),
                    DecodeError,
                >(e),
            },
    {
        if !self.reader.is_complete() {
            return None;
        }
        let bytes = vstd::slice::slice_to_vec(self.reader.as_bytes());
        match RawResponse::from_bytes(bytes) {
            Ok(raw) => Some(Ok(Response::from_raw(&raw))),
            Err(e) => Some(Err(e)),
        }
    }
}

} // verus!
