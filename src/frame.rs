//! Resumable assembly of frames from a byte stream.
//!
//! A frame is a 4-byte header followed by length-prefixed fields. In a
//! request the header is the number of fields; a response has one field, its
//! message, after a header that holds the status code. The reader takes bytes
//! in chunks of any size, keeps its progress between chunks, and never takes
//! a byte past the end of the frame.

use crate::wire::{read_u32, u32_at};
use vstd::prelude::*;

verus! {

/// Which kind of frame a reader assembles.
#[derive(Clone, Copy, Debug, PartialEq, Eq, Structural)]
pub enum Layout {
    Request,
    Response,
}

/// Where the parse of a (possibly partial) frame stands.
pub enum Progress {
    /// Fewer than four bytes: the header is incomplete.
    Header,
    /// The length of the field at `start` is incomplete; `left` fields follow it.
    Length { start: int, left: int },
    /// The body of the field at `start`, `len` bytes long, is incomplete.
    Body { start: int, len: int, left: int },
    /// The frame is complete and ends at `end`.
    Done { end: int },
}

/// How many fields follow the header.
pub open spec fn field_count(layout: Layout, s: Seq<u8>) -> int {
    match layout {
        Layout::Request => u32_at(s, 0) as int,
        Layout::Response => 1,
    }
}

/// The parse of `k` fields that start at `pos` in `s`.
pub open spec fn fields_progress(s: Seq<u8>, pos: int, k: int) -> Progress
    decreases k,
{
    if k <= 0 {
        Progress::Done { end: pos }
    } else if s.len() < pos + 4 {
        Progress::Length { start: pos, left: k - 1 }
    } else if s.len() < pos + 4 + u32_at(s, pos) {
        Progress::Body { start: pos, len: u32_at(s, pos) as int, left: k - 1 }
    } else {
        fields_progress(s, pos + 4 + u32_at(s, pos), k - 1)
    }
}

/// The parse of the frame at the start of `s`.
pub open spec fn frame_progress(layout: Layout, s: Seq<u8>) -> Progress {
    if s.len() < 4 {
        Progress::Header
    } else {
        fields_progress(s, 4, field_count(layout, s))
    }
}

/// The length of the complete frame at the start of `s`, if there is one.
pub open spec fn frame_end(layout: Layout, s: Seq<u8>) -> Option<int> {
    match frame_progress(layout, s) {
        Progress::Done { end } => Some(end),
        _ => None,
    }
}

/// What a reader can hold: a frame in progress, or exactly one complete frame.
pub open spec fn is_partial_frame(layout: Layout, s: Seq<u8>) -> bool {
    match frame_end(layout, s) {
        Some(end) => end == s.len(),
        None => true,
    }
}

/// What a reader holding `held` holds after it is given `chunk`: everything
/// up to the end of the first frame, or all of it while no frame is complete.
pub open spec fn fed(layout: Layout, held: Seq<u8>, chunk: Seq<u8>) -> Seq<u8> {
    let t = held + chunk;
    match frame_end(layout, t) {
        Some(end) => t.subrange(0, end),
        None => t,
    }
}

/// `s` is the start of `t`.
pub open spec fn is_prefix(s: Seq<u8>, t: Seq<u8>) -> bool {
    s.len() <= t.len() && t.subrange(0, s.len() as int) == s
}

proof fn lemma_u32_at_prefix(s: Seq<u8>, t: Seq<u8>, pos: int)
    requires
        is_prefix(s, t),
        0 <= pos,
        pos + 4 <= s.len(),
    ensures
        u32_at(t, pos) == u32_at(s, pos),
{
    assert forall|i: int| 0 <= i < s.len() implies #[trigger] t[i] == s[i] by {
        assert(t.subrange(0, s.len() as int)[i] == t[i]);
    }
    assert(t.subrange(pos, pos + 4) =~= s.subrange(pos, pos + 4));
}

proof fn lemma_fields_bounds(s: Seq<u8>, pos: int, k: int)
    requires
        0 <= pos <= s.len(),
    ensures
        match fields_progress(s, pos, k) {
            Progress::Done { end } => pos <= end <= s.len(),
            Progress::Length { start, left } => pos <= start <= s.len() < start + 4 && 0 <= left
                < k,
            Progress::Body { start, len, left } => {
                &&& pos <= start
                &&& start + 4 <= s.len() < start + 4 + len
                &&& len == u32_at(s, start)
                &&& 0 <= left < k
            },
            Progress::Header => false,
        },
    decreases k,
{
    if k > 0 && s.len() >= pos + 4 + u32_at(s, pos) {
        lemma_fields_bounds(s, pos + 4 + u32_at(s, pos), k - 1);
    }
}

/// How the parse of fields in `s` carries over to any `t` that extends `s`:
/// a complete parse stays complete, an incomplete one resumes in `t` from the
/// field it stopped in, and a parse that completes in `t` within the length
/// of `s` completes in `s` too.
proof fn lemma_fields_prefix(s: Seq<u8>, t: Seq<u8>, pos: int, k: int)
    requires
        is_prefix(s, t),
        0 <= pos <= s.len(),
    ensures
        fields_progress(s, pos, k) is Done ==> fields_progress(t, pos, k) == fields_progress(
            s,
            pos,
            k,
        ),
        fields_progress(s, pos, k) matches Progress::Length { start, left } ==> fields_progress(
            t,
            pos,
            k,
        ) == fields_progress(t, start, left + 1),
        fields_progress(s, pos, k) matches Progress::Body { start, len, left } ==> fields_progress(
            t,
            pos,
            k,
        ) == fields_progress(t, start, left + 1),
        fields_progress(t, pos, k) matches Progress::Done { end } && end <= s.len()
            ==> fields_progress(s, pos, k) == fields_progress(t, pos, k),
    decreases k,
{
    if k > 0 {
        if s.len() >= pos + 4 {
            lemma_u32_at_prefix(s, t, pos);
        }
        if t.len() >= pos + 4 && t.len() >= pos + 4 + u32_at(t, pos) {
            lemma_fields_bounds(t, pos + 4 + u32_at(t, pos), k - 1);
        }
        if s.len() >= pos + 4 && s.len() >= pos + 4 + u32_at(s, pos) {
            lemma_fields_prefix(s, t, pos + 4 + u32_at(s, pos), k - 1);
        }
    }
}

/// The frame-level form of `lemma_fields_prefix`.
pub proof fn lemma_frame_prefix(layout: Layout, s: Seq<u8>, t: Seq<u8>)
    requires
        is_prefix(s, t),
    ensures
        frame_end(layout, s) is Some ==> frame_end(layout, t) == frame_end(layout, s),
        frame_progress(layout, s) matches Progress::Length { start, left } ==> frame_progress(
            layout,
            t,
        ) == fields_progress(t, start, left + 1),
        frame_progress(layout, s) matches Progress::Body { start, len, left } ==> frame_progress(
            layout,
            t,
        ) == fields_progress(t, start, left + 1),
        frame_end(layout, t) matches Some(end) && end <= s.len() ==> frame_end(layout, s)
            == frame_end(layout, t),
{
    if s.len() >= 4 {
        lemma_u32_at_prefix(s, t, 0);
        assert(field_count(layout, s) == field_count(layout, t));
        lemma_fields_prefix(s, t, 4, field_count(layout, s));
    } else if t.len() >= 4 {
        lemma_fields_bounds(t, 4, field_count(layout, t));
    }
}

/// The end of a complete frame lies within the bytes that hold it.
pub proof fn lemma_frame_end_bounds(layout: Layout, s: Seq<u8>)
    ensures
        frame_end(layout, s) matches Some(end) ==> 4 <= end <= s.len(),
{
    if s.len() >= 4 {
        lemma_fields_bounds(s, 4, field_count(layout, s));
    }
}

/// What a reader holding `held` holds after it is given each chunk in turn.
pub open spec fn fed_all(layout: Layout, held: Seq<u8>, chunks: Seq<Seq<u8>>) -> Seq<u8>
    decreases chunks.len(),
{
    if chunks.len() == 0 {
        held
    } else {
        fed_all(layout, fed(layout, held, chunks[0]), chunks.drop_first())
    }
}

/// Giving a reader two chunks one after the other leaves it holding what
/// giving it both at once does.
pub proof fn lemma_fed_twice(layout: Layout, held: Seq<u8>, c1: Seq<u8>, c2: Seq<u8>)
    ensures
        fed(layout, fed(layout, held, c1), c2) == fed(layout, held, c1 + c2),
{
    let t = held + c1;
    let t2 = held + (c1 + c2);
    assert(t2 =~= t + c2);
    assert(is_prefix(t, t2)) by {
        assert(t2.subrange(0, t.len() as int) =~= t);
    }
    lemma_frame_prefix(layout, t, t2);
    lemma_frame_end_bounds(layout, t);
    match frame_end(layout, t) {
        Some(end) => {
            let u = t.subrange(0, end);
            assert(is_prefix(u, t)) by {
                assert(t.subrange(0, u.len() as int) =~= u);
            }
            lemma_frame_prefix(layout, u, t);
            assert(is_prefix(u, u + c2)) by {
                assert((u + c2).subrange(0, u.len() as int) =~= u);
            }
            lemma_frame_prefix(layout, u, u + c2);
            assert((u + c2).subrange(0, end) =~= u);
            assert(t2.subrange(0, end) =~= u);
        },
        None => {},
    }
}

/// Splitting the input into chunks does not change what is read: a reader
/// fed the chunks one at a time, across any number of suspensions, ends up
/// holding exactly what it holds when fed their concatenation in one go, so
/// the frame it completes is the same.
pub proof fn lemma_fed_in_chunks(layout: Layout, held: Seq<u8>, chunks: Seq<Seq<u8>>)
    requires
        is_partial_frame(layout, held),
    ensures
        fed_all(layout, held, chunks) == fed(layout, held, chunks.flatten()),
    decreases chunks.len(),
{
    if chunks.len() == 0 {
        lemma_fed_empty(layout, held);
    } else {
        let next = fed(layout, held, chunks[0]);
        lemma_fed_partial(layout, held, chunks[0]);
        lemma_fed_in_chunks(layout, next, chunks.drop_first());
        lemma_fed_twice(layout, held, chunks[0], chunks.drop_first().flatten());
    }
}

/// Feeding nothing changes nothing, for any content a reader can hold.
pub proof fn lemma_fed_empty(layout: Layout, held: Seq<u8>)
    requires
        is_partial_frame(layout, held),
    ensures
        fed(layout, held, Seq::empty()) == held,
{
    assert(held + Seq::<u8>::empty() =~= held);
    if frame_end(layout, held) is Some {
        assert(held.subrange(0, held.len() as int) =~= held);
    }
}

/// After any feeding a reader holds a frame in progress or exactly one frame.
pub proof fn lemma_fed_partial(layout: Layout, held: Seq<u8>, chunk: Seq<u8>)
    ensures
        is_partial_frame(layout, fed(layout, held, chunk)),
{
    let t = held + chunk;
    lemma_frame_end_bounds(layout, t);
    if let Some(end) = frame_end(layout, t) {
        let u = t.subrange(0, end);
        assert(is_prefix(u, t)) by {
            assert(t.subrange(0, u.len() as int) =~= u);
        }
        lemma_frame_prefix(layout, u, t);
    }
}

enum Stage {
    Header,
    Length,
    Body,
    Done,
}

/// Assembles one frame from chunks of a byte stream.
pub struct FrameReader {
    layout: Layout,
    buf: Vec<u8>,
    stage: Stage,
    /// Start of the field being read (length and body stages).
    start: usize,
    /// Length of the body being read (body stage).
    body_len: usize,
    /// Fields that follow the one being read.
    left: u32,
    /// Bytes still missing from the piece being read.
    need: usize,
}

impl View for FrameReader {
    type V = Seq<u8>;

    /// The bytes of the frame taken so far.
    closed spec fn view(&self) -> Seq<u8> {
        self.buf@
    }
}

impl FrameReader {
    pub closed spec fn layout(&self) -> Layout {
        self.layout
    }

    spec fn progress(&self) -> Progress {
        match self.stage {
            Stage::Header => Progress::Header,
            Stage::Length => Progress::Length { start: self.start as int, left: self.left as int },
            Stage::Body => Progress::Body {
                start: self.start as int,
                len: self.body_len as int,
                left: self.left as int,
            },
            Stage::Done => Progress::Done { end: self.buf@.len() as int },
        }
    }

    spec fn need_spec(&self) -> int {
        match self.stage {
            Stage::Header => 4 - self.buf@.len(),
            Stage::Length => self.start + 4 - self.buf@.len(),
            Stage::Body => self.start + 4 + self.body_len - self.buf@.len(),
            Stage::Done => 0,
        }
    }

    /// The reader's fields describe the parse of the bytes it holds.
    pub closed spec fn wf(&self) -> bool {
        &&& self.progress() == frame_progress(self.layout, self.buf@)
        &&& self.need == self.need_spec()
    }

    /// An empty reader for frames of the given layout.
    pub fn new(layout: Layout) -> (r: FrameReader)
        ensures
            r.wf(),
            r@ == Seq::<u8>::empty(),
            r.layout() == layout,
    {
        FrameReader {
            layout,
            buf: Vec::new(),
            stage: Stage::Header,
            start: 0,
            body_len: 0,
            left: 0,
            need: 4,
        }
    }

    /// The bytes taken so far.
    pub fn as_bytes(&self) -> (r: &[u8])
        ensures
            r@ == self@,
    {
        self.buf.as_slice()
    }

    /// Whether the bytes held make a complete frame.
    pub fn is_complete(&self) -> (r: bool)
        requires
            self.wf(),
        ensures
            r == frame_end(self.layout(), self@) is Some,
    {
        match self.stage {
            Stage::Done => true,
            _ => false,
        }
    }

    /// How many more bytes the reader can take without passing the end of
    /// the frame; 0 once the frame is complete.
    pub fn wanted(&self) -> (r: usize)
        requires
            self.wf(),
        ensures
            r == 0 <==> frame_end(self.layout(), self@) is Some,
            forall|chunk: Seq<u8>|
                chunk.len() <= r ==> #[trigger] fed(self.layout(), self@, chunk) == self@ + chunk,
    {
        proof {
            self.lemma_need();
        }
        assert forall|chunk: Seq<u8>| chunk.len() <= self.need implies #[trigger] fed(
            self.layout(),
            self@,
            chunk,
        ) == self@ + chunk by {
            self.lemma_fed_within_need(chunk);
        }
        self.need
    }

    proof fn lemma_need(&self)
        requires
            self.wf(),
        ensures
            self.need == 0 <==> self.stage is Done,
            self.stage is Length ==> self.start <= self.buf@.len() < self.start + 4,
            self.stage is Body ==> self.start + 4 <= self.buf@.len() < self.start + 4
                + self.body_len,
            self.stage is Body ==> self.body_len == u32_at(self.buf@, self.start as int),
            self.stage is Header ==> self.buf@.len() < 4,
    {
        if self.buf@.len() >= 4 {
            lemma_fields_bounds(self.buf@, 4, field_count(self.layout, self.buf@));
        }
    }

    proof fn lemma_fed_within_need(&self, chunk: Seq<u8>)
        requires
            self.wf(),
            chunk.len() <= self.need,
        ensures
            fed(self.layout, self@, chunk) == self@ + chunk,
    {
        let s = self.buf@;
        let t = s + chunk;
        assert(is_prefix(s, t)) by {
            assert(t.subrange(0, s.len() as int) =~= s);
        }
        lemma_frame_prefix(self.layout, s, t);
        lemma_frame_end_bounds(self.layout, t);
        if self.stage is Done {
            assert(chunk.len() == 0);
            assert(t.subrange(0, s.len() as int) =~= t);
        } else if self.stage is Header {
            if t.len() >= 4 {
                lemma_fields_bounds(t, 4, field_count(self.layout, t));
            }
        } else {
            lemma_fields_bounds(s, 4, field_count(self.layout, s));
            if t.len() >= self.start + 4 && t.len() >= self.start + 4 + u32_at(t, self.start as int) {
                lemma_fields_bounds(t, self.start + 4 + u32_at(t, self.start as int), self.left as int);
            }
            if self.stage is Body {
                lemma_u32_at_prefix(s, t, self.start as int);
            }
        }
        match frame_end(self.layout, t) {
            Some(end) => {
                assert(end == t.len());
                assert(t.subrange(0, end) =~= t);
            },
            None => {},
        }
    }

    /// Moves on to the field after the one just completed, or ends the frame.
    fn next_field(&mut self)
        requires
            old(self).left as int >= 0,
        ensures
            final(self).layout == old(self).layout,
            final(self).buf == old(self).buf,
            old(self).left == 0 ==> final(self).stage is Done && final(self).need == 0,
            old(self).left > 0 ==> {
                &&& final(self).stage is Length
                &&& final(self).start == old(self).buf@.len()
                &&& final(self).left == old(self).left - 1
                &&& final(self).need == 4
            },
    {
        if self.left == 0 {
            self.stage = Stage::Done;
            self.need = 0;
        } else {
            self.stage = Stage::Length;
            self.start = self.buf.len();
            self.left = self.left - 1;
            self.need = 4;
        }
    }

    /// Takes one byte of the frame.
    fn push_byte(&mut self, b: u8)
        requires
            old(self).wf(),
            !(old(self).stage is Done),
        ensures
            final(self).wf(),
            final(self).layout == old(self).layout,
            final(self)@ == old(self)@.push(b),
    {
        proof {
            self.lemma_need();
        }
        let ghost s = self.buf@;
        self.buf.push(b);
        let ghost t = self.buf@;
        proof {
            assert(t.subrange(0, s.len() as int) =~= s);
            lemma_frame_prefix(self.layout, s, t);
            if self.stage is Body {
                lemma_u32_at_prefix(s, t, self.start as int);
            }
        }
        self.need = self.need - 1;
        if self.need == 0 {
            match self.stage {
                Stage::Header => {
                    let count: u32 = match self.layout {
                        Layout::Request => read_u32(self.buf.as_slice(), 0),
                        Layout::Response => 1,
                    };
                    assert(count == field_count(self.layout, t));
                    if count == 0 {
                        self.stage = Stage::Done;
                    } else {
                        self.stage = Stage::Length;
                        self.start = 4;
                        self.left = count - 1;
                        self.need = 4;
                    }
                },
                Stage::Length => {
                    let len = read_u32(self.buf.as_slice(), self.start);
                    if len > 0 {
                        self.stage = Stage::Body;
                        self.body_len = len as usize;
                        self.need = len as usize;
                    } else {
                        assert(fields_progress(t, self.start as int, self.left + 1)
                            == fields_progress(t, self.start + 4, self.left as int));
                        self.next_field();
                    }
                },
                Stage::Body => {
                    assert(fields_progress(t, self.start as int, self.left + 1)
                        == fields_progress(t, t.len() as int, self.left as int));
                    self.next_field();
                },
                Stage::Done => {},
            }
        }
    }

    /// Takes bytes from the front of `chunk` until the frame is complete or
    /// the chunk is used up, and returns how many it took.
    pub fn feed(&mut self, chunk: &[u8]) -> (taken: usize)
        requires
            old(self).wf(),
        ensures
            final(self).wf(),
            final(self).layout() == old(self).layout(),
            final(self)@ == fed(old(self).layout(), old(self)@, chunk@),
            taken == final(self)@.len() - old(self)@.len(),
    {
        let ghost s = self.buf@;
        let ghost t = s + chunk@;
        let mut i: usize = 0;
        while i < chunk.len() && !self.is_complete()
            invariant
                self.wf(),
                self.layout == old(self).layout,
                s == old(self)@,
                t == s + chunk@,
                i <= chunk@.len(),
                self.buf@ == s + chunk@.subrange(0, i as int),
            decreases chunk@.len() - i,
        {
            self.push_byte(chunk[i]);
            i = i + 1;
            assert(self.buf@ =~= s + chunk@.subrange(0, i as int));
        }
        proof {
            let u = self.buf@;
            assert(t.subrange(0, u.len() as int) =~= u);
            lemma_frame_prefix(self.layout, u, t);
            if i == chunk.len() {
                assert(u =~= t);
            }
            if !(self.stage is Done) {
                assert(i == chunk.len());
            }
        }
        i
    }

    /// Hands out the complete frame and starts over with an empty reader.
    pub fn take_frame(&mut self) -> (frame: Vec<u8>)
        requires
            old(self).wf(),
            frame_end(old(self).layout(), old(self)@) is Some,
        ensures
            final(self).wf(),
            final(self).layout() == old(self).layout(),
            final(self)@ == Seq::<u8>::empty(),
            frame@ == old(self)@,
    {
        let frame = self.buf.split_off(0);
        self.stage = Stage::Header;
        self.start = 0;
        self.body_len = 0;
        self.left = 0;
        self.need = 4;
        frame
    }
}

} // verus!
