//! The server's state: the store and the table of open connections, keyed
//! by the token the readiness multiplexer reports them under. The event loop
//! that owns the sockets hands each readiness event to these methods.

use crate::connection::{
    outcome_of, read_step, sent_step, write_step, Connection, Interest, IoErrorKind, IoOutcome,
    Phase,
};
use crate::frame::{fed, Layout};
use crate::store::Store;
use vstd::prelude::*;

verus! {

/// The token of the listening socket.
pub const SERVER_TOKEN: usize = 0;

/// The token a client registers its one connection under.
pub const CLIENT_TOKEN: usize = 0;

struct Slot {
    token: usize,
    conn: Connection,
}

/// The store and the connections of a running server.
pub struct Server {
    store: Store,
    slots: Vec<Slot>,
    next_token: usize,
}

impl Server {
    /// The store's contents.
    pub closed spec fn contents(&self) -> Map<Seq<char>, Seq<char>> {
        self.store@
    }

    /// Every token has been handed out.
    pub closed spec fn exhausted(&self) -> bool {
        self.next_token == usize::MAX
    }

    /// Whether a connection is open under token `t`.
    pub closed spec fn has(&self, t: usize) -> bool {
        exists|i: int| 0 <= i < self.slots@.len() && self.slots@[i].token == t
    }

    /// The connection under token `t`.
    pub closed spec fn conn(&self, t: usize) -> Connection {
        let i = choose|i: int| 0 <= i < self.slots@.len() && self.slots@[i].token == t;
        self.slots@[i].conn
    }

    pub closed spec fn wf(&self) -> bool {
        let s = self.slots@;
        &&& self.store.wf()
        &&& forall|i: int, j: int|
            0 <= i < s.len() && 0 <= j < s.len() && i != j ==> #[trigger] s[i].token
                != #[trigger] s[j].token
        &&& forall|i: int|
            0 <= i < s.len() ==> SERVER_TOKEN < #[trigger] s[i].token < self.next_token
        &&& forall|i: int| 0 <= i < s.len() ==> (#[trigger] s[i]).conn.wf()
        &&& self.next_token > SERVER_TOKEN
    }

    /// The connections other than the one under `t` are as they were.
    pub open spec fn others_unchanged(&self, old: &Server, t: usize) -> bool {
        forall|u: usize|
            u != t ==> (#[trigger] self.has(u) == old.has(u)) && (old.has(u) ==> self.conn(u)
                == old.conn(u))
    }

    proof fn lemma_slot(&self, i: int)
        requires
            self.wf(),
            0 <= i < self.slots@.len(),
        ensures
            self.has(self.slots@[i].token),
            self.conn(self.slots@[i].token) == self.slots@[i].conn,
    {
        let t = self.slots@[i].token;
        let j = choose|j: int| 0 <= j < self.slots@.len() && self.slots@[j].token == t;
        assert(self.slots@[j].token == self.slots@[i].token);
    }

    /// A server with an empty store and no connections.
    pub fn new() -> (r: Server)
        ensures
            r.wf(),
            r.contents() == Map::<Seq<char>, Seq<char>>::empty(),
            forall|t: usize| !r.has(t),
            !r.exhausted(),
    {
        Server { store: Store::new(), slots: Vec::new(), next_token: SERVER_TOKEN + 1 }
    }

    fn find(&self, t: usize) -> (r: Option<usize>)
        requires
            self.wf(),
        ensures
            match r {
                Some(i) => i < self.slots@.len() && self.slots@[i as int].token == t && self.has(t)
                    && self.conn(t) == self.slots@[i as int].conn,
                None => !self.has(t),
            },
    {
        let mut i: usize = 0;
        while i < self.slots.len()
            invariant
                self.wf(),
                i <= self.slots@.len(),
                forall|j: int| 0 <= j < i ==> self.slots@[j].token != t,
            decreases self.slots@.len() - i,
        {
            if self.slots[i].token == t {
                proof {
                    self.lemma_slot(i as int);
                }
                return Some(i);
            }
            i = i + 1;
        }
        None
    }

    /// Registers a newly accepted connection under a fresh token, or returns
    /// `None` when the tokens are used up.
    pub fn accept(&mut self) -> (r: Option<usize>)
        requires
            old(self).wf(),
        ensures
            final(self).wf(),
            final(self).contents() == old(self).contents(),
            r is None <==> old(self).exhausted(),
            match r {
                Some(t) => {
                    &&& t != SERVER_TOKEN
                    &&& !old(self).has(t)
                    &&& final(self).has(t)
                    &&& final(self).conn(t).phase() == Phase::AwaitingRequest
                    &&& final(self).conn(t).held() == Seq::<u8>::empty()
                    &&& final(self).others_unchanged(&*old(self), t)
                },
                None => forall|u: usize|
                    #[trigger] final(self).has(u) == old(self).has(u) && (old(self).has(u)
                        ==> final(self).conn(u) == old(self).conn(u)),
            },
    {
        if self.next_token == usize::MAX {
            return None;
        }
        let t = self.next_token;
        let ghost old_slots = self.slots@;
        self.slots.push(Slot { token: t, conn: Connection::new() });
        self.next_token = self.next_token + 1;
        proof {
            let s = self.slots@;
            assert(s[s.len() - 1].token == t);
            self.lemma_slot(s.len() - 1);
            assert forall|u: usize| u != t implies #[trigger] self.has(u) == old(self).has(u) && (
            old(self).has(u) ==> self.conn(u) == old(self).conn(u)) by {
                if old(self).has(u) {
                    let i = choose|i: int| 0 <= i < old_slots.len() && old_slots[i].token == u;
                    assert(s[i] == old_slots[i]);
                    old(self).lemma_slot(i);
                    self.lemma_slot(i);
                }
                if self.has(u) {
                    let i = choose|i: int| 0 <= i < s.len() && s[i].token == u;
                    assert(i < old_slots.len());
                    assert(old_slots[i] == s[i]);
                }
            }
            assert(!old(self).has(t));
        }
        Some(t)
    }

    /// The readiness the connection under `t` waits for, if it is open.
    pub fn interest(&self, t: usize) -> (r: Option<Interest>)
        requires
            self.wf(),
        ensures
            match r {
                Some(i) => self.has(t) && self.conn(t).phase() != Phase::Closed && (i
                    == Interest::Readable <==> self.conn(t).phase() == Phase::AwaitingRequest),
                None => !self.has(t) || self.conn(t).phase() == Phase::Closed,
            },
    {
        match self.find(t) {
            Some(i) => {
                if let Phase::Closed = self.slots[i].conn.phase_now() {
                    None
                } else {
                    Some(self.slots[i].conn.interest())
                }
            },
            None => None,
        }
    }

    /// How many bytes to read for the connection under `t`: never past the
    /// end of its request; 0 unless it is reading.
    pub fn read_budget(&self, t: usize) -> (r: usize)
        requires
            self.wf(),
        ensures
            r > 0 <==> self.has(t) && self.conn(t).phase() == Phase::AwaitingRequest,
            r > 0 ==> forall|chunk: Seq<u8>|
                chunk.len() <= r ==> #[trigger] fed(Layout::Request, self.conn(t).held(), chunk)
                    == self.conn(t).held() + chunk,
    {
        match self.find(t) {
            Some(i) => {
                if let Phase::AwaitingRequest = self.slots[i].conn.phase_now() {
                    self.slots[i].conn.read_budget()
                } else {
                    0
                }
            },
            None => 0,
        }
    }

    /// After the connection in slot `i` changed, and nothing else in the
    /// table, the table is still well formed and only `t` changed.
    proof fn lemma_slot_updated(&self, old: &Server, i: int, t: usize)
        requires
            old.wf(),
            0 <= i < old.slots@.len(),
            old.slots@[i].token == t,
            self.slots@.len() == old.slots@.len(),
            self.slots@[i].token == t,
            forall|j: int| 0 <= j < self.slots@.len() && j != i ==> self.slots@[j] == old.slots@[j],
            self.slots@[i].conn.wf(),
            self.next_token == old.next_token,
            self.store.wf(),
        ensures
            self.wf(),
            self.has(t),
            self.conn(t) == self.slots@[i].conn,
            self.others_unchanged(old, t),
    {
        let s = self.slots@;
        assert forall|a: int, b: int|
            0 <= a < s.len() && 0 <= b < s.len() && a != b implies #[trigger] s[a].token
            != #[trigger] s[b].token by {
            assert(old.slots@[a].token != old.slots@[b].token);
        }
        assert forall|a: int| 0 <= a < s.len() implies SERVER_TOKEN < #[trigger] s[a].token
            < self.next_token by {
            assert(old.slots@[a].token == s[a].token);
        }
        self.lemma_slot(i);
        assert forall|u: usize| u != t implies #[trigger] self.has(u) == old.has(u) && (old.has(u)
            ==> self.conn(u) == old.conn(u)) by {
            if old.has(u) {
                let j = choose|j: int| 0 <= j < old.slots@.len() && old.slots@[j].token == u;
                old.lemma_slot(j);
                self.lemma_slot(j);
            }
            if self.has(u) {
                let j = choose|j: int| 0 <= j < s.len() && s[j].token == u;
                assert(old.slots@[j].token == u);
            }
        }
    }

    /// Hands bytes read from the connection under `t` to it; returns how
    /// many it took.
    pub fn on_read(&mut self, t: usize, chunk: &[u8]) -> (taken: usize)
        requires
            old(self).wf(),
            old(self).has(t),
            old(self).conn(t).phase() == Phase::AwaitingRequest,
        ensures
            final(self).wf(),
            final(self).has(t),
            read_step(old(self).conn(t), final(self).conn(t), chunk@, taken as int),
            final(self).others_unchanged(&*old(self), t),
            final(self).contents() == old(self).contents(),
    {
        let i = self.find(t).unwrap();
        let ghost old_self = *self;
        let slot = &mut self.slots[i];
        let taken = slot.conn.on_read(chunk);
        proof {
            self.lemma_slot_updated(&old_self, i as int, t);
        }
        taken
    }

    /// The writable event of the connection under `t`: carries out its
    /// pending request against the store.
    pub fn on_writable(&mut self, t: usize)
        requires
            old(self).wf(),
            old(self).has(t),
            old(self).conn(t).phase() == Phase::AwaitingWritable,
        ensures
            final(self).wf(),
            final(self).has(t),
            write_step(old(self).conn(t), final(self).conn(t), old(self).contents(), final(self).contents()),
            final(self).others_unchanged(&*old(self), t),
    {
        let i = self.find(t).unwrap();
        let ghost old_self = *self;
        let slot = &mut self.slots[i];
        slot.conn.on_writable(&mut self.store);
        proof {
            self.lemma_slot_updated(&old_self, i as int, t);
        }
    }

    /// The bytes still to be written to the connection under `t`.
    pub fn unsent(&self, t: usize) -> (r: &[u8])
        requires
            self.wf(),
            self.has(t),
        ensures
            r@ == self.conn(t).outgoing(),
    {
        let i = self.find(t).unwrap();
        self.slots[i].conn.unsent()
    }

    /// Records that `n` bytes were written to the connection under `t`.
    pub fn on_sent(&mut self, t: usize, n: usize)
        requires
            old(self).wf(),
            old(self).has(t),
            old(self).conn(t).phase() == Phase::AwaitingWritable,
            old(self).conn(t).pending() is None,
            n <= old(self).conn(t).outgoing().len(),
        ensures
            final(self).wf(),
            final(self).has(t),
            sent_step(old(self).conn(t), final(self).conn(t), n as int),
            final(self).others_unchanged(&*old(self), t),
            final(self).contents() == old(self).contents(),
    {
        let i = self.find(t).unwrap();
        let ghost old_self = *self;
        let slot = &mut self.slots[i];
        slot.conn.on_sent(n);
        proof {
            self.lemma_slot_updated(&old_self, i as int, t);
        }
    }

    /// Decides what a failed I/O call on the connection under `t` means,
    /// closing it when the failure is terminal.
    pub fn on_io_error(&mut self, t: usize, kind: IoErrorKind) -> (r: IoOutcome)
        requires
            old(self).wf(),
            old(self).has(t),
        ensures
            final(self).wf(),
            final(self).has(t),
            r == outcome_of(kind),
            r == IoOutcome::Close ==> final(self).conn(t).phase() == Phase::Closed,
            r != IoOutcome::Close ==> final(self).conn(t) == old(self).conn(t),
            final(self).others_unchanged(&*old(self), t),
            final(self).contents() == old(self).contents(),
    {
        let i = self.find(t).unwrap();
        let ghost old_self = *self;
        let slot = &mut self.slots[i];
        let r = slot.conn.on_io_error(kind);
        proof {
            self.lemma_slot_updated(&old_self, i as int, t);
        }
        r
    }

    /// Ends the connection under `t`, after the peer shut it down.
    pub fn close(&mut self, t: usize)
        requires
            old(self).wf(),
            old(self).has(t),
        ensures
            final(self).wf(),
            final(self).has(t),
            final(self).conn(t).phase() == Phase::Closed,
            final(self).others_unchanged(&*old(self), t),
            final(self).contents() == old(self).contents(),
    {
        let i = self.find(t).unwrap();
        let ghost old_self = *self;
        let slot = &mut self.slots[i];
        slot.conn.close();
        proof {
            self.lemma_slot_updated(&old_self, i as int, t);
        }
    }

    /// The phase of the connection under `t`, if it is in the table.
    pub fn phase(&self, t: usize) -> (r: Option<Phase>)
        requires
            self.wf(),
        ensures
            match r {
                Some(p) => self.has(t) && p == self.conn(t).phase(),
                None => !self.has(t),
            },
    {
        match self.find(t) {
            Some(i) => Some(self.slots[i].conn.phase_now()),
            None => None,
        }
    }

    /// Takes the connection under `t` out of the table; returns whether it
    /// was there.
    pub fn remove(&mut self, t: usize) -> (r: bool)
        requires
            old(self).wf(),
        ensures
            final(self).wf(),
            r == old(self).has(t),
            !final(self).has(t),
            final(self).others_unchanged(&*old(self), t),
            final(self).contents() == old(self).contents(),
    {
        match self.find(t) {
            Some(i) => {
                let ghost old_slots = self.slots@;
                self.slots.remove(i);
                proof {
                    let s = self.slots@;
                    assert forall|a: int| 0 <= a < s.len() implies s[a] == old_slots[if a < i {
                        a
                    } else {
                        a + 1
                    }] by {}
                    assert forall|a: int, b: int|
                        0 <= a < s.len() && 0 <= b < s.len() && a != b implies #[trigger] s[a].token
                        != #[trigger] s[b].token by {
                        let oa = if a < i { a } else { a + 1 };
                        let ob = if b < i { b } else { b + 1 };
                        assert(old_slots[oa].token != old_slots[ob].token);
                    }
                    assert forall|a: int| 0 <= a < s.len() implies SERVER_TOKEN < #[trigger] s[a].token
                        < self.next_token by {
                        let oa = if a < i { a } else { a + 1 };
                        assert(s[a] == old_slots[oa]);
                    }
                    assert forall|a: int| 0 <= a < s.len() implies (#[trigger] s[a]).conn.wf() by {
                        let oa = if a < i { a } else { a + 1 };
                        assert(s[a] == old_slots[oa]);
                    }
                    assert(!self.has(t)) by {
                        if self.has(t) {
                            let a = choose|a: int| 0 <= a < s.len() && s[a].token == t;
                            let oa = if a < i { a } else { a + 1 };
                            assert(s[a] == old_slots[oa]);
                        }
                    }
                    assert forall|u: usize| u != t implies #[trigger] self.has(u) == old(self).has(u) && (
                    old(self).has(u) ==> self.conn(u) == old(self).conn(u)) by {
                        if old(self).has(u) {
                            let o = choose|o: int| 0 <= o < old_slots.len() && old_slots[o].token == u;
                            old(self).lemma_slot(o);
                            assert(o != i);
                            let a = if o < i { o } else { o - 1 };
                            assert(s[a] == old_slots[o]);
                            self.lemma_slot(a);
                        }
                        if self.has(u) {
                            let a = choose|a: int| 0 <= a < s.len() && s[a].token == u;
                            let oa = if a < i { a } else { a + 1 };
                            assert(s[a] == old_slots[oa]);
                        }
                    }
                }
                true
            },
            None => false,
        }
    }
}

} // verus!
