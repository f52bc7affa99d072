//! The store: a map from keys to values, and what each command does to it.

use crate::command::{Command, CommandView};
use crate::response::{response_view, Response, StatusCodes};
use vstd::prelude::*;
use vstd::string::StringExecFns;

verus! {

pub open spec fn not_found_text(key: Seq<char>) -> Seq<char> {
    "Key \""@ + key + "\" not found."@
}

pub open spec fn set_text(key: Seq<char>, value: Seq<char>) -> Seq<char> {
    "Key \""@ + key + "\" set to \""@ + value + "\"."@
}

pub open spec fn deleted_text(key: Seq<char>) -> Seq<char> {
    "Key \""@ + key + "\" deleted."@
}

/// The store's contents after a command.
pub open spec fn apply(m: Map<Seq<char>, Seq<char>>, c: CommandView) -> Map<Seq<char>, Seq<char>> {
    match c {
        CommandView::Get { .. } => m,
        CommandView::Put { key, value } => m.insert(key, value),
        CommandView::Delete { key } => m.remove(key),
    }
}

/// The status code and message that a command gets from a store holding `m`.
pub open spec fn reply(m: Map<Seq<char>, Seq<char>>, c: CommandView) -> (StatusCodes, Option<Seq<char>>) {
    match c {
        CommandView::Get { key } => if m.contains_key(key) {
            (StatusCodes::Success, Some(m[key]))
        } else {
            (StatusCodes::ClientErr, Some(not_found_text(key)))
        },
        CommandView::Put { key, value } => (StatusCodes::Success, Some(set_text(key, value))),
        CommandView::Delete { key } => if m.contains_key(key) {
            (StatusCodes::Success, Some(deleted_text(key)))
        } else {
            (StatusCodes::ClientErr, Some(not_found_text(key)))
        },
    }
}

/// `Get` changes nothing, so asking twice with nothing in between gets the
/// same answer twice.
pub proof fn lemma_get_idempotent(m: Map<Seq<char>, Seq<char>>, key: Seq<char>)
    ensures
        apply(m, CommandView::Get { key }) == m,
        reply(apply(m, CommandView::Get { key }), CommandView::Get { key }) == reply(
            m,
            CommandView::Get { key },
        ),
{
}

/// After two `set`s of a key, `get` returns the second value.
pub proof fn lemma_set_overwrites(
    m: Map<Seq<char>, Seq<char>>,
    key: Seq<char>,
    v1: Seq<char>,
    v2: Seq<char>,
)
    ensures
        reply(
            apply(
                apply(m, CommandView::Put { key, value: v1 }),
                CommandView::Put { key, value: v2 },
            ),
            CommandView::Get { key },
        ) == (StatusCodes::Success, Some(v2)),
{
}

/// After a `del` of a key succeeds, `get` reports the key not found.
pub proof fn lemma_delete_then_get(m: Map<Seq<char>, Seq<char>>, key: Seq<char>)
    requires
        reply(m, CommandView::Delete { key }).0 == StatusCodes::Success,
    ensures
        reply(apply(m, CommandView::Delete { key }), CommandView::Get { key }) == (
            StatusCodes::ClientErr,
            Some(not_found_text(key)),
        ),
{
}

/// An in-memory map from keys to values.
pub struct Store {
    entries: Vec<(String, String)>,
    contents: Ghost<Map<Seq<char>, Seq<char>>>,
}

impl View for Store {
    type V = Map<Seq<char>, Seq<char>>;

    closed spec fn view(&self) -> Map<Seq<char>, Seq<char>> {
        self.contents@
    }
}

impl Store {
    /// Each key appears once, and the entries are exactly the contents.
    pub closed spec fn wf(&self) -> bool {
        let e = self.entries@;
        let m = self.contents@;
        &&& forall|i: int, j: int|
            0 <= i < e.len() && 0 <= j < e.len() && i != j ==> #[trigger] e[i].0@ != #[trigger] e[j].0@
        &&& forall|i: int|
            0 <= i < e.len() ==> #[trigger] m.contains_key(e[i].0@) && m[e[i].0@] == e[i].1@
        &&& forall|k: Seq<char>|
            #[trigger] m.contains_key(k) ==> exists|i: int| 0 <= i < e.len() && e[i].0@ == k
    }

    /// An empty store.
    pub fn new() -> (r: Store)
        ensures
            r.wf(),
            r@ == Map::<Seq<char>, Seq<char>>::empty(),
    {
        Store { entries: Vec::new(), contents: Ghost(Map::empty()) }
    }

    /// Where the entry for `key` is, if there is one.
    fn find(&self, key: &String) -> (r: Option<usize>)
        requires
            self.wf(),
        ensures
            match r {
                Some(i) => i < self.entries@.len() && self.entries@[i as int].0@ == key@,
                None => !self@.contains_key(key@),
            },
    {
        let mut i: usize = 0;
        while i < self.entries.len()
            invariant
                i <= self.entries@.len(),
                forall|j: int| 0 <= j < i ==> self.entries@[j].0@ != key@,
            decreases self.entries@.len() - i,
        {
            if self.entries[i].0 == *key {
                return Some(i);
            }
            i = i + 1;
        }
        None
    }

    /// Carries out a command and says how it went.
    pub fn execute(&mut self, command: Command) -> (r: Response)
        requires
            old(self).wf(),
        ensures
            final(self).wf(),
            final(self)@ == apply(old(self)@, command@),
            r@ == reply(old(self)@, command@),
    {
        match command {
            Command::Get(key) => match self.find(&key) {
                Some(i) => {
                    let value = self.entries[i].1.clone();
                    Response::new(StatusCodes::Success, Some(value))
                },
                None => Response::new(StatusCodes::ClientErr, Some(not_found_message(&key))),
            },
            Command::Put(key, value) => {
                let message = set_message(&key, &value);
                let ghost (k, v) = (key@, value@);
                let ghost old_entries = self.entries@;
                match self.find(&key) {
                    Some(i) => {
                        self.entries.set(i, (key, value));
                        proof {
                            let e = self.entries@;
                            assert forall|a: int, b: int|
                                0 <= a < e.len() && 0 <= b < e.len() && a != b implies #[trigger] e[a].0@
                                != #[trigger] e[b].0@ by {
                                assert(old_entries[a].0@ != old_entries[b].0@);
                            }
                        }
                    },
                    None => {
                        self.entries.push((key, value));
                    },
                }
                self.contents = Ghost(self.contents@.insert(k, v));
                proof {
                    let e = self.entries@;
                    let m = self.contents@;
                    assert forall|q: Seq<char>| #[trigger] m.contains_key(q) implies exists|i: int|
                        0 <= i < e.len() && e[i].0@ == q by {
                        if q == k {
                            if e.len() > old_entries.len() {
                                assert(e[e.len() - 1].0@ == q);
                            } else {
                                let i = choose|i: int| 0 <= i < old_entries.len() && old_entries[i].0@ == k;
                                assert(e[i].0@ == q);
                            }
                        } else {
                            let i = choose|i: int| 0 <= i < old_entries.len() && old_entries[i].0@ == q;
                            assert(e[i].0@ == q);
                        }
                    }
                }
                Response::new(StatusCodes::Success, Some(message))
            },
            Command::Delete(key) => match self.find(&key) {
                Some(i) => {
                    let ghost old_entries = self.entries@;
                    let ghost old_m = self.contents@;
                    let ghost k = key@;
                    let message = deleted_message(&key);
                    self.entries.remove(i);
                    self.contents = Ghost(self.contents@.remove(k));
                    proof {
                        let e = self.entries@;
                        let m = self.contents@;
                        assert forall|a: int| 0 <= a < e.len() implies #[trigger] m.contains_key(e[a].0@) && m[e[a].0@] == e[a].1@ by {
                            let oa = if a < i { a } else { a + 1 };
                            assert(e[a] == old_entries[oa]);
                            assert(old_entries[oa].0@ != old_entries[i as int].0@);
                            assert(old_m.contains_key(old_entries[oa].0@));
                        }
                        assert forall|a: int, b: int|
                            0 <= a < e.len() && 0 <= b < e.len() && a != b implies #[trigger] e[a].0@
                            != #[trigger] e[b].0@ by {
                            let oa = if a < i { a } else { a + 1 };
                            let ob = if b < i { b } else { b + 1 };
                            assert(e[a] == old_entries[oa] && e[b] == old_entries[ob]);
                        }
                        assert forall|q: Seq<char>| #[trigger] m.contains_key(q) implies exists|a: int|
                            0 <= a < e.len() && e[a].0@ == q by {
                            let o = choose|o: int| 0 <= o < old_entries.len() && old_entries[o].0@ == q;
                            assert(o != i);
                            let a = if o < i { o } else { o - 1 };
                            assert(e[a] == old_entries[o]);
                        }
                    }
                    Response::new(StatusCodes::Success, Some(message))
                },
                None => Response::new(StatusCodes::ClientErr, Some(not_found_message(&key))),
            },
        }
    }
}

fn not_found_message(key: &String) -> (r: String)
    ensures
        r@ == not_found_text(key@),
{
    let mut m = "Key \"".to_owned();
    m.append(key.as_str());
    m.append("\" not found.");
    m
}

fn set_message(key: &String, value: &String) -> (r: String)
    ensures
        r@ == set_text(key@, value@),
{
    let mut m = "Key \"".to_owned();
    m.append(key.as_str());
    m.append("\" set to \"");
    m.append(value.as_str());
    m.append("\".");
    m
}

fn deleted_message(key: &String) -> (r: String)
    ensures
        r@ == deleted_text(key@),
{
    let mut m = "Key \"".to_owned();
    m.append(key.as_str());
    m.append("\" deleted.");
    m
}

} // verus!
