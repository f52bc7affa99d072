//! The commands a client sends: their model, and how they are read from a
//! line of text or from a program's arguments.

use crate::text::{chars_of, lower_of, lowercase};
use vstd::prelude::*;
use vstd::string::StrSliceExecFns;

verus! {

/// A command of the store.
#[derive(Debug, PartialEq, Eq)]
pub enum Command {
    Get(String),
    Put(String, String),
    Delete(String),
}

/// A command as the texts it carries.
pub enum CommandView {
    Get { key: Seq<char> },
    Put { key: Seq<char>, value: Seq<char> },
    Delete { key: Seq<char> },
}

impl View for Command {
    type V = CommandView;

    open spec fn view(&self) -> CommandView {
        match self {
            Command::Get(key) => CommandView::Get { key: key@ },
            Command::Put(key, value) => CommandView::Put { key: key@, value: value@ },
            Command::Delete(key) => CommandView::Delete { key: key@ },
        }
    }
}

pub open spec fn get_word() -> Seq<char> {
    seq!['g', 'e', 't']
}

pub open spec fn set_word() -> Seq<char> {
    seq!['s', 'e', 't']
}

pub open spec fn del_word() -> Seq<char> {
    seq!['d', 'e', 'l']
}

/// The name of a command, as written on the wire and on the command line.
pub open spec fn name_of(c: CommandView) -> Seq<char> {
    match c {
        CommandView::Get { .. } => get_word(),
        CommandView::Put { .. } => set_word(),
        CommandView::Delete { .. } => del_word(),
    }
}

/// The arguments of a command, in order.
pub open spec fn arguments_of(c: CommandView) -> Seq<Seq<char>> {
    match c {
        CommandView::Get { key } => seq![key],
        CommandView::Put { key, value } => seq![key, value],
        CommandView::Delete { key } => seq![key],
    }
}

/// The position of the first space in `s`, or its length if it has none.
pub open spec fn first_space(s: Seq<char>) -> int
    decreases s.len(),
{
    if s.len() == 0 || s[0] == ' ' {
        0
    } else {
        1 + first_space(s.drop_first())
    }
}

pub proof fn lemma_first_space(s: Seq<char>)
    ensures
        0 <= first_space(s) <= s.len(),
        first_space(s) < s.len() ==> s[first_space(s)] == ' ',
        forall|j: int| 0 <= j < first_space(s) ==> s[j] != ' ',
    decreases s.len(),
{
    if s.len() > 0 && s[0] != ' ' {
        lemma_first_space(s.drop_first());
        assert forall|j: int| 0 <= j < first_space(s) implies s[j] != ' ' by {
            if j > 0 {
                assert(s[j] == s.drop_first()[j - 1]);
            }
        }
    }
}

/// The pieces of `s` between single spaces, empty ones included.
pub open spec fn words(s: Seq<char>) -> Seq<Seq<char>>
    decreases s.len(),
    via words_decreases
{
    if first_space(s) < s.len() {
        seq![s.subrange(0, first_space(s))] + words(s.subrange(first_space(s) + 1, s.len() as int))
    } else {
        seq![s]
    }
}

#[via_fn]
proof fn words_decreases(s: Seq<char>) {
    lemma_first_space(s);
}

pub open spec fn no_command_text() -> Seq<char> {
    "No command provided"@
}

pub open spec fn invalid_command_text() -> Seq<char> {
    "Invalid command"@
}

/// What parsing a line of (already lowercased) text gives: the first word
/// names the command, the words after it are its arguments, extra words are
/// ignored.
pub open spec fn parse_words(s: Seq<char>) -> Result<CommandView, Seq<char>> {
    let w = words(s);
    if s.len() == 0 {
        Err(no_command_text())
    } else if w[0] == get_word() {
        if w.len() < 2 {
            Err("\"get\" command needs 1 argument"@)
        } else {
            Ok(CommandView::Get { key: w[1] })
        }
    } else if w[0] == set_word() {
        if w.len() < 3 {
            Err("\"set\" command needs 2 arguments"@)
        } else {
            Ok(CommandView::Put { key: w[1], value: w[2] })
        }
    } else if w[0] == del_word() {
        if w.len() < 2 {
            Err("\"del\" command needs 1 argument"@)
        } else {
            Ok(CommandView::Delete { key: w[1] })
        }
    } else {
        Err(invalid_command_text())
    }
}

/// What parsing a program's arguments gives; the first one, the program's
/// name, is skipped.
pub open spec fn parse_args(a: Seq<Seq<char>>) -> Result<CommandView, Seq<char>> {
    if a.len() < 2 {
        Err(no_command_text())
    } else if a[1] == get_word() {
        if a.len() < 3 {
            Err("'get' command needs 1 argument"@)
        } else {
            Ok(CommandView::Get { key: a[2] })
        }
    } else if a[1] == set_word() {
        if a.len() < 4 {
            Err("'set' command needs 2 arguments"@)
        } else {
            Ok(CommandView::Put { key: a[2], value: a[3] })
        }
    } else if a[1] == del_word() {
        if a.len() < 3 {
            Err("'del' command needs 1 argument"@)
        } else {
            Ok(CommandView::Delete { key: a[2] })
        }
    } else {
        Err(invalid_command_text())
    }
}

/// A parse result as texts.
pub open spec fn parsed(r: Result<Command, String>) -> Result<CommandView, Seq<char>> {
    match r {
        Ok(c) => Ok(c@),
        Err(e) => Err(e@),
    }
}

/// The position of the first space at or after `from`, or the length.
fn space_from(chars: &Vec<char>, from: usize) -> (r: usize)
    requires
        from <= chars@.len(),
    ensures
        r == from + first_space(chars@.subrange(from as int, chars@.len() as int)),
        r <= chars@.len(),
{
    let mut i = from;
    while i < chars.len() && chars[i] != ' '
        invariant
            from <= i <= chars@.len(),
            first_space(chars@.subrange(from as int, chars@.len() as int)) == (i - from)
                + first_space(chars@.subrange(i as int, chars@.len() as int)),
        decreases chars@.len() - i,
    {
        assert(chars@.subrange(i as int, chars@.len() as int).drop_first() =~= chars@.subrange(
            i + 1,
            chars@.len() as int,
        ));
        i = i + 1;
    }
    i
}

/// Whether the characters in `[from, to)` spell the three given ones.
fn spells(chars: &Vec<char>, from: usize, to: usize, a: char, b: char, c: char) -> (r: bool)
    requires
        from <= to <= chars@.len(),
    ensures
        r == (chars@.subrange(from as int, to as int) == seq![a, b, c]),
{
    let ghost w = chars@.subrange(from as int, to as int);
    if to - from != 3 {
        assert(w.len() != seq![a, b, c].len());
        return false;
    }
    assert(w[0] == chars@[from as int] && w[1] == chars@[from + 1] && w[2] == chars@[from + 2]);
    let r = chars[from] == a && chars[from + 1] == b && chars[from + 2] == c;
    if r {
        assert(w =~= seq![a, b, c]);
    } else {
        assert(seq![a, b, c][0] == a && seq![a, b, c][1] == b && seq![a, b, c][2] == c);
    }
    r
}

impl Command {
    /// The command's name: `"get"`, `"set"` or `"del"`.
    pub fn as_str(&self) -> (r: &'static str)
        ensures
            r@ == name_of(self@),
    {
        proof {
            reveal_strlit("get");
            reveal_strlit("set");
            reveal_strlit("del");
        }
        match self {
            Command::Get(_) => "get",
            Command::Put(_, _) => "set",
            Command::Delete(_) => "del",
        }
    }

    /// The command's arguments, in order.
    pub fn arguments(&self) -> (r: Vec<&str>)
        ensures
            r@.len() == arguments_of(self@).len(),
            forall|i: int| 0 <= i < r@.len() ==> #[trigger] r@[i]@ == arguments_of(self@)[i],
    {
        let mut r: Vec<&str> = Vec::new();
        match self {
            Command::Get(key) | Command::Delete(key) => {
                r.push(key.as_str());
            },
            Command::Put(key, value) => {
                r.push(key.as_str());
                r.push(value.as_str());
            },
        }
        r
    }

    /// Reads a command from a line of text. The whole line is lowercased
    /// first, keys and values included: `"set k v"` gives `Put("k", "v")`,
    /// `"GET K"` gives `Get("k")`. Words are separated by single spaces, so
    /// two spaces in a row make an empty word.
    pub fn parse(line: &str) -> (r: Result<Command, String>)
        ensures
            parsed(r) == parse_words(lower_of(line@)),
    {
        let lower = lowercase(line);
        Command::parse_lowercase(lower.as_str())
    }

    /// Reads a command from a line of text whose case is kept: the name
    /// must be written in lowercase.
    pub fn parse_lowercase(line: &str) -> (r: Result<Command, String>)
        ensures
            parsed(r) == parse_words(line@),
    {
        let chars = chars_of(line);
        let n = chars.len();
        let ghost s = chars@;
        if n == 0 {
            return Err("No command provided".to_owned());
        }
        let name_end = space_from(&chars, 0);
        proof {
            assert(s.subrange(0, s.len() as int) =~= s);
            lemma_first_space(s);
        }
        let ghost w = words(s);
        assert(w[0] == s.subrange(0, name_end as int));
        let is_get = spells(&chars, 0, name_end, 'g', 'e', 't');
        let is_set = spells(&chars, 0, name_end, 's', 'e', 't');
        let is_del = spells(&chars, 0, name_end, 'd', 'e', 'l');
        if !is_get && !is_set && !is_del {
            return Err("Invalid command".to_owned());
        }
        if name_end == n {
            assert(w.len() == 1);
            return if is_get {
                Err("\"get\" command needs 1 argument".to_owned())
            } else if is_set {
                Err("\"set\" command needs 2 arguments".to_owned())
            } else {
                Err("\"del\" command needs 1 argument".to_owned())
            };
        }
        let key_end = space_from(&chars, name_end + 1);
        let ghost rest = s.subrange(name_end + 1, s.len() as int);
        proof {
            lemma_first_space(rest);
            assert(w == seq![s.subrange(0, name_end as int)] + words(rest));
            assert(rest.subrange(0, key_end - name_end - 1) =~= s.subrange(name_end + 1, key_end as int));
        }
        assert(w[1] == s.subrange(name_end + 1, key_end as int));
        let first = line.substring_char(name_end + 1, key_end).to_owned();
        if is_get {
            return Ok(Command::Get(first));
        }
        if is_del {
            return Ok(Command::Delete(first));
        }
        if key_end == n {
            assert(w.len() == 2);
            return Err("\"set\" command needs 2 arguments".to_owned());
        }
        let value_end = space_from(&chars, key_end + 1);
        let ghost rest2 = s.subrange(key_end + 1, s.len() as int);
        proof {
            lemma_first_space(rest2);
            assert(rest.subrange(key_end - name_end, rest.len() as int) =~= rest2);
            assert(words(rest) == seq![rest.subrange(0, key_end - name_end - 1)] + words(rest2));
            assert(rest2.subrange(0, value_end - key_end - 1) =~= s.subrange(key_end + 1, value_end as int));
            assert(words(rest2)[0] == rest2.subrange(0, value_end - key_end - 1));
        }
        assert(w[2] == s.subrange(key_end + 1, value_end as int));
        let second = line.substring_char(key_end + 1, value_end).to_owned();
        Ok(Command::Put(first, second))
    }

    /// Reads a command from a program's arguments, skipping the first.
    pub fn from_args(args: &Vec<String>) -> (r: Result<Command, String>)
        ensures
            parsed(r) == parse_args(args@.map_values(|a: String| a@)),
    {
        let ghost a = args@.map_values(|a: String| a@);
        if args.len() < 2 {
            return Err("No command provided".to_owned());
        }
        let name = chars_of(args[1].as_str());
        let n = name.len();
        assert(name@.subrange(0, n as int) =~= name@);
        if spells(&name, 0, n, 'g', 'e', 't') {
            if args.len() < 3 {
                return Err("'get' command needs 1 argument".to_owned());
            }
            return Ok(Command::Get(args[2].clone()));
        }
        if spells(&name, 0, n, 's', 'e', 't') {
            if args.len() < 4 {
                return Err("'set' command needs 2 arguments".to_owned());
            }
            return Ok(Command::Put(args[2].clone(), args[3].clone()));
        }
        if spells(&name, 0, n, 'd', 'e', 'l') {
            if args.len() < 3 {
                return Err("'del' command needs 1 argument".to_owned());
            }
            return Ok(Command::Delete(args[2].clone()));
        }
        Err("Invalid command".to_owned())
    }
}

impl TryFrom<String> for Command {
    type Error = String;

    /// Reads a command from a line of text; see `Command::parse`.
    fn try_from(line: String) -> (r: Result<Command, String>)
        ensures
            parsed(r) == parse_words(lower_of(line@)),
    {
        Command::parse(line.as_str())
    }
}

/// The exact `String` a parse returns is fixed only up to its text, so the
/// conversion is described by the `ensures` of `try_from` above rather than
/// by a spec function of this trait.
impl vstd::std_specs::convert::TryFromSpecImpl<String> for Command {
    open spec fn obeys_try_from_spec() -> bool {
        false
    }

    open spec fn try_from_spec(v: String) -> Result<Command, String> {
        Err(v)
    }
}

} // verus!
