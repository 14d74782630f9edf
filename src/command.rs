use vstd::prelude::*;

use crate::task_error::TaskError;
use crate::text::is_space;

verus! {

/// A command of the interactive shell.
#[derive(Debug, PartialEq, Eq, Structural, Clone, Copy)]
pub enum Command {
    List,
    Add,
    Complete,
    Up,
    Down,
    Delete,
    Change,
    Clear,
    Help,
    Quit,
    Unknown,
}

/// The command a (lower-case) word names.
pub open spec fn command_of(w: Seq<char>) -> Command {
    if w == "l"@ || w == "list"@ {
        Command::List
    } else if w == "a"@ || w == "add"@ {
        Command::Add
    } else if w == "c"@ || w == "complete"@ {
        Command::Complete
    } else if w == "+"@ || w == "up"@ {
        Command::Up
    } else if w == "-"@ || w == "down"@ {
        Command::Down
    } else if w == "d"@ || w == "delete"@ {
        Command::Delete
    } else if w == "ch"@ || w == "change"@ {
        Command::Change
    } else if w == "clr"@ || w == "clear"@ {
        Command::Clear
    } else if w == "h"@ || w == "help"@ || w == "?"@ {
        Command::Help
    } else if w == "q"@ || w == "quit"@ || w == "x"@ || w == "exit"@ {
        Command::Quit
    } else {
        Command::Unknown
    }
}

/// The words of `s` read from the left: `done` holds the finished ones, `cur` the one
/// being read.
pub open spec fn split_from(s: Seq<char>, done: Seq<Seq<char>>, cur: Seq<char>) -> Seq<Seq<char>>
    decreases s.len(),
{
    let flushed = if cur.len() > 0 {
        done.push(cur)
    } else {
        done
    };
    if s.len() == 0 {
        flushed
    } else if is_space(s[0]) {
        split_from(s.drop_first(), flushed, Seq::empty())
    } else {
        split_from(s.drop_first(), done, cur.push(s[0]))
    }
}

/// The maximal runs of non-white-space characters, in order.
pub open spec fn words(s: Seq<char>) -> Seq<Seq<char>> {
    split_from(s, Seq::empty(), Seq::empty())
}

pub open spec fn is_digit(c: char) -> bool {
    '0' <= c && c <= '9'
}

/// The number that a run of decimal digits writes.
pub open spec fn digits_value(s: Seq<char>) -> nat
    decreases s.len(),
{
    if s.len() == 0 {
        0
    } else {
        digits_value(s.drop_last()) * 10 + (s.last() as nat - '0' as nat) as nat
    }
}

/// The digits of an unsigned number as `usize`'s `FromStr` reads it: an optional `+`, then
/// one or more decimal digits.
pub open spec fn numeral_digits(s: Seq<char>) -> Seq<char> {
    if s.len() > 0 && s[0] == '+' {
        s.drop_first()
    } else {
        s
    }
}

/// `s` is an unsigned number that fits in a `usize`.
pub open spec fn is_id_text(s: Seq<char>) -> bool {
    let d = numeral_digits(s);
    &&& d.len() > 0
    &&& forall|i: int| 0 <= i < d.len() ==> is_digit(#[trigger] d[i])
    &&& digits_value(d) <= usize::MAX
}

pub uninterp spec fn lower_of(s: Seq<char>) -> Seq<char>;

/// Relies on `str::to_lowercase`: the lower-case form of the text, which depends on its
/// characters alone.
#[verifier::external_body]
fn lowercase(s: &str) -> (r: String)
    ensures
        r@ == lower_of(s@),
{
    s.to_lowercase()
}

/// Whether two texts hold the same characters.
pub fn same_text(a: &str, b: &str) -> (r: bool)
    ensures
        r == (a@ == b@),
{
    let n = a.unicode_len();
    if n != b.unicode_len() {
        return false;
    }
    let mut i: usize = 0;
    while i < n
        invariant
            n == a@.len(),
            n == b@.len(),
            i <= n,
            forall|k: int| 0 <= k < i ==> a@[k] == b@[k],
        decreases n - i,
    {
        if a.get_char(i) != b.get_char(i) {
            return false;
        }
        i = i + 1;
    }
    assert(a@ =~= b@);
    true
}

/// The command a (lower-case) word names; `Unknown` where it names none.
pub fn parse_command(word: &str) -> (r: Command)
    ensures
        r == command_of(word@),
{
    if same_text(word, "l") || same_text(word, "list") {
        Command::List
    } else if same_text(word, "a") || same_text(word, "add") {
        Command::Add
    } else if same_text(word, "c") || same_text(word, "complete") {
        Command::Complete
    } else if same_text(word, "+") || same_text(word, "up") {
        Command::Up
    } else if same_text(word, "-") || same_text(word, "down") {
        Command::Down
    } else if same_text(word, "d") || same_text(word, "delete") {
        Command::Delete
    } else if same_text(word, "ch") || same_text(word, "change") {
        Command::Change
    } else if same_text(word, "clr") || same_text(word, "clear") {
        Command::Clear
    } else if same_text(word, "h") || same_text(word, "help") || same_text(word, "?") {
        Command::Help
    } else if same_text(word, "q") || same_text(word, "quit") || same_text(word, "x")
        || same_text(word, "exit") {
        Command::Quit
    } else {
        Command::Unknown
    }
}

/// The words of a line, split at white space.
pub fn split_words(line: &str) -> (r: Vec<String>)
    ensures
        r@.map_values(|w: String| w@) == words(line@),
{
    let n = line.unicode_len();
    let mut done: Vec<String> = Vec::new();
    let mut start: usize = 0;
    let mut i: usize = 0;
    assert(line@.subrange(0, n as int) =~= line@);
    assert(done@.map_values(|w: String| w@) =~= Seq::<Seq<char>>::empty());
    assert(line@.subrange(0, 0) =~= Seq::<char>::empty());
    while i < n
        invariant
            n == line@.len(),
            start <= i <= n,
            words(line@) == split_from(
                line@.subrange(i as int, n as int),
                done@.map_values(|w: String| w@),
                line@.subrange(start as int, i as int),
            ),
        decreases n - i,
    {
        let ghost rest = line@.subrange(i as int, n as int);
        assert(rest.drop_first() =~= line@.subrange(i + 1, n as int));
        assert(rest[0] == line@[i as int]);
        let c = line.get_char(i);
        if crate::text::is_space_char(c) {
            if start < i {
                let ghost before = done@.map_values(|w: String| w@);
                let w = String::from_str(line.substring_char(start, i));
                done.push(w);
                assert(done@.map_values(|w: String| w@) =~= before.push(
                    line@.subrange(start as int, i as int),
                ));
            }
            start = i + 1;
            assert(line@.subrange(start as int, i + 1) =~= Seq::<char>::empty());
        } else {
            assert(line@.subrange(start as int, i + 1) =~= line@.subrange(
                start as int,
                i as int,
            ).push(c));
        }
        i = i + 1;
    }
    if start < n {
        let ghost before = done@.map_values(|w: String| w@);
        let w = String::from_str(line.substring_char(start, n));
        done.push(w);
        assert(done@.map_values(|w: String| w@) =~= before.push(
            line@.subrange(start as int, n as int),
        ));
    }
    done
}

proof fn lemma_digits_prefix(s: Seq<char>, k: int)
    requires
        0 <= k <= s.len(),
        forall|i: int| 0 <= i < s.len() ==> is_digit(#[trigger] s[i]),
    ensures
        digits_value(s.take(k)) <= digits_value(s),
    decreases s.len(),
{
    if k < s.len() {
        let rest = s.drop_last();
        assert forall|i: int| 0 <= i < rest.len() implies is_digit(#[trigger] rest[i]) by {
            assert(rest[i] == s[i]);
        }
        lemma_digits_prefix(rest, k);
        assert(rest.take(k) =~= s.take(k));
        assert(digits_value(rest) <= digits_value(rest) * 10) by (nonlinear_arith);
    } else {
        assert(s.take(k) =~= s);
    }
}

fn id_error(text: &str) -> (e: TaskError)
    ensures
        e is ArgumentMismatch && e->ArgumentMismatch_0@ == "wrong argument: '"@ + text@
            + "' is not a valid task ID."@,
{
    let mut msg = String::from_str("wrong argument: '");
    msg.append(text);
    msg.append("' is not a valid task ID.");
    TaskError::ArgumentMismatch(msg)
}

/// Reads a task id: an unsigned decimal number that fits in a `usize`, as `usize`'s
/// `FromStr` accepts it.
pub fn parse_id(text: &str) -> (r: Result<usize, TaskError>)
    ensures
        r is Ok <==> is_id_text(text@),
        r is Ok ==> r->Ok_0 == digits_value(numeral_digits(text@)),
        r is Err ==> r->Err_0 is ArgumentMismatch && r->Err_0->ArgumentMismatch_0@
            == "wrong argument: '"@ + text@ + "' is not a valid task ID."@,
{
    let n = text.unicode_len();
    let mut i: usize = 0;
    if n > 0 && text.get_char(0) == '+' {
        i = 1;
    }
    let start = i;
    let ghost d = numeral_digits(text@);
    assert(d =~= text@.subrange(start as int, n as int));
    if start == n {
        return Err(id_error(text));
    }
    let mut v: usize = 0;
    assert(d.take(0) =~= Seq::<char>::empty());
    while i < n
        invariant
            n == text@.len(),
            start <= i <= n,
            d == text@.subrange(start as int, n as int),
            d == numeral_digits(text@),
            v == digits_value(d.take(i - start)),
            forall|k: int| 0 <= k < i - start ==> is_digit(#[trigger] d[k]),
        decreases n - i,
    {
        let c = text.get_char(i);
        assert(d[i - start] == c);
        if !('0' <= c && c <= '9') {
            assert(!is_digit(numeral_digits(text@)[i - start]));
            assert(!is_id_text(text@));
            return Err(id_error(text));
        }
        let dgt = (c as u32 - '0' as u32) as usize;
        assert(d.take(i - start + 1).drop_last() =~= d.take(i - start));
        assert(d.take(i - start + 1).last() == c);
        assert(digits_value(d.take(i - start + 1)) == v * 10 + dgt);
        if v > (usize::MAX - dgt) / 10 {
            proof {
                assert(v * 10 + dgt > usize::MAX) by (nonlinear_arith)
                    requires
                        v > (usize::MAX - dgt) / 10,
                        dgt <= 9,
                ;
                if is_id_text(text@) {
                    lemma_digits_prefix(d, i - start + 1);
                    assert(false);
                }
            }
            return Err(id_error(text));
        }
        proof {
            assert(v * 10 + dgt <= usize::MAX) by (nonlinear_arith)
                requires
                    v <= (usize::MAX - dgt) / 10,
                    dgt <= 9,
            ;
        }
        v = v * 10 + dgt;
        i = i + 1;
    }
    assert(d.take(n - start) =~= d);
    Ok(v)
}

/// Splits an input line into its command, named by the first word in lower case, and the
/// remaining words; `None` for a line of nothing but white space.
pub fn read_command(line: &str) -> (r: Option<(Command, Vec<String>)>)
    ensures
        r is None <==> words(line@).len() == 0,
        r is Some ==> {
            let (cmd, args) = r->Some_0;
            &&& cmd == command_of(lower_of(words(line@)[0]))
            &&& args@.map_values(|w: String| w@) == words(line@).drop_first()
        },
{
    let mut ws = split_words(line);
    if ws.len() == 0 {
        return None;
    }
    let ghost all = ws@;
    let first = ws.remove(0);
    proof {
        assert(ws@.map_values(|w: String| w@) =~= words(line@).drop_first());
        assert(first@ == all.map_values(|w: String| w@)[0]);
    }
    let lower = lowercase(first.as_str());
    Some((parse_command(lower.as_str()), ws))
}

} // verus!
