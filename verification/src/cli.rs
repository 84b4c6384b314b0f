//! The decisions of the interactive client: what a typed line asks for, and
//! which server lines are prompts.

use vstd::prelude::*;
use crate::restore::{trim, trim_range};
use crate::text::{chars_of, has_prefix, str_equal, string_of};

verus! {

/// What a line typed at the client asks for.
#[derive(Debug, PartialEq)]
pub enum CliAction {
    /// Nothing (a blank line).
    Skip,
    /// End the session.
    Quit,
    /// Send this text to the server.
    Send(String),
    /// Show the meta-command help.
    Help,
    /// An unknown meta-command, as typed (trimmed).
    Unknown(String),
}

/// The mathematical view of a client action.
pub ghost enum CliIntent {
    Skip,
    Quit,
    Send(Seq<char>),
    Help,
    Unknown(Seq<char>),
}

impl View for CliAction {
    type V = CliIntent;

    open spec fn view(&self) -> CliIntent {
        match self {
            CliAction::Skip => CliIntent::Skip,
            CliAction::Quit => CliIntent::Quit,
            CliAction::Send(s) => CliIntent::Send(s@),
            CliAction::Help => CliIntent::Help,
            CliAction::Unknown(s) => CliIntent::Unknown(s@),
        }
    }
}

/// The code of a character with ASCII capitals taken to small letters.
pub open spec fn folded(c: char) -> int {
    if 65 <= (c as u32) <= 90 { (c as u32) + 32 } else { c as u32 as int }
}

/// Two texts equal but for the case of ASCII letters.
pub open spec fn same_ignoring_ascii_case(a: Seq<char>, b: Seq<char>) -> bool {
    a.len() == b.len() && forall|i: int| 0 <= i < a.len() ==> folded(#[trigger] a[i]) == folded(b[i])
}

/// What a typed line asks for. The line is trimmed; a blank line asks for
/// nothing. A line starting with a backslash is a meta-command: `\q` and
/// `\quit` quit, `\l` and `\list` list the databases, `\d` and `\dt` list the
/// tables, `\?`, `\h` and `\help` show the help, `\d` followed by a space and
/// more goes to the server as typed, anything else is unknown. Any other line
/// quits when it is `quit` or `exit` in any case of letters, and is sent as
/// typed otherwise.
pub open spec fn cli_intent(input: Seq<char>) -> CliIntent {
    let q = trim(input);
    if q.len() == 0 {
        CliIntent::Skip
    } else if q[0] == '\\' {
        if q == "\\q"@ || q == "\\quit"@ {
            CliIntent::Quit
        } else if q == "\\l"@ || q == "\\list"@ {
            CliIntent::Send("SELECT datname FROM pg_database;"@)
        } else if q == "\\d"@ || q == "\\dt"@ {
            CliIntent::Send("SHOW TABLES;"@)
        } else if q == "\\?"@ || q == "\\h"@ || q == "\\help"@ {
            CliIntent::Help
        } else if has_prefix(q, "\\d "@) {
            CliIntent::Send(q)
        } else {
            CliIntent::Unknown(q)
        }
    } else if same_ignoring_ascii_case(q, "quit"@) || same_ignoring_ascii_case(q, "exit"@) {
        CliIntent::Quit
    } else {
        CliIntent::Send(q)
    }
}

/// Whether a server line is a prompt: trimmed, it ends with `#` or `>`.
pub open spec fn prompt_line(line: Seq<char>) -> bool {
    let t = trim(line);
    t.len() > 0 && (t.last() == '#' || t.last() == '>')
}

/// Whether a server line ends a response: trimmed, it ends with `>`.
pub open spec fn response_end_line(line: Seq<char>) -> bool {
    let t = trim(line);
    t.len() > 0 && t.last() == '>'
}

/// The folded code of a character (see `folded`).
fn fold(c: char) -> (n: u32)
    ensures
        n == folded(c),
{
    let n = c as u32;
    if 65 <= n && n <= 90 { n + 32 } else { n }
}

/// Whether `a` and `b` are equal but for the case of ASCII letters.
fn eq_ignore_ascii_case(a: &Vec<char>, b: &str) -> (r: bool)
    ensures
        r == same_ignoring_ascii_case(a@, b@),
{
    let bs = chars_of(b);
    if a.len() != bs.len() {
        return false;
    }
    let mut i: usize = 0;
    while i < a.len()
        invariant
            a@.len() == bs@.len(),
            bs@ == b@,
            i <= a@.len(),
            forall|k: int| 0 <= k < i ==> folded(#[trigger] a@[k]) == folded(bs@[k]),
        decreases a@.len() - i,
    {
        if fold(a[i]) != fold(bs[i]) {
            return false;
        }
        i = i + 1;
    }
    true
}

/// What a line typed at the client asks for (see `cli_intent`).
pub fn cli_action(input: &str) -> (a: CliAction)
    ensures
        a@ == cli_intent(input@),
{
    let cs = chars_of(input);
    let t = trim_range(&cs, 0, cs.len());
    assert(cs@.subrange(0, cs@.len() as int) =~= cs@);
    if t.len() == 0 {
        return CliAction::Skip;
    }
    let q = string_of(&t);
    let s = q.as_str();
    if t[0] == '\\' {
        if str_equal(s, "\\q") || str_equal(s, "\\quit") {
            CliAction::Quit
        } else if str_equal(s, "\\l") || str_equal(s, "\\list") {
            CliAction::Send("SELECT datname FROM pg_database;".to_owned())
        } else if str_equal(s, "\\d") || str_equal(s, "\\dt") {
            CliAction::Send("SHOW TABLES;".to_owned())
        } else if str_equal(s, "\\?") || str_equal(s, "\\h") || str_equal(s, "\\help") {
            CliAction::Help
        } else {
            let p = chars_of("\\d ");
            if crate::text::starts_with(&t, &p) {
                CliAction::Send(q)
            } else {
                CliAction::Unknown(q)
            }
        }
    } else if eq_ignore_ascii_case(&t, "quit") || eq_ignore_ascii_case(&t, "exit") {
        CliAction::Quit
    } else {
        CliAction::Send(q)
    }
}

/// Whether the last character of the trimmed line is `a` or `b`.
fn trimmed_ends_with(line: &str, a: char, b: char) -> (r: bool)
    ensures
        r == (trim(line@).len() > 0 && (trim(line@).last() == a || trim(line@).last() == b)),
{
    let cs = chars_of(line);
    let t = trim_range(&cs, 0, cs.len());
    assert(cs@.subrange(0, cs@.len() as int) =~= cs@);
    if t.len() == 0 {
        return false;
    }
    let c = t[t.len() - 1];
    c == a || c == b
}

/// Whether a server line is a prompt (see `prompt_line`).
pub fn is_prompt(line: &str) -> (b: bool)
    ensures
        b == prompt_line(line@),
{
    trimmed_ends_with(line, '#', '>')
}

/// Whether a server line ends a response (see `response_end_line`).
pub fn ends_response(line: &str) -> (b: bool)
    ensures
        b == response_end_line(line@),
{
    trimmed_ends_with(line, '>', '>')
}

} // verus!
