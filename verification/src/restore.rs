//! Reading dumps back: telling SQL from binary dumps, and cutting an SQL dump
//! into statements.

use vstd::prelude::*;
use vstd::utf8::{decode_utf8, valid_utf8};
use crate::text::{chars_of, has_prefix, starts_with, string_of, string_views};

verus! {

/// The kind of a dump.
#[derive(Clone, Copy, Debug, PartialEq, Eq, Structural)]
pub enum RestoreFormat {
    Sql,
    Binary,
    /// Tell from the content.
    Auto,
}

/// The text of `data`, if it is valid UTF-8.
///
/// Trusted: `std::str::from_utf8`, which std documents to succeed exactly on
/// valid UTF-8, giving the text it encodes.
#[verifier::external_body]
fn utf8_text(data: &[u8]) -> (r: Option<String>)
    ensures
        r is Some <==> valid_utf8(data@),
        r matches Some(s) ==> s@ == decode_utf8(data@),
{
    match std::str::from_utf8(data) {
        Ok(s) => Some(s.to_owned()),
        Err(_) => None,
    }
}

/// Whether `c` is white space, as `char::is_whitespace` has it (the Unicode
/// White_Space property).
pub open spec fn is_white(c: char) -> bool {
    ||| '\t' <= c && c <= '\r'
    ||| c == ' '
    ||| c == '\u{85}'
    ||| c == '\u{a0}'
    ||| c == '\u{1680}'
    ||| '\u{2000}' <= c && c <= '\u{200a}'
    ||| c == '\u{2028}'
    ||| c == '\u{2029}'
    ||| c == '\u{202f}'
    ||| c == '\u{205f}'
    ||| c == '\u{3000}'
}

/// Whether `c` is white space.
pub fn white(c: char) -> (b: bool)
    ensures
        b == is_white(c),
{
    ('\t' <= c && c <= '\r') || c == ' ' || c == '\u{85}' || c == '\u{a0}' || c == '\u{1680}'
        || ('\u{2000}' <= c && c <= '\u{200a}') || c == '\u{2028}' || c == '\u{2029}' || c == '\u{202f}'
        || c == '\u{205f}' || c == '\u{3000}'
}

/// `s` without its leading white space.
pub open spec fn trim_start(s: Seq<char>) -> Seq<char>
    decreases s.len(),
{
    if s.len() > 0 && is_white(s[0]) { trim_start(s.drop_first()) } else { s }
}

/// `s` without its trailing white space.
pub open spec fn trim_end(s: Seq<char>) -> Seq<char>
    decreases s.len(),
{
    if s.len() > 0 && is_white(s.last()) { trim_end(s.drop_last()) } else { s }
}

/// `s` without white space at either end.
pub open spec fn trim(s: Seq<char>) -> Seq<char> {
    trim_end(trim_start(s))
}

/// Whether a text opens as an SQL dump does.
pub open spec fn opens_sql(t: Seq<char>) -> bool {
    has_prefix(t, "--"@) || has_prefix(t, "CREATE"@) || has_prefix(t, "INSERT"@) || has_prefix(t, "BEGIN"@)
}

/// The kind of a dump: SQL when it is UTF-8 text that opens, after white
/// space, with a comment, CREATE, INSERT or BEGIN; binary otherwise.
pub open spec fn detected(data: Seq<u8>) -> RestoreFormat {
    if valid_utf8(data) && opens_sql(trim_start(decode_utf8(data))) { RestoreFormat::Sql } else { RestoreFormat::Binary }
}

/// The first position at or after `i` holding a line feed, or the length.
pub open spec fn line_end(s: Seq<char>, i: int) -> int
    decreases s.len() - i,
{
    if i >= s.len() || i < 0 { s.len() as int } else if s[i] == '\n' { i } else { line_end(s, i + 1) }
}

/// A line ends at or after where it starts, within the text, at a line feed
/// if before the end, with no line feed before it.
pub proof fn lemma_line_end(s: Seq<char>, i: int)
    requires
        0 <= i <= s.len(),
    ensures
        i <= line_end(s, i) <= s.len(),
        line_end(s, i) < s.len() ==> s[line_end(s, i)] == '\n',
        forall|k: int| i <= k < line_end(s, i) ==> s[k] != '\n',
    decreases s.len() - i,
{
    if i < s.len() && s[i] != '\n' {
        lemma_line_end(s, i + 1);
    }
}

/// The lines of `s` from position `i`, as `str::lines` gives them: split at
/// line feeds, a carriage return just before a line feed dropped, no empty
/// last line after a final line feed.
pub open spec fn lines_from(s: Seq<char>, i: int) -> Seq<Seq<char>>
    decreases s.len() + 1 - i,
{
    if i >= s.len() || i < 0 {
        Seq::empty()
    } else {
        let e = line_end(s, i);
        proof {
            lemma_line_end(s, i);
        }
        let seg = s.subrange(i, e);
        let line = if e < s.len() && seg.len() > 0 && seg.last() == '\r' { seg.drop_last() } else { seg };
        seq![line] + lines_from(s, e + 1)
    }
}

/// Where cutting an SQL text stands: the statements so far, the statement
/// being read, whether inside a quoted string, whether the next character is
/// escaped.
pub struct SplitState {
    pub done: Seq<Seq<char>>,
    pub current: Seq<char>,
    pub in_string: bool,
    pub escape_next: bool,
}

/// Reading one character.
pub open spec fn char_step(st: SplitState, c: char) -> SplitState {
    if st.escape_next {
        SplitState { current: st.current.push(c), escape_next: false, ..st }
    } else if c == '\'' {
        SplitState { current: st.current.push(c), in_string: !st.in_string, ..st }
    } else if c == '\\' && st.in_string {
        SplitState { current: st.current.push(c), escape_next: true, ..st }
    } else if c == ';' && !st.in_string {
        SplitState { done: st.done.push(trim(st.current.push(c))), current: Seq::empty(), ..st }
    } else {
        SplitState { current: st.current.push(c), ..st }
    }
}

/// Reading the characters of `cs`.
pub open spec fn chars_step(st: SplitState, cs: Seq<char>) -> SplitState
    decreases cs.len(),
{
    if cs.len() == 0 { st } else { char_step(chars_step(st, cs.drop_last()), cs.last()) }
}

/// Reading one line: a comment line while no statement has begun (what is
/// pending is blank) is skipped; a line inside a statement is followed by a
/// line feed.
pub open spec fn line_step(st: SplitState, line: Seq<char>) -> SplitState {
    if has_prefix(trim(line), "--"@) && trim(st.current).len() == 0 {
        st
    } else {
        let after = chars_step(st, line);
        if after.current.len() > 0 { SplitState { current: after.current.push('\n'), ..after } } else { after }
    }
}

/// Reading the lines of `ls`.
pub open spec fn lines_step(st: SplitState, ls: Seq<Seq<char>>) -> SplitState
    decreases ls.len(),
{
    if ls.len() == 0 { st } else { line_step(lines_step(st, ls.drop_last()), ls.last()) }
}

/// The statements of an SQL text: each ends at a semicolon outside quotes
/// (a backslash inside quotes escapes the next character) and is trimmed; a
/// non-blank rest is a last statement.
pub open spec fn statements_of(s: Seq<char>) -> Seq<Seq<char>> {
    let st = lines_step(SplitState { done: Seq::empty(), current: Seq::empty(), in_string: false, escape_next: false },
        lines_from(s, 0));
    if trim(st.current).len() > 0 { st.done.push(trim(st.current)) } else { st.done }
}

/// The characters of `cs` from `lo` to `hi` without white space at either end.
pub(crate) fn trim_range(cs: &Vec<char>, lo: usize, hi: usize) -> (r: Vec<char>)
    requires
        lo <= hi <= cs@.len(),
    ensures
        r@ == trim(cs@.subrange(lo as int, hi as int)),
{
    let mut a = lo;
    while a < hi && white(cs[a])
        invariant
            lo <= a <= hi <= cs@.len(),
            trim_start(cs@.subrange(lo as int, hi as int)) == trim_start(cs@.subrange(a as int, hi as int)),
        decreases hi - a,
    {
        assert(cs@.subrange(a as int, hi as int).drop_first() =~= cs@.subrange(a as int + 1, hi as int));
        a = a + 1;
    }
    let ghost st = cs@.subrange(a as int, hi as int);
    assert(trim_start(st) == st);
    let mut b = hi;
    while b > a && white(cs[b - 1])
        invariant
            a <= b <= hi,
            hi <= cs@.len(),
            trim_end(st) == trim_end(cs@.subrange(a as int, b as int)),
            st == cs@.subrange(a as int, hi as int),
        decreases b - a,
    {
        assert(cs@.subrange(a as int, b as int).drop_last() =~= cs@.subrange(a as int, b as int - 1));
        b = b - 1;
    }
    let mut out: Vec<char> = Vec::new();
    let mut k = a;
    while k < b
        invariant
            a <= k <= b <= cs@.len(),
            out@ == cs@.subrange(a as int, k as int),
        decreases b - k,
    {
        out.push(cs[k]);
        assert(out@ =~= cs@.subrange(a as int, k as int + 1));
        k = k + 1;
    }
    out
}

/// The kind of a dump, told from its content.
pub fn detect_format(data: &[u8]) -> (f: RestoreFormat)
    ensures
        f == detected(data@),
{
    match utf8_text(data) {
        Some(s) => {
            let cs = chars_of(s.as_str());
            let t = trim_start_chars(&cs);
            let dash = chars_of("--");
            let create = chars_of("CREATE");
            let insert = chars_of("INSERT");
            let begin = chars_of("BEGIN");
            if starts_with(&t, &dash) || starts_with(&t, &create) || starts_with(&t, &insert) || starts_with(&t, &begin) {
                RestoreFormat::Sql
            } else {
                RestoreFormat::Binary
            }
        },
        None => RestoreFormat::Binary,
    }
}

/// `cs` without its leading white space.
fn trim_start_chars(cs: &Vec<char>) -> (r: Vec<char>)
    ensures
        r@ == trim_start(cs@),
{
    let mut a: usize = 0;
    assert(cs@.subrange(0, cs@.len() as int) =~= cs@);
    while a < cs.len() && white(cs[a])
        invariant
            a <= cs@.len(),
            trim_start(cs@) == trim_start(cs@.subrange(a as int, cs@.len() as int)),
        decreases cs@.len() - a,
    {
        assert(cs@.subrange(a as int, cs@.len() as int).drop_first() =~= cs@.subrange(a as int + 1, cs@.len() as int));
        a = a + 1;
    }
    let mut out: Vec<char> = Vec::new();
    let mut k = a;
    while k < cs.len()
        invariant
            a <= k <= cs@.len(),
            out@ == cs@.subrange(a as int, k as int),
        decreases cs@.len() - k,
    {
        out.push(cs[k]);
        assert(out@ =~= cs@.subrange(a as int, k as int + 1));
        k = k + 1;
    }
    out
}

/// A line ends at the first line feed from its start.
pub proof fn lemma_line_end_at(s: Seq<char>, i: int, e: int)
    requires
        0 <= i <= e <= s.len(),
        forall|k: int| i <= k < e ==> s[k] != '\n',
        e == s.len() || s[e] == '\n',
    ensures
        line_end(s, i) == e,
    decreases e - i,
{
    if i < e {
        lemma_line_end_at(s, i + 1, e);
    }
}

/// The starting state of cutting.
pub open spec fn start_state() -> SplitState {
    SplitState { done: Seq::empty(), current: Seq::empty(), in_string: false, escape_next: false }
}

/// Cuts an SQL text into statements (see `statements_of`).
pub fn split_sql_statements(input: &str) -> (r: Vec<String>)
    ensures
        string_views(r@) == statements_of(input@),
{
    let s = chars_of(input);
    let mut done: Vec<String> = Vec::new();
    let mut current: Vec<char> = Vec::new();
    let mut in_string = false;
    let mut escape_next = false;
    let ghost mut lines_done: Seq<Seq<char>> = Seq::empty();
    let dash = chars_of("--");
    let mut i: usize = 0;
    while i < s.len()
        invariant
            s@ == input@,
            dash@ == "--"@,
            i <= s@.len(),
            lines_from(s@, 0) == lines_done + lines_from(s@, i as int),
            ({
                let st = lines_step(start_state(), lines_done);
                &&& string_views(done@) == st.done
                &&& current@ == st.current
                &&& in_string == st.in_string
                &&& escape_next == st.escape_next
            }),
        decreases s@.len() - i,
    {
        let mut e = i;
        while e < s.len() && s[e] != '\n'
            invariant
                i <= e <= s@.len(),
                forall|k: int| i <= k < e ==> s@[k] != '\n',
            decreases s@.len() - e,
        {
            e = e + 1;
        }
        proof {
            lemma_line_end_at(s@, i as int, e as int);
        }
        let mut hi = e;
        if e < s.len() && hi > i && s[hi - 1] == '\r' {
            hi = hi - 1;
        }
        let ghost line = s@.subrange(i as int, hi as int);
        proof {
            let seg = s@.subrange(i as int, e as int);
            if e < s@.len() && seg.len() > 0 && seg.last() == '\r' {
                assert(seg.drop_last() =~= line);
            } else {
                assert(seg =~= line);
            }
            assert(lines_from(s@, i as int) == seq![line] + lines_from(s@, e as int + 1));
        }
        let ghost st0 = lines_step(start_state(), lines_done);
        let t = trim_range(&s, i, hi);
        let pending = trim_range(&current, 0, current.len());
        assert(current@.subrange(0, current@.len() as int) =~= current@);
        if starts_with(&t, &dash) && pending.len() == 0 {
        } else {
            let mut k = i;
            while k < hi
                invariant
                    i <= k <= hi <= s@.len(),
                    ({
                        let st = chars_step(st0, s@.subrange(i as int, k as int));
                        &&& string_views(done@) == st.done
                        &&& current@ == st.current
                        &&& in_string == st.in_string
                        &&& escape_next == st.escape_next
                    }),
                decreases hi - k,
            {
                assert(s@.subrange(i as int, k as int + 1).drop_last() =~= s@.subrange(i as int, k as int));
                let c = s[k];
                if escape_next {
                    current.push(c);
                    escape_next = false;
                } else if c == '\'' {
                    in_string = !in_string;
                    current.push(c);
                } else if c == '\\' && in_string {
                    escape_next = true;
                    current.push(c);
                } else if c == ';' && !in_string {
                    current.push(c);
                    let stmt = trim_range(&current, 0, current.len());
                    assert(current@.subrange(0, current@.len() as int) =~= current@);
                    let ghost before = done@;
                    done.push(string_of(&stmt));
                    assert(string_views(done@) =~= string_views(before).push(stmt@));
                    current = Vec::new();
                } else {
                    current.push(c);
                }
                k = k + 1;
            }
            if current.len() > 0 {
                current.push('\n');
            }
        }
        proof {
            let old_lines = lines_done;
            lines_done = lines_done.push(line);
            assert(lines_done.drop_last() =~= old_lines);
            assert(s@.subrange(i as int, hi as int) == line);
            assert(lines_step(start_state(), lines_done) == line_step(st0, line));
        }
        if e < s.len() {
            i = e + 1;
        } else {
            i = e;
            assert(lines_from(s@, e as int + 1) =~= lines_from(s@, i as int));
        }
        assert(lines_from(s@, 0) =~= lines_done + lines_from(s@, i as int));
    }
    let last = trim_range(&current, 0, current.len());
    assert(current@.subrange(0, current@.len() as int) =~= current@);
    if last.len() > 0 {
        let ghost before = done@;
        done.push(string_of(&last));
        assert(string_views(done@) =~= string_views(before).push(last@));
    }
    assert(lines_from(s@, i as int) =~= Seq::<Seq<char>>::empty());
    assert(lines_done =~= lines_from(s@, 0));
    done
}

} // verus!
