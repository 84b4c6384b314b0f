//! The keys under which indexes file values.

use vstd::prelude::*;
use crate::catalog::formats::{uuid_text, uuid_text_of};
use crate::catalog::value::{Value, bool_text, debug_of};
use crate::text::{push_chars, push_str, signed_zero_padded, signed_zero_padded_chars};

verus! {

/// The B-tree key of one value: a type tag followed by a rendering that sorts
/// integers by their zero-padded decimal form.
pub open spec fn btree_key_of(v: Value) -> Seq<char> {
    match v {
        Value::Integer(i) => "I"@ + signed_zero_padded(i as int, 20),
        Value::SmallInt(i) => "S"@ + signed_zero_padded(i as int, 20),
        Value::Text(s) => "T"@ + s@,
        Value::Char(s) => "C"@ + s@,
        Value::Boolean(b) => "BOOL"@ + bool_text(b),
        Value::Real(r) => "R"@ + r.padded@,
        Value::Null => "NULL"@,
        Value::Uuid(u) => "UUID"@ + uuid_text_of(u),
        _ => debug_of(v),
    }
}

/// The hash key of one value: for a text, `Text:` and the text itself; for
/// any other value, its derived `Debug` rendering, which names the value's
/// type. So values of different types that print alike (`1` and `'1'`) file
/// under different keys, and so do different texts.
pub open spec fn hash_key_of(v: Value) -> Seq<char> {
    match v {
        Value::Text(s) => "Text:"@ + s@,
        _ => debug_of(v),
    }
}

/// A text's hash key is its own: no other text, and no value of another
/// type, files under it.
pub proof fn law_text_hash_keys_distinct(s: String, b: Value)
    ensures
        hash_key_of(Value::Text(s)) == hash_key_of(b) ==> (b matches Value::Text(t) && t@ == s@),
{
    reveal_strlit("Text:");
    reveal_strlit("(");
    let k = hash_key_of(Value::Text(s));
    assert(k[0] == 'T' && k[1] == 'e' && k[4] == ':');
    if hash_key_of(b) == k {
        match b {
            Value::Text(t) => {
                assert(t@ =~= k.subrange(5, k.len() as int));
                assert(s@ =~= k.subrange(5, k.len() as int));
            },
            Value::Null => { reveal_strlit("Null"); assert(hash_key_of(b)[0] == 'N'); },
            Value::SmallInt(_) => { reveal_strlit("SmallInt"); assert(hash_key_of(b)[0] == 'S'); },
            Value::Integer(_) => { reveal_strlit("Integer"); assert(hash_key_of(b)[0] == 'I'); },
            Value::Real(_) => { reveal_strlit("Real"); assert(hash_key_of(b)[0] == 'R'); },
            Value::Numeric(_) => { reveal_strlit("Numeric"); assert(hash_key_of(b)[0] == 'N'); },
            Value::Char(_) => { reveal_strlit("Char"); assert(hash_key_of(b)[0] == 'C'); },
            Value::Boolean(_) => { reveal_strlit("Boolean"); assert(hash_key_of(b)[0] == 'B'); },
            Value::Date(_) => { reveal_strlit("Date"); assert(hash_key_of(b)[0] == 'D'); },
            Value::Timestamp(_, _) => { reveal_strlit("Timestamp"); assert(hash_key_of(b)[1] == 'i'); },
            Value::TimestampTz(_, _) => { reveal_strlit("TimestampTz"); assert(hash_key_of(b)[1] == 'i'); },
            Value::Uuid(_) => { reveal_strlit("Uuid"); assert(hash_key_of(b)[0] == 'U'); },
            Value::Json(_) => { reveal_strlit("Json"); assert(hash_key_of(b)[0] == 'J'); },
            Value::Bytea(_) => { reveal_strlit("Bytea"); assert(hash_key_of(b)[0] == 'B'); },
            Value::Enum(_, _) => { reveal_strlit("Enum"); assert(hash_key_of(b)[0] == 'E'); },
        }
    }
}

/// Parts joined by "||".
pub open spec fn joined(parts: Seq<Seq<char>>) -> Seq<char>
    decreases parts.len(),
{
    if parts.len() == 0 {
        Seq::empty()
    } else if parts.len() == 1 {
        parts[0]
    } else {
        joined(parts.drop_last()) + "||"@ + parts.last()
    }
}

/// The B-tree key of several values.
pub open spec fn btree_composite_key_of(values: Seq<Value>) -> Seq<char> {
    joined(values.map_values(|v: Value| btree_key_of(v)))
}

/// The hash key of several values.
pub open spec fn hash_composite_key_of(values: Seq<Value>) -> Seq<char> {
    joined(values.map_values(|v: Value| hash_key_of(v)))
}

/// The B-tree key of `v`.
pub fn btree_key(v: &Value) -> (k: Vec<char>)
    ensures
        k@ == btree_key_of(*v),
{
    let mut out: Vec<char> = Vec::new();
    match v {
        Value::Integer(i) => {
            push_str(&mut out, "I");
            let d = signed_zero_padded_chars(*i as i128, 20);
            push_chars(&mut out, &d);
        },
        Value::SmallInt(i) => {
            push_str(&mut out, "S");
            let d = signed_zero_padded_chars(*i as i128, 20);
            push_chars(&mut out, &d);
        },
        Value::Text(s) => {
            push_str(&mut out, "T");
            push_str(&mut out, s.as_str());
        },
        Value::Char(s) => {
            push_str(&mut out, "C");
            push_str(&mut out, s.as_str());
        },
        Value::Boolean(b) => {
            push_str(&mut out, "BOOL");
            if *b { push_str(&mut out, "true") } else { push_str(&mut out, "false") }
        },
        Value::Real(r) => {
            push_str(&mut out, "R");
            push_str(&mut out, r.padded.as_str());
        },
        Value::Null => push_str(&mut out, "NULL"),
        Value::Uuid(u) => {
            push_str(&mut out, "UUID");
            let t = uuid_text(*u);
            push_str(&mut out, t.as_str());
        },
        _ => v.push_debug(&mut out),
    }
    assert(out@ =~= btree_key_of(*v));
    out
}

/// The hash key of `v`.
pub fn hash_key(v: &Value) -> (k: Vec<char>)
    ensures
        k@ == hash_key_of(*v),
{
    let mut out: Vec<char> = Vec::new();
    match v {
        Value::Text(s) => {
            push_str(&mut out, "Text:");
            push_str(&mut out, s.as_str());
        },
        _ => v.push_debug(&mut out),
    }
    assert(out@ =~= hash_key_of(*v));
    out
}

/// The B-tree key of several values.
pub fn btree_composite_key(values: &[Value]) -> (k: Vec<char>)
    ensures
        k@ == btree_composite_key_of(values@),
{
    let mut out: Vec<char> = Vec::new();
    let mut i: usize = 0;
    while i < values.len()
        invariant
            i <= values@.len(),
            out@ == joined(values@.subrange(0, i as int).map_values(|v: Value| btree_key_of(v))),
        decreases values@.len() - i,
    {
        let ghost before = out@;
        if i > 0 {
            push_str(&mut out, "||");
        }
        let k = btree_key(&values[i]);
        push_chars(&mut out, &k);
        proof {
            let parts = values@.subrange(0, i + 1).map_values(|v: Value| btree_key_of(v));
            assert(parts.drop_last() =~= values@.subrange(0, i as int).map_values(|v: Value| btree_key_of(v)));
            if i == 0 {
                assert(out@ =~= parts[0]);
            } else {
                assert(out@ =~= joined(parts.drop_last()) + "||"@ + parts.last());
            }
        }
        i = i + 1;
    }
    assert(values@.subrange(0, values@.len() as int) =~= values@);
    out
}

/// The hash key of several values.
pub fn hash_composite_key(values: &[Value]) -> (k: Vec<char>)
    ensures
        k@ == hash_composite_key_of(values@),
{
    let mut out: Vec<char> = Vec::new();
    let mut i: usize = 0;
    while i < values.len()
        invariant
            i <= values@.len(),
            out@ == joined(values@.subrange(0, i as int).map_values(|v: Value| hash_key_of(v))),
        decreases values@.len() - i,
    {
        if i > 0 {
            push_str(&mut out, "||");
        }
        let k = hash_key(&values[i]);
        push_chars(&mut out, &k);
        proof {
            let parts = values@.subrange(0, i + 1).map_values(|v: Value| hash_key_of(v));
            assert(parts.drop_last() =~= values@.subrange(0, i as int).map_values(|v: Value| hash_key_of(v)));
            if i == 0 {
                assert(out@ =~= parts[0]);
            } else {
                assert(out@ =~= joined(parts.drop_last()) + "||"@ + parts.last());
            }
        }
        i = i + 1;
    }
    assert(values@.subrange(0, values@.len() as int) =~= values@);
    out
}

} // verus!
