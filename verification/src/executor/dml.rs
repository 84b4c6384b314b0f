//! INSERT, UPDATE and DELETE on the row versions of a table.

use vstd::prelude::*;
use vstd::utf8::encode_utf8;
use crate::catalog::column::{Column, find_column, first_column_named};
use crate::catalog::data_type::{DataType, is_serial};
use crate::catalog::error::DatabaseError;
use crate::catalog::formats::{str_debug, str_debug_of};
use crate::catalog::names::NameMap;
use crate::catalog::row::{Row, visible_at};
use crate::catalog::table::Table;
use crate::catalog::value::{Value, debug_of, value_eq};
use crate::executor::QueryResult;
use crate::executor::conditions::{Condition, ConditionEvaluator, Outcome, eval_cond, reads_in_row, unknown_column_message};
use crate::catalog::value::identical;
use crate::executor::explain::{first_where, lemma_first_where_none};
use crate::executor::ddl::only_table_changed;
use crate::catalog::database::Database;
use crate::text::{decimal, fmt_usize, join_with, push_str, string_of, string_views};

verus! {

/// The length of a text in bytes, as UTF-8.
pub open spec fn text_bytes(s: Seq<char>) -> nat {
    encode_utf8(s).len()
}

/// `n` spaces.
pub open spec fn spaces(n: nat) -> Seq<char> {
    Seq::new(n, |i: int| ' ')
}

/// `s` padded on the right with spaces to `width` characters.
pub open spec fn padded(s: Seq<char>, width: nat) -> Seq<char> {
    if s.len() < width { s + spaces((width - s.len()) as nat) } else { s }
}

/// What storing a value in a column does to it.
pub ghost enum Coerced {
    /// The value is stored as it is.
    Keep,
    /// It becomes a CHAR value with this text.
    Char(Seq<char>),
    /// It becomes a label of an enumerated type.
    Enum(Seq<char>, Seq<char>),
    /// It is refused, with this message.
    Fail(Seq<char>),
}

/// The `Debug` rendering of a list of strings.
pub open spec fn strings_debug(v: Seq<String>) -> Seq<char> {
    "["@ + join_with(string_views(v).map_values(|s: Seq<char>| str_debug_of(s)), ", "@) + "]"@
}

/// Whether `labels` holds `s`.
pub open spec fn has_label(labels: Seq<String>, s: Seq<char>) -> bool {
    string_views(labels).contains(s)
}

/// What storing `v` in column `col` does to it. With `strict`, a CHAR value
/// longer than the column is refused as a text is; otherwise it is padded if
/// its length differs.
pub open spec fn coerce(col: Column, v: Value, strict: bool) -> Coerced {
    match col.data_type {
        DataType::Varchar { max_length } => match v {
            Value::Text(s) => if text_bytes(s@) > max_length {
                Coerced::Fail("Value too long for column '"@ + col.name@ + "': "@ + decimal(text_bytes(s@))
                    + " exceeds VARCHAR("@ + decimal(max_length as nat) + ")"@)
            } else {
                Coerced::Keep
            },
            _ => Coerced::Keep,
        },
        DataType::Char { length } => match v {
            Value::Text(s) => if text_bytes(s@) > length {
                Coerced::Fail(too_long_char(col.name@, text_bytes(s@), length as nat))
            } else {
                Coerced::Char(padded(s@, length as nat))
            },
            Value::Char(s) => if strict {
                if text_bytes(s@) > length {
                    Coerced::Fail(too_long_char(col.name@, text_bytes(s@), length as nat))
                } else {
                    Coerced::Char(padded(s@, length as nat))
                }
            } else if text_bytes(s@) != length {
                Coerced::Char(padded(s@, length as nat))
            } else {
                Coerced::Keep
            },
            _ => Coerced::Keep,
        },
        DataType::Enum { name, values } => match v {
            Value::Text(s) => if !has_label(values@, s@) {
                Coerced::Fail("Invalid value '"@ + s@ + "' for ENUM type '"@ + name@ + "'. Expected one of: "@
                    + strings_debug(values@))
            } else {
                Coerced::Enum(name@, s@)
            },
            Value::Enum(_, l) => if !has_label(values@, l@) {
                Coerced::Fail("Invalid value '"@ + l@ + "' for ENUM type '"@ + name@ + "'"@)
            } else {
                Coerced::Keep
            },
            _ => Coerced::Keep,
        },
        _ => Coerced::Keep,
    }
}

/// The message of a text too long for a CHAR column.
pub open spec fn too_long_char(col: Seq<char>, bytes: nat, length: nat) -> Seq<char> {
    "Value too long for column '"@ + col + "': "@ + decimal(bytes) + " exceeds CHAR("@ + decimal(length) + ")"@
}

/// `w` is what `v` becomes under `c`.
pub open spec fn becomes(v: Value, c: Coerced, w: Value) -> bool {
    match c {
        Coerced::Char(s) => w matches Value::Char(x) && x@ == s,
        Coerced::Enum(n, l) => w matches Value::Enum(a, b) && a@ == n && b@ == l,
        _ => w == v,
    }
}

/// The column positions whose value is refused.
pub open spec fn refused(cols: Seq<Column>, vals: Seq<Value>, strict: bool) -> spec_fn(int) -> bool {
    |i: int| coerce(cols[i], vals[i], strict) is Fail
}

/// The positions of the columns, in order.
pub open spec fn column_positions_upto(n: nat) -> Seq<int> {
    Seq::new(n, |i: int| i)
}

/// The values placed by position: named columns get the values paired with
/// their names (a later pair wins), the others NULL.
pub open spec fn placed(cols: Seq<Column>, names: Seq<String>, vals: Seq<Value>, k: nat) -> Seq<Value>
    decreases k,
{
    if k == 0 {
        Seq::new(cols.len(), |i: int| Value::Null)
    } else {
        let before = placed(cols, names, vals, (k - 1) as nat);
        match first_column_named(cols, names[k - 1]@) {
            Some(p) => before.update(p, vals[k - 1]),
            None => before,
        }
    }
}

/// Placing values keeps one value per column.
pub proof fn lemma_placed_len(cols: Seq<Column>, names: Seq<String>, vals: Seq<Value>, k: nat)
    ensures
        placed(cols, names, vals, k).len() == cols.len(),
    decreases k,
{
    if k > 0 {
        lemma_placed_len(cols, names, vals, (k - 1) as nat);
        crate::catalog::column::lemma_first_column_named(cols, names[k - 1]@);
    }
}

/// The names paired with a value that no column bears.
pub open spec fn name_unknown(cols: Seq<Column>) -> spec_fn(String) -> bool {
    |n: String| first_column_named(cols, n@) is None
}

/// The number of (name, value) pairs.
pub open spec fn pair_count(names: Seq<String>, vals: Seq<Value>) -> nat {
    if names.len() < vals.len() { names.len() } else { vals.len() }
}

/// The value a serial column left NULL takes: its sequence's next value, 1 if it has none.
pub open spec fn next_serial(seqs: Map<Seq<char>, i64>, col: Seq<char>) -> i64 {
    if seqs.contains_key(col) { seqs[col] } else { 1 }
}

/// The values with each NULL of a serial column replaced by its sequence's next value.
pub open spec fn with_serials(cols: Seq<Column>, seqs: Map<Seq<char>, i64>, vals: Seq<Value>) -> Seq<Value> {
    Seq::new(vals.len(), |i: int|
        if i < cols.len() && is_serial(cols[i].data_type) && vals[i] is Null {
            Value::Integer(next_serial(seqs, cols[i].name@))
        } else {
            vals[i]
        })
}

/// Runs the statements that change rows.
pub struct DmlExecutor;

impl DmlExecutor {
    /// The values of an INSERT in the order of the table's columns. With
    /// column names, names and values are paired in order (extra ones of
    /// either are dropped) and unnamed columns are NULL.
    pub fn reorder_values(table_columns: &Vec<Column>, columns: Option<Vec<String>>, values: Vec<Value>)
        -> (r: Result<Vec<Value>, DatabaseError>)
        ensures
            match columns {
                None => r == Ok::<Vec<Value>, DatabaseError>(values),
                Some(names) => {
                    let n = pair_count(names@, values@);
                    match first_where(names@.take(n as int), name_unknown(table_columns@)) {
                        Some(k) => r matches Err(DatabaseError::ParseError(m)) && m@ == unknown_column_message(names@[k]@),
                        None => r matches Ok(v) && v@ == placed(table_columns@, names@, values@, n),
                    }
                },
            },
    {
        match columns {
            None => Ok(values),
            Some(col_names) => {
                let ghost unknown = name_unknown(table_columns@);
                let n = if col_names.len() < values.len() { col_names.len() } else { values.len() };
                let ghost orig = values@;
                let mut pending = values;
                let mut ordered: Vec<Value> = Vec::new();
                let mut i: usize = 0;
                while i < table_columns.len()
                    invariant
                        i <= table_columns@.len(),
                        ordered@ == Seq::new(i as nat, |j: int| Value::Null),
                    decreases table_columns@.len() - i,
                {
                    ordered.push(Value::Null);
                    assert(ordered@ =~= Seq::new(i as nat + 1, |j: int| Value::Null));
                    i = i + 1;
                }
                let mut k: usize = 0;
                while k < n
                    invariant
                        n == pair_count(col_names@, orig),
                        n <= col_names@.len(),
                        n <= orig.len(),
                        pending@.len() == orig.len(),
                        orig == values@,
                        columns matches Some(c) && c@ == col_names@,
                        k <= n,
                        unknown == name_unknown(table_columns@),
                        first_where(col_names@.take(k as int), unknown) is None,
                        forall|j: int| k <= j < orig.len() ==> pending@[j] == orig[j],
                        ordered@ == placed(table_columns@, col_names@, orig, k as nat),
                        ordered@.len() == table_columns@.len(),
                    decreases n - k,
                {
                    proof {
                        crate::executor::explain::lemma_first_where_step(col_names@, unknown, k as int);
                        assert(col_names@.take(n as int).take(k as int + 1) =~= col_names@.take(k as int + 1));
                    }
                    match find_column(table_columns, col_names[k].as_str()) {
                        Some(idx) => {
                            let mut v = Value::Null;
                            std::mem::swap(&mut v, &mut pending[k]);
                            ordered.set(idx, v);
                        },
                        None => {
                            proof {
                                crate::executor::explain::lemma_first_where_prefix(col_names@.take(n as int), unknown, k as int + 1, n as int);
                                assert(col_names@.take(n as int).take(n as int) =~= col_names@.take(n as int));
                            }
                            return Err(DatabaseError::ParseError(Self::unknown_column_text(col_names[k].as_str())));
                        },
                    }
                    k = k + 1;
                }
                proof {
                    assert(col_names@.take(n as int).take(n as int) =~= col_names@.take(n as int));
                    assert(col_names@.take(n as int) =~= col_names@.take(k as int));
                }
                Ok(ordered)
            },
        }
    }

    fn unknown_column_text(name: &str) -> (m: String)
        ensures
            m@ == unknown_column_message(name@),
    {
        let mut out: Vec<char> = Vec::new();
        push_str(&mut out, "Unknown column: ");
        push_str(&mut out, name);
        string_of(&out)
    }

    /// Replaces each NULL of a serial column by its sequence's next value (1 if it has none).
    pub fn handle_serial_columns(columns: &Vec<Column>, sequences: &NameMap<i64>, values: &mut Vec<Value>)
        requires
            sequences.wf(),
            old(values)@.len() >= columns@.len(),
        ensures
            final(values)@ == with_serials(columns@, sequences@, old(values)@),
    {
        let mut i: usize = 0;
        while i < columns.len()
            invariant
                sequences.wf(),
                i <= columns@.len(),
                values@.len() == old(values)@.len(),
                old(values)@.len() >= columns@.len(),
                forall|j: int| 0 <= j < values@.len() ==> #[trigger] values@[j] == if j < i {
                    with_serials(columns@, sequences@, old(values)@)[j]
                } else {
                    old(values)@[j]
                },
            decreases columns@.len() - i,
        {
            let serial = match columns[i].data_type {
                DataType::Serial | DataType::BigSerial => true,
                _ => false,
            };
            if serial {
                let is_null = match values[i] {
                    Value::Null => true,
                    _ => false,
                };
                if is_null {
                    let seq_value = match sequences.get(columns[i].name.as_str()) {
                        Some(v) => *v,
                        None => 1,
                    };
                    values.set(i, Value::Integer(seq_value));
                }
            }
            i = i + 1;
        }
        assert(values@ =~= with_serials(columns@, sequences@, old(values)@));
    }
}

/// `s` padded on the right with spaces to `width` characters.
pub fn pad_to(s: &str, width: usize) -> (r: String)
    ensures
        r@ == padded(s@, width as nat),
{
    let mut out = crate::text::chars_of(s);
    if out.len() < width {
        let ghost start = out@;
        let mut k: usize = out.len();
        while k < width
            invariant
                start == s@,
                start.len() <= k <= width,
                out@ == start + spaces((k - start.len()) as nat),
            decreases width - k,
        {
            out.push(' ');
            assert(out@ =~= start + spaces((k + 1 - start.len()) as nat));
            k = k + 1;
        }
    }
    string_of(&out)
}

/// The length of a text in bytes, as UTF-8.
pub fn byte_len(s: &str) -> (n: usize)
    ensures
        n == text_bytes(s@),
{
    s.as_bytes().len()
}

impl DmlExecutor {
    fn has_label(labels: &Vec<String>, s: &String) -> (b: bool)
        ensures
            b == has_label(labels@, s@),
    {
        let mut j: usize = 0;
        while j < labels.len()
            invariant
                j <= labels@.len(),
                forall|m: int| 0 <= m < j ==> labels@[m]@ != s@,
            decreases labels@.len() - j,
        {
            if labels[j] == *s {
                assert(string_views(labels@)[j as int] == s@);
                return true;
            }
            j = j + 1;
        }
        proof {
            if has_label(labels@, s@) {
                let m = choose|m: int| 0 <= m < string_views(labels@).len() && string_views(labels@)[m] == s@;
                assert(labels@[m]@ == s@);
            }
        }
        false
    }

    fn push_strings_debug(out: &mut Vec<char>, v: &Vec<String>)
        ensures
            final(out)@ == old(out)@ + strings_debug(v@),
    {
        let mut parts: Vec<String> = Vec::new();
        let mut j: usize = 0;
        while j < v.len()
            invariant
                j <= v@.len(),
                string_views(parts@) == string_views(v@.take(j as int)).map_values(|s: Seq<char>| str_debug_of(s)),
            decreases v@.len() - j,
        {
            let d = str_debug(v[j].as_str());
            let ghost before = parts@;
            parts.push(d);
            assert(string_views(parts@) =~= string_views(before).push(d@));
            assert(string_views(v@.take(j as int + 1)).map_values(|s: Seq<char>| str_debug_of(s))
                =~= string_views(v@.take(j as int)).map_values(|s: Seq<char>| str_debug_of(s)).push(d@));
            j = j + 1;
        }
        assert(v@.take(v@.len() as int) =~= v@);
        push_str(out, "[");
        crate::text::push_joined(out, parts.as_slice(), ", ");
        push_str(out, "]");
        assert(out@ =~= old(out)@ + strings_debug(v@));
    }

    fn too_long(col: &str, bytes: usize, limit: usize, kind: &str) -> (m: String)
        ensures
            m@ == "Value too long for column '"@ + col@ + "': "@ + decimal(bytes as nat) + kind@
                + decimal(limit as nat) + ")"@,
    {
        let mut out: Vec<char> = Vec::new();
        push_str(&mut out, "Value too long for column '");
        push_str(&mut out, col);
        push_str(&mut out, "': ");
        let b = fmt_usize(bytes);
        push_str(&mut out, b.as_str());
        push_str(&mut out, kind);
        let l = fmt_usize(limit);
        push_str(&mut out, l.as_str());
        push_str(&mut out, ")");
        string_of(&out)
    }

    /// What storing `v` in `col` makes of it: `None` to keep it as it is.
    fn coerce_value(col: &Column, v: &Value, strict: bool) -> (r: Result<Option<Value>, String>)
        ensures
            match coerce(*col, *v, strict) {
                Coerced::Fail(m) => r matches Err(e) && e@ == m,
                Coerced::Keep => r == Ok::<Option<Value>, String>(None),
                c => r matches Ok(Some(w)) && becomes(*v, c, w),
            },
    {
        match &col.data_type {
            DataType::Varchar { max_length } => {
                match v {
                    Value::Text(s) => {
                        let b = byte_len(s.as_str());
                        if b > *max_length {
                            return Err(Self::too_long(col.name.as_str(), b, *max_length, " exceeds VARCHAR("));
                        }
                        Ok(None)
                    },
                    _ => Ok(None),
                }
            },
            DataType::Char { length } => {
                match v {
                    Value::Text(s) => {
                        let b = byte_len(s.as_str());
                        if b > *length {
                            return Err(Self::too_long(col.name.as_str(), b, *length, " exceeds CHAR("));
                        }
                        Ok(Some(Value::Char(pad_to(s.as_str(), *length))))
                    },
                    Value::Char(s) => {
                        let b = byte_len(s.as_str());
                        if strict {
                            if b > *length {
                                return Err(Self::too_long(col.name.as_str(), b, *length, " exceeds CHAR("));
                            }
                            Ok(Some(Value::Char(pad_to(s.as_str(), *length))))
                        } else if b != *length {
                            Ok(Some(Value::Char(pad_to(s.as_str(), *length))))
                        } else {
                            Ok(None)
                        }
                    },
                    _ => Ok(None),
                }
            },
            DataType::Enum { name, values } => {
                match v {
                    Value::Text(s) => {
                        if !Self::has_label(values, s) {
                            let mut out: Vec<char> = Vec::new();
                            push_str(&mut out, "Invalid value '");
                            push_str(&mut out, s.as_str());
                            push_str(&mut out, "' for ENUM type '");
                            push_str(&mut out, name.as_str());
                            push_str(&mut out, "'. Expected one of: ");
                            Self::push_strings_debug(&mut out, values);
                            assert(out@ =~= "Invalid value '"@ + s@ + "' for ENUM type '"@ + name@ + "'. Expected one of: "@
                                + strings_debug(values@));
                            return Err(string_of(&out));
                        }
                        Ok(Some(Value::Enum(name.clone(), s.clone())))
                    },
                    Value::Enum(_, l) => {
                        if !Self::has_label(values, l) {
                            let mut out: Vec<char> = Vec::new();
                            push_str(&mut out, "Invalid value '");
                            push_str(&mut out, l.as_str());
                            push_str(&mut out, "' for ENUM type '");
                            push_str(&mut out, name.as_str());
                            push_str(&mut out, "'");
                            return Err(string_of(&out));
                        }
                        Ok(None)
                    },
                    _ => Ok(None),
                }
            },
            _ => Ok(None),
        }
    }

    /// Checks each value against its column's type: VARCHAR and CHAR lengths
    /// (in bytes) and ENUM labels; pads CHAR values and turns texts stored in
    /// an ENUM column into labels. The first refused value, in column order,
    /// is reported; the values before it are already converted.
    pub fn validate_and_coerce_types(columns: &Vec<Column>, values: &mut Vec<Value>) -> (r: Result<(), DatabaseError>)
        requires
            old(values)@.len() >= columns@.len(),
        ensures
            coerced_outcome(columns@, old(values)@, final(values)@, true, r),
    {
        Self::coerce_all(columns, values, true)
    }

    fn coerce_all(columns: &Vec<Column>, values: &mut Vec<Value>, strict: bool) -> (r: Result<(), DatabaseError>)
        requires
            old(values)@.len() >= columns@.len(),
        ensures
            coerced_outcome(columns@, old(values)@, final(values)@, strict, r),
    {
        let ghost orig = values@;
        let ghost idx = column_positions_upto(columns@.len());
        let ghost bad = refused(columns@, orig, strict);
        let mut i: usize = 0;
        while i < columns.len()
            invariant
                orig == old(values)@,
                idx == column_positions_upto(columns@.len()),
                bad == refused(columns@, orig, strict),
                i <= columns@.len(),
                values@.len() == orig.len(),
                orig.len() >= columns@.len(),
                first_where(idx.take(i as int), bad) is None,
                forall|j: int| 0 <= j < orig.len() ==> if j < i {
                    becomes(orig[j], coerce(columns@[j], orig[j], strict), #[trigger] values@[j])
                } else {
                    values@[j] == orig[j]
                },
            decreases columns@.len() - i,
        {
            proof {
                crate::executor::explain::lemma_first_where_step(idx, bad, i as int);
            }
            match Self::coerce_value(&columns[i], &values[i], strict) {
                Ok(Some(w)) => {
                    values.set(i, w);
                },
                Ok(None) => {},
                Err(m) => {
                    proof {
                        crate::executor::explain::lemma_first_where_prefix(idx, bad, i as int + 1, idx.len() as int);
                        assert(idx.take(idx.len() as int) =~= idx);
                    }
                    return Err(DatabaseError::ParseError(m));
                },
            }
            i = i + 1;
        }
        assert(idx.take(idx.len() as int) =~= idx);
        Ok(())
    }
}

/// What coercing `before` against `cols` comes to: the first refused value's
/// message, the values before it converted; or every value converted.
pub open spec fn coerced_outcome(cols: Seq<Column>, before: Seq<Value>, after: Seq<Value>, strict: bool,
    r: Result<(), DatabaseError>) -> bool {
    &&& after.len() == before.len()
    &&& match first_where(column_positions_upto(cols.len()), refused(cols, before, strict)) {
        Some(k) => {
            &&& r matches Err(DatabaseError::ParseError(m)) && coerce(cols[k], before[k], strict) == Coerced::Fail(m@)
            &&& forall|j: int| 0 <= j < before.len() ==> if j < k {
                becomes(before[j], coerce(cols[j], before[j], strict), #[trigger] after[j])
            } else {
                after[j] == before[j]
            }
        },
        None => {
            &&& r is Ok
            &&& forall|j: int| 0 <= j < before.len() ==> if j < cols.len() {
                becomes(before[j], coerce(cols[j], before[j], strict), #[trigger] after[j])
            } else {
                after[j] == before[j]
            }
        },
    }
}

/// Some version of `rows` visible to `tx` holds a value equal to `v` at position `ci`.
pub open spec fn visible_holds(rows: Seq<Row>, ci: int, v: Value, tx: u64) -> bool {
    exists|r: int| 0 <= r < rows.len() && visible_at(rows[r], tx) && value_eq((#[trigger] rows[r]).values@[ci], v)
}

/// Every version of `rows` visible to `tx` has a value at position `ci`.
pub open spec fn visible_reach(rows: Seq<Row>, ci: int, tx: u64) -> bool {
    forall|r: int| 0 <= r < rows.len() && visible_at(#[trigger] rows[r], tx) ==> ci < rows[r].values@.len()
}

/// Why value `v` of column `col` breaks its foreign key, if it does.
pub open spec fn fk_problem(tables: Map<Seq<char>, Table>, col: Column, v: Value, tx: u64) -> Option<Seq<char>> {
    match col.foreign_key {
        None => None,
        Some(fk) => if v is Null {
            if col.nullable { None } else { Some("Column '"@ + col.name@ + "' cannot be NULL"@) }
        } else if !tables.contains_key(fk.referenced_table@) {
            Some("Referenced table '"@ + fk.referenced_table@ + "' does not exist"@)
        } else {
            let t = tables[fk.referenced_table@];
            match first_column_named(t.columns@, fk.referenced_column@) {
                None => Some("Referenced column '"@ + fk.referenced_column@ + "' not found"@),
                Some(ci) => if visible_holds(t.rows@, ci, v, tx) {
                    None
                } else {
                    Some("Foreign key constraint violation: value "@ + debug_of(v) + " not found in "@
                        + fk.referenced_table@ + "."@ + fk.referenced_column@)
                },
            }
        },
    }
}

/// The referenced tables have, in their visible versions, the referenced columns.
pub open spec fn fk_reach(tables: Map<Seq<char>, Table>, cols: Seq<Column>, tx: u64) -> bool {
    forall|i: int| 0 <= i < cols.len() && (#[trigger] cols[i]).foreign_key is Some
        && tables.contains_key(cols[i].foreign_key->0.referenced_table@) ==> {
        let t = tables[cols[i].foreign_key->0.referenced_table@];
        first_column_named(t.columns@, cols[i].foreign_key->0.referenced_column@) matches Some(ci)
            ==> visible_reach(t.rows@, ci, tx)
    }
}

/// The column positions whose value breaks a foreign key.
pub open spec fn fk_refused(tables: Map<Seq<char>, Table>, cols: Seq<Column>, vals: Seq<Value>, tx: u64) -> spec_fn(int) -> bool {
    |i: int| fk_problem(tables, cols[i], vals[i], tx) is Some
}

/// Why value `v` at position `i` breaks a UNIQUE or PRIMARY KEY constraint, if it does.
pub open spec fn unique_problem(rows: Seq<Row>, col: Column, i: int, v: Value, tx: u64) -> Option<Seq<char>> {
    if (col.unique || col.primary_key) && !(v is Null) && visible_holds(rows, i, v, tx) {
        Some("UNIQUE constraint violation: value "@ + debug_of(v) + " already exists in column '"@ + col.name@ + "'"@)
    } else {
        None
    }
}

/// The column positions whose value breaks a UNIQUE constraint.
pub open spec fn unique_refused(rows: Seq<Row>, cols: Seq<Column>, vals: Seq<Value>, tx: u64) -> spec_fn(int) -> bool {
    |i: int| unique_problem(rows, cols[i], i, vals[i], tx) is Some
}

/// The visible versions of `rows` have a value at each constrained column.
pub open spec fn unique_reach(rows: Seq<Row>, cols: Seq<Column>, tx: u64) -> bool {
    forall|i: int| 0 <= i < cols.len() && ((#[trigger] cols[i]).unique || cols[i].primary_key) ==> visible_reach(rows, i, tx)
}

impl DmlExecutor {
    /// Whether a version of `rows` visible to `tx` holds `v` at position `ci`.
    fn visible_value_exists(rows: &Vec<Row>, ci: usize, v: &Value, tx: u64) -> (b: bool)
        requires
            visible_reach(rows@, ci as int, tx),
        ensures
            b == visible_holds(rows@, ci as int, *v, tx),
    {
        let mut r: usize = 0;
        while r < rows.len()
            invariant
                r <= rows@.len(),
                visible_reach(rows@, ci as int, tx),
                forall|q: int| 0 <= q < r ==> !(visible_at(#[trigger] rows@[q], tx) && value_eq(rows@[q].values@[ci as int], *v)),
            decreases rows@.len() - r,
        {
            if rows[r].is_visible(tx) && rows[r].values[ci].equals(v) {
                return true;
            }
            r = r + 1;
        }
        false
    }

    fn fk_check(all_tables: &NameMap<Table>, col: &Column, v: &Value, tx: u64) -> (r: Result<(), DatabaseError>)
        requires
            all_tables.wf(),
            fk_reach(all_tables@, seq![*col], tx),
        ensures
            match fk_problem(all_tables@, *col, *v, tx) {
                Some(m) => r matches Err(DatabaseError::ForeignKeyViolation(e)) && e@ == m,
                None => r is Ok,
            },
    {
        match &col.foreign_key {
            None => Ok(()),
            Some(fk) => {
                assert(seq![*col][0] == *col);
                let is_null = match v {
                    Value::Null => true,
                    _ => false,
                };
                if is_null {
                    if col.nullable {
                        return Ok(());
                    }
                    let mut out: Vec<char> = Vec::new();
                    push_str(&mut out, "Column '");
                    push_str(&mut out, col.name.as_str());
                    push_str(&mut out, "' cannot be NULL");
                    return Err(DatabaseError::ForeignKeyViolation(string_of(&out)));
                }
                let ref_table = match all_tables.get(fk.referenced_table.as_str()) {
                    Some(t) => t,
                    None => {
                        let mut out: Vec<char> = Vec::new();
                        push_str(&mut out, "Referenced table '");
                        push_str(&mut out, fk.referenced_table.as_str());
                        push_str(&mut out, "' does not exist");
                        return Err(DatabaseError::ForeignKeyViolation(string_of(&out)));
                    },
                };
                let ci = match ref_table.get_column_index(fk.referenced_column.as_str()) {
                    Some(i) => i,
                    None => {
                        let mut out: Vec<char> = Vec::new();
                        push_str(&mut out, "Referenced column '");
                        push_str(&mut out, fk.referenced_column.as_str());
                        push_str(&mut out, "' not found");
                        return Err(DatabaseError::ForeignKeyViolation(string_of(&out)));
                    },
                };
                if Self::visible_value_exists(&ref_table.rows, ci, v, tx) {
                    return Ok(());
                }
                let mut out: Vec<char> = Vec::new();
                push_str(&mut out, "Foreign key constraint violation: value ");
                v.push_debug(&mut out);
                push_str(&mut out, " not found in ");
                push_str(&mut out, fk.referenced_table.as_str());
                push_str(&mut out, ".");
                push_str(&mut out, fk.referenced_column.as_str());
                Err(DatabaseError::ForeignKeyViolation(string_of(&out)))
            },
        }
    }

    /// Checks the foreign keys of the columns, in order: a NULL only where the
    /// column allows it, otherwise a value some visible version of the
    /// referenced column holds.
    /// Checks the foreign keys of `values` against the tables of `db` (see
    /// `validate_foreign_keys_with_tables`).
    pub fn validate_foreign_keys(db: &Database, columns: &Vec<Column>, values: &Vec<Value>, current_tx_id: u64)
        -> (r: Result<(), DatabaseError>)
        requires
            db.wf(),
            values@.len() >= columns@.len(),
            fk_reach(db.tables@, columns@, current_tx_id),
        ensures
            match first_where(column_positions_upto(columns@.len()), fk_refused(db.tables@, columns@, values@, current_tx_id)) {
                Some(k) => r matches Err(DatabaseError::ForeignKeyViolation(m))
                    && Some(m@) == fk_problem(db.tables@, columns@[k], values@[k], current_tx_id),
                None => r is Ok,
            },
    {
        Self::validate_foreign_keys_with_tables(&db.tables, columns, values, current_tx_id)
    }

    /// An INSERT entry point that refers callers to `insert_with_storage`:
    /// it always fails and changes nothing.
    pub fn insert_legacy(db: &mut Database, table_name: &str, columns: Option<Vec<String>>, values: Vec<Value>)
        -> (r: Result<QueryResult, DatabaseError>)
        ensures
            *final(db) == *old(db),
            r matches Err(DatabaseError::ParseError(m)) && m@ == "Use insert_with_storage directly"@,
    {
        Err(DatabaseError::ParseError("Use insert_with_storage directly".to_owned()))
    }

    pub fn validate_foreign_keys_with_tables(all_tables: &NameMap<Table>, columns: &Vec<Column>, values: &Vec<Value>,
        current_tx_id: u64) -> (r: Result<(), DatabaseError>)
        requires
            all_tables.wf(),
            values@.len() >= columns@.len(),
            fk_reach(all_tables@, columns@, current_tx_id),
        ensures
            match first_where(column_positions_upto(columns@.len()), fk_refused(all_tables@, columns@, values@, current_tx_id)) {
                Some(k) => r matches Err(DatabaseError::ForeignKeyViolation(m))
                    && Some(m@) == fk_problem(all_tables@, columns@[k], values@[k], current_tx_id),
                None => r is Ok,
            },
    {
        let ghost idx = column_positions_upto(columns@.len());
        let ghost bad = fk_refused(all_tables@, columns@, values@, current_tx_id);
        let mut i: usize = 0;
        while i < columns.len()
            invariant
                all_tables.wf(),
                values@.len() >= columns@.len(),
                fk_reach(all_tables@, columns@, current_tx_id),
                idx == column_positions_upto(columns@.len()),
                bad == fk_refused(all_tables@, columns@, values@, current_tx_id),
                i <= columns@.len(),
                first_where(idx.take(i as int), bad) is None,
            decreases columns@.len() - i,
        {
            proof {
                crate::executor::explain::lemma_first_where_step(idx, bad, i as int);
                assert(seq![columns@[i as int]][0] == columns@[i as int]);
                assert(fk_reach(all_tables@, seq![columns@[i as int]], current_tx_id));
            }
            match Self::fk_check(all_tables, &columns[i], &values[i], current_tx_id) {
                Ok(()) => {},
                Err(e) => {
                    proof {
                        crate::executor::explain::lemma_first_where_prefix(idx, bad, i as int + 1, idx.len() as int);
                        assert(idx.take(idx.len() as int) =~= idx);
                    }
                    return Err(e);
                },
            }
            i = i + 1;
        }
        assert(idx.take(idx.len() as int) =~= idx);
        Ok(())
    }

    /// Checks the UNIQUE and PRIMARY KEY columns, in order, against the
    /// versions of `rows` visible to the transaction; NULLs pass.
    pub fn validate_unique_constraints(columns: &Vec<Column>, values: &Vec<Value>, rows: &Vec<Row>, current_tx_id: u64)
        -> (r: Result<(), DatabaseError>)
        requires
            values@.len() >= columns@.len(),
            unique_reach(rows@, columns@, current_tx_id),
        ensures
            match first_where(column_positions_upto(columns@.len()), unique_refused(rows@, columns@, values@, current_tx_id)) {
                Some(k) => r matches Err(DatabaseError::UniqueViolation(m))
                    && Some(m@) == unique_problem(rows@, columns@[k], k, values@[k], current_tx_id),
                None => r is Ok,
            },
    {
        let ghost idx = column_positions_upto(columns@.len());
        let ghost bad = unique_refused(rows@, columns@, values@, current_tx_id);
        let mut i: usize = 0;
        while i < columns.len()
            invariant
                values@.len() >= columns@.len(),
                unique_reach(rows@, columns@, current_tx_id),
                idx == column_positions_upto(columns@.len()),
                bad == unique_refused(rows@, columns@, values@, current_tx_id),
                i <= columns@.len(),
                first_where(idx.take(i as int), bad) is None,
            decreases columns@.len() - i,
        {
            proof {
                crate::executor::explain::lemma_first_where_step(idx, bad, i as int);
            }
            if columns[i].unique || columns[i].primary_key {
                let is_null = match values[i] {
                    Value::Null => true,
                    _ => false,
                };
                if !is_null {
                    proof {
                        assert(columns@[i as int].unique || columns@[i as int].primary_key);
                    }
                    if Self::visible_value_exists(rows, i, &values[i], current_tx_id) {
                        let mut out: Vec<char> = Vec::new();
                        push_str(&mut out, "UNIQUE constraint violation: value ");
                        values[i].push_debug(&mut out);
                        push_str(&mut out, " already exists in column '");
                        push_str(&mut out, columns[i].name.as_str());
                        push_str(&mut out, "'");
                        proof {
                            crate::executor::explain::lemma_first_where_prefix(idx, bad, i as int + 1, idx.len() as int);
                            assert(idx.take(idx.len() as int) =~= idx);
                        }
                        return Err(DatabaseError::UniqueViolation(string_of(&out)));
                    }
                }
            }
            i = i + 1;
        }
        assert(idx.take(idx.len() as int) =~= idx);
        Ok(())
    }
}

/// Two values that differ at most in which string objects carry their texts.
pub open spec fn alike(x: Value, y: Value) -> bool {
    match (x, y) {
        (Value::Char(p), Value::Char(q)) => p@ == q@,
        (Value::Enum(a, b), Value::Enum(c, d)) => a@ == c@ && b@ == d@,
        _ => x == y,
    }
}

/// Alike values compare and print alike.
pub proof fn lemma_alike(x: Value, y: Value)
    requires
        alike(x, y),
    ensures
        forall|u: Value| value_eq(u, x) == value_eq(u, y),
        debug_of(x) == debug_of(y),
        (x is Null) == (y is Null),
{
}

/// The values `before` take in the columns `cols`, as stored.
pub open spec fn coerced_all(cols: Seq<Column>, before: Seq<Value>, after: Seq<Value>) -> bool {
    &&& after.len() == before.len()
    &&& forall|j: int| 0 <= j < before.len() ==> if j < cols.len() {
        becomes(before[j], coerce(cols[j], before[j], true), #[trigger] after[j])
    } else {
        after[j] == before[j]
    }
}

/// The values of an INSERT in column order, before serials are filled in.
pub open spec fn supplied(cols: Seq<Column>, names: Option<Vec<String>>, vals: Seq<Value>) -> Seq<Value> {
    match names {
        None => vals,
        Some(n) => placed(cols, n@, vals, pair_count(n@, vals)),
    }
}

/// The first name of an INSERT that no column bears, if any.
pub open spec fn unknown_name(cols: Seq<Column>, names: Option<Vec<String>>, vals: Seq<Value>) -> Option<Seq<char>> {
    match names {
        None => None,
        Some(n) => match first_where(n@.take(pair_count(n@, vals) as int), name_unknown(cols)) {
            Some(k) => Some(n@[k]@),
            None => None,
        },
    }
}

/// The sequences after an insert with values `vals`: each serial column
/// holding an integer (or, with `small`, a small integer) moves its sequence
/// past that value, if it is not past it already.
pub open spec fn sequences_after(cols: Seq<Column>, vals: Seq<Value>, seqs: Map<Seq<char>, i64>, small: bool, k: nat)
    -> Map<Seq<char>, i64>
    decreases k,
{
    if k == 0 {
        seqs
    } else {
        let before = sequences_after(cols, vals, seqs, small, (k - 1) as nat);
        let c = cols[k - 1];
        let v = vals[k - 1];
        let n = match v {
            Value::Integer(x) => Some(x as int),
            Value::SmallInt(x) => if small { Some(x as int) } else { None },
            _ => None,
        };
        if is_serial(c.data_type) && n is Some {
            let cur = next_serial(before, c.name@);
            let next = if cur >= n->0 + 1 { cur as int } else { n->0 + 1 };
            before.insert(c.name@, next as i64)
        } else {
            before
        }
    }
}

/// No serial column holds the largest integer, which has no successor.
pub open spec fn serials_bounded(cols: Seq<Column>, vals: Seq<Value>) -> bool {
    forall|i: int| 0 <= i < cols.len() && i < vals.len() && is_serial((#[trigger] cols[i]).data_type)
        ==> !(vals[i] matches Value::Integer(x) && x == i64::MAX)
}

/// What an INSERT into table `name` of `before` comes to, once the values
/// are checked and converted (`fv`).
pub open spec fn insert_checked(before: Database, after: Database, name: Seq<char>, fv: Seq<Value>, tx: u64,
    r: Result<QueryResult, DatabaseError>) -> bool {
    let t = before.tables@[name];
    let cols = t.columns@;
    let idx = column_positions_upto(cols.len());
    match first_where(idx, fk_refused(before.tables@, cols, fv, tx)) {
        Some(k) => r matches Err(DatabaseError::ForeignKeyViolation(m))
            && Some(m@) == fk_problem(before.tables@, cols[k], fv[k], tx),
        None => match first_where(idx, unique_refused(t.rows@, cols, fv, tx)) {
            Some(k) => r matches Err(DatabaseError::UniqueViolation(m))
                && Some(m@) == unique_problem(t.rows@, cols[k], k, fv[k], tx),
            None => r matches Ok(QueryResult::Success(m)) && m@ == "1 row inserted"@,
        },
    }
}

/// ENUM columns hold only their labels: a text or enumerated value that an
/// ENUM column accepts is stored as an enumerated value whose label is one of
/// the column's labels.
pub proof fn law_enum_accepts_only_labels(col: Column, v: Value, strict: bool, w: Value)
    requires
        col.data_type is Enum,
        v is Text || v is Enum,
        !(coerce(col, v, strict) is Fail),
        becomes(v, coerce(col, v, strict), w),
    ensures
        w matches Value::Enum(_, l) && string_views(col.data_type->Enum_values@).contains(l@),
{
}

/// After an INSERT succeeds (no value refused, the row added as
/// `insert_with_storage` states), every text or enumerated value given for an
/// ENUM column is stored as one of that column's labels.
pub proof fn law_insert_stores_enum_labels(before: Database, after: Database, name: Seq<char>, filled: Seq<Value>,
    tx: u64, j: int)
    requires
        before.tables@.contains_key(name),
        inserted(before, after, name, filled, tx),
        first_where(column_positions_upto(before.tables@[name].columns@.len()),
            refused(before.tables@[name].columns@, filled, true)) is None,
        0 <= j < before.tables@[name].columns@.len(),
        j < filled.len(),
        before.tables@[name].columns@[j].data_type is Enum,
        filled[j] is Text || filled[j] is Enum,
    ensures
        after.tables@[name].rows@.last().values@[j] matches Value::Enum(_, l)
            && string_views(before.tables@[name].columns@[j].data_type->Enum_values@).contains(l@),
{
    let t = before.tables@[name];
    let idx = column_positions_upto(t.columns@.len());
    lemma_first_where_none(idx, refused(t.columns@, filled, true));
    assert(idx[j] == j);
    let w = after.tables@[name].rows@.last().values@[j];
    assert(becomes(filled[j], coerce(t.columns@[j], filled[j], true), w));
    law_enum_accepts_only_labels(t.columns@[j], filled[j], true, w);
}

/// UNIQUE and PRIMARY KEY hold on INSERT: when the converted row would put,
/// in a UNIQUE or PRIMARY KEY column, a non-NULL value that a version visible
/// to the transaction already holds there, and no foreign key is broken
/// before, the INSERT is refused with a UNIQUE violation and the database is
/// left as it was (what `insert_with_storage` states of a refusal).
pub proof fn law_insert_keeps_unique(before: Database, after: Database, name: Seq<char>, fv: Seq<Value>, tx: u64,
    r: Result<QueryResult, DatabaseError>, i: int)
    requires
        before.tables@.contains_key(name),
        insert_checked(before, after, name, fv, tx, r),
        r is Err ==> after == before,
        0 <= i < before.tables@[name].columns@.len(),
        before.tables@[name].columns@[i].unique || before.tables@[name].columns@[i].primary_key,
        !(fv[i] is Null),
        visible_holds(before.tables@[name].rows@, i, fv[i], tx),
        first_where(column_positions_upto(before.tables@[name].columns@.len()),
            fk_refused(before.tables@, before.tables@[name].columns@, fv, tx)) is None,
    ensures
        r matches Err(DatabaseError::UniqueViolation(_)),
        after == before,
{
    let t = before.tables@[name];
    let idx = column_positions_upto(t.columns@.len());
    let p = unique_refused(t.rows@, t.columns@, fv, tx);
    assert(idx[i] == i);
    assert(p(idx[i]));
    if first_where(idx, p) is None {
        lemma_first_where_none(idx, p);
    }
}

/// The row an INSERT adds and the sequences it leaves.
pub open spec fn inserted(before: Database, after: Database, name: Seq<char>, filled: Seq<Value>, tx: u64) -> bool {
    let t = before.tables@[name];
    let t2 = after.tables@[name];
    &&& only_table_changed(before, after, name)
    &&& t2.name == t.name
    &&& t2.owner == t.owner
    &&& t2.columns == t.columns
    &&& t2.rows@.len() == t.rows@.len() + 1
    &&& t2.rows@.drop_last() == t.rows@
    &&& t2.rows@.last().xmin == tx
    &&& t2.rows@.last().xmax is None
    &&& coerced_all(t.columns@, filled, t2.rows@.last().values@)
    &&& t2.sequences.wf()
    &&& t2.sequences@ == sequences_after(t.columns@, t2.rows@.last().values@, t.sequences@, false, t.columns@.len())
}

impl DmlExecutor {
    /// Moves the sequence of each serial column past the integer (or small
    /// integer) it was given, if not past it already.
    pub fn update_serial_sequences(table: &mut Table, values: &Vec<Value>)
        requires
            old(table).wf(),
            values@.len() >= old(table).columns@.len(),
            serials_bounded(old(table).columns@, values@),
        ensures
            final(table).wf(),
            final(table).name == old(table).name,
            final(table).owner == old(table).owner,
            final(table).columns == old(table).columns,
            final(table).rows == old(table).rows,
            final(table).sequences@ == sequences_after(old(table).columns@, values@, old(table).sequences@, true,
                old(table).columns@.len()),
    {
        Self::advance_sequences(&table.columns, values, &mut table.sequences, true)
    }

    fn advance_sequences(cols: &Vec<Column>, values: &Vec<Value>, seqs: &mut NameMap<i64>, small: bool)
        requires
            old(seqs).wf(),
            values@.len() >= cols@.len(),
            serials_bounded(cols@, values@),
        ensures
            final(seqs).wf(),
            final(seqs)@ == sequences_after(cols@, values@, old(seqs)@, small, cols@.len()),
    {
        let n = cols.len();
        let mut i: usize = 0;
        while i < n
            invariant
                n == cols@.len(),
                i <= n,
                seqs.wf(),
                values@.len() >= n,
                serials_bounded(cols@, values@),
                seqs@ == sequences_after(cols@, values@, old(seqs)@, small, i as nat),
            decreases n - i,
        {
            let serial = match cols[i].data_type {
                DataType::Serial | DataType::BigSerial => true,
                _ => false,
            };
            let given: Option<i64> = match values[i] {
                Value::Integer(x) => Some(x),
                Value::SmallInt(x) => if small { Some(x as i64) } else { None },
                _ => None,
            };
            if serial {
                match given {
                    Some(x) => {
                        assert(is_serial(cols@[i as int].data_type));
                        let cur = match seqs.get(cols[i].name.as_str()) {
                            Some(c) => *c,
                            None => 1,
                        };
                        let next = if cur >= x + 1 { cur } else { x + 1 };
                        seqs.insert(cols[i].name.clone(), next);
                    },
                    None => {},
                }
            }
            i = i + 1;
        }
    }

    /// INSERT into `table_name`: the values are put in column order, serial
    /// columns left NULL take their sequence's next value, types are checked
    /// and converted, then foreign keys and UNIQUE columns are checked against
    /// what transaction `current_tx_id` sees; the row is added as a version
    /// created by that transaction, and serial sequences move past it.
    pub fn insert_with_storage(db: &mut Database, table_name: &str, columns: Option<Vec<String>>, values: Vec<Value>,
        current_tx_id: u64) -> (r: Result<QueryResult, DatabaseError>)
        requires
            old(db).wf(),
            old(db).tables@.contains_key(table_name@) ==> {
                let t = old(db).tables@[table_name@];
                &&& t.wf()
                &&& (columns is None ==> values@.len() >= t.columns@.len())
                &&& fk_reach(old(db).tables@, t.columns@, current_tx_id)
                &&& unique_reach(t.rows@, t.columns@, current_tx_id)
                &&& serials_bounded(t.columns@, with_serials(t.columns@, t.sequences@, supplied(t.columns@, columns, values@)))
            },
        ensures
            final(db).wf(),
            r is Err ==> *final(db) == *old(db),
            !old(db).tables@.contains_key(table_name@) ==> (r matches Err(DatabaseError::TableNotFound(n)) && n@ == table_name@),
            old(db).tables@.contains_key(table_name@) ==> {
                let t = old(db).tables@[table_name@];
                let cols = t.columns@;
                match unknown_name(cols, columns, values@) {
                    Some(n) => r matches Err(DatabaseError::ParseError(m)) && m@ == unknown_column_message(n),
                    None => {
                        let filled = with_serials(cols, t.sequences@, supplied(cols, columns, values@));
                        match first_where(column_positions_upto(cols.len()), refused(cols, filled, true)) {
                            Some(k) => r matches Err(DatabaseError::ParseError(m))
                                && coerce(cols[k], filled[k], true) == Coerced::Fail(m@),
                            None => {
                                &&& forall|fv: Seq<Value>| #[trigger] coerced_all(cols, filled, fv)
                                    ==> insert_checked(*old(db), *final(db), table_name@, fv, current_tx_id, r)
                                &&& r is Ok ==> inserted(*old(db), *final(db), table_name@, filled, current_tx_id)
                            },
                        }
                    },
                }
            },
    {
        let table = match db.get_table(table_name) {
            Some(t) => t,
            None => return Err(DatabaseError::TableNotFound(table_name.to_owned())),
        };
        let ghost t = *table;
        let ghost cols = table.columns@;
        let ghost given = values@;
        let ghost names = columns;
        let mut ordered = match Self::reorder_values(&table.columns, columns, values) {
            Ok(v) => v,
            Err(e) => return Err(e),
        };
        assert(ordered@ == supplied(cols, names, given));
        proof {
            match names {
                Some(n) => lemma_placed_len(cols, n@, given, pair_count(n@, given)),
                None => {},
            }
        }
        Self::handle_serial_columns(&table.columns, &table.sequences, &mut ordered);
        let ghost filled = ordered@;
        match Self::coerce_all(&table.columns, &mut ordered, true) {
            Ok(()) => {},
            Err(e) => return Err(e),
        }
        let ghost fv0 = ordered@;
        proof {
            assert(coerced_all(cols, filled, fv0));
        }
        let fk = Self::validate_foreign_keys_with_tables(&db.tables, &table.columns, &ordered, current_tx_id);
        match fk {
            Ok(()) => {},
            Err(e) => {
                proof {
                    Self::lemma_checks_alike(*db, table_name@, filled, fv0, current_tx_id);
                    crate::executor::explain::lemma_first_where_found(column_positions_upto(cols.len()),
                        fk_refused(db.tables@, cols, fv0, current_tx_id));
                }
                return Err(e);
            },
        }
        let uq = Self::validate_unique_constraints(&table.columns, &ordered, &table.rows, current_tx_id);
        match uq {
            Ok(()) => {},
            Err(e) => {
                proof {
                    Self::lemma_checks_alike(*db, table_name@, filled, fv0, current_tx_id);
                    crate::executor::explain::lemma_first_where_found(column_positions_upto(cols.len()),
                        unique_refused(t.rows@, cols, fv0, current_tx_id));
                }
                return Err(e);
            },
        }
        let ghost before = *db;
        match db.get_table_mut(table_name) {
            Some(tm) => {
                let row = Row::new_with_xmin(ordered, current_tx_id);
                tm.rows.push(row);
                let last = tm.rows.len() - 1;
                proof {
                    assert(serials_bounded(cols, fv0)) by {
                        assert forall|i: int| 0 <= i < cols.len() && i < fv0.len() && is_serial((#[trigger] cols[i]).data_type)
                            implies !(fv0[i] matches Value::Integer(x) && x == i64::MAX) by {
                            assert(becomes(filled[i], coerce(cols[i], filled[i], true), fv0[i]));
                        }
                    }
                }
                Self::advance_last(tm, last);
            },
            None => {},
        }
        proof {
            Self::lemma_checks_alike(before, table_name@, filled, fv0, current_tx_id);
            let t2 = db.tables@[table_name@];
            assert(t2.rows@.drop_last() =~= t.rows@);
            assert(t2.rows@.last().values@ == fv0);
            assert(inserted(before, *db, table_name@, filled, current_tx_id));
        }
        Ok(QueryResult::Success("1 row inserted".to_owned()))
    }

    fn advance_last(table: &mut Table, last: usize)
        requires
            old(table).wf(),
            last + 1 == old(table).rows@.len(),
            old(table).rows@[last as int].values@.len() >= old(table).columns@.len(),
            serials_bounded(old(table).columns@, old(table).rows@[last as int].values@),
        ensures
            final(table).wf(),
            final(table).name == old(table).name,
            final(table).owner == old(table).owner,
            final(table).columns == old(table).columns,
            final(table).rows == old(table).rows,
            final(table).sequences@ == sequences_after(old(table).columns@, old(table).rows@[last as int].values@,
                old(table).sequences@, false, old(table).columns@.len()),
    {
        Self::advance_sequences(&table.columns, &table.rows[last].values, &mut table.sequences, false);
    }

    /// Values that become alike under the same conversions pass and fail the
    /// same checks.
    proof fn lemma_checks_alike(db: Database, name: Seq<char>, filled: Seq<Value>, fv0: Seq<Value>, tx: u64)
        requires
            db.tables@.contains_key(name),
            filled.len() >= db.tables@[name].columns@.len(),
            coerced_all(db.tables@[name].columns@, filled, fv0),
        ensures
            forall|fv: Seq<Value>| #[trigger] coerced_all(db.tables@[name].columns@, filled, fv) ==> {
                let t = db.tables@[name];
                let cols = t.columns@;
                let idx = column_positions_upto(cols.len());
                &&& first_where(idx, fk_refused(db.tables@, cols, fv, tx)) == first_where(idx, fk_refused(db.tables@, cols, fv0, tx))
                &&& first_where(idx, unique_refused(t.rows@, cols, fv, tx)) == first_where(idx, unique_refused(t.rows@, cols, fv0, tx))
                &&& forall|i: int| 0 <= i < cols.len() ==> fk_problem(db.tables@, cols[i], #[trigger] fv[i], tx)
                    == fk_problem(db.tables@, cols[i], fv0[i], tx)
                &&& forall|i: int| 0 <= i < cols.len() ==> unique_problem(t.rows@, cols[i], i, #[trigger] fv[i], tx)
                    == unique_problem(t.rows@, cols[i], i, fv0[i], tx)
            },
    {
        let t = db.tables@[name];
        let cols = t.columns@;
        let idx = column_positions_upto(cols.len());
        assert forall|fv: Seq<Value>| #[trigger] coerced_all(cols, filled, fv) implies {
            &&& first_where(idx, fk_refused(db.tables@, cols, fv, tx)) == first_where(idx, fk_refused(db.tables@, cols, fv0, tx))
            &&& first_where(idx, unique_refused(t.rows@, cols, fv, tx)) == first_where(idx, unique_refused(t.rows@, cols, fv0, tx))
            &&& forall|i: int| 0 <= i < cols.len() ==> fk_problem(db.tables@, cols[i], #[trigger] fv[i], tx)
                == fk_problem(db.tables@, cols[i], fv0[i], tx)
            &&& forall|i: int| 0 <= i < cols.len() ==> unique_problem(t.rows@, cols[i], i, #[trigger] fv[i], tx)
                == unique_problem(t.rows@, cols[i], i, fv0[i], tx)
        } by {
            assert forall|i: int| 0 <= i < cols.len() implies
                fk_problem(db.tables@, cols[i], #[trigger] fv[i], tx) == fk_problem(db.tables@, cols[i], fv0[i], tx)
                && unique_problem(t.rows@, cols[i], i, fv[i], tx) == unique_problem(t.rows@, cols[i], i, fv0[i], tx) by {
                assert(becomes(filled[i], coerce(cols[i], filled[i], true), fv[i]));
                assert(becomes(filled[i], coerce(cols[i], filled[i], true), fv0[i]));
                assert(alike(fv[i], fv0[i]));
                lemma_alike(fv[i], fv0[i]);
                Self::lemma_holds_alike(t.rows@, i, fv[i], fv0[i], tx);
                match cols[i].foreign_key {
                    Some(fk) => {
                        if db.tables@.contains_key(fk.referenced_table@) {
                            let rt = db.tables@[fk.referenced_table@];
                            match first_column_named(rt.columns@, fk.referenced_column@) {
                                Some(ci) => Self::lemma_holds_alike(rt.rows@, ci, fv[i], fv0[i], tx),
                                None => {},
                            }
                        }
                    },
                    None => {},
                }
            }
            crate::executor::explain::lemma_first_where_agree(idx, fk_refused(db.tables@, cols, fv, tx), fk_refused(db.tables@, cols, fv0, tx));
            crate::executor::explain::lemma_first_where_agree(idx, unique_refused(t.rows@, cols, fv, tx), unique_refused(t.rows@, cols, fv0, tx));
        }
    }

    proof fn lemma_holds_alike(rows: Seq<Row>, ci: int, x: Value, y: Value, tx: u64)
        requires
            alike(x, y),
        ensures
            visible_holds(rows, ci, x, tx) == visible_holds(rows, ci, y, tx),
    {
        lemma_alike(x, y);
        if visible_holds(rows, ci, x, tx) {
            let r = choose|r: int| 0 <= r < rows.len() && visible_at(rows[r], tx) && value_eq((#[trigger] rows[r]).values@[ci], x);
            assert(value_eq(rows[r].values@[ci], y));
        }
        if visible_holds(rows, ci, y, tx) {
            let r = choose|r: int| 0 <= r < rows.len() && visible_at(rows[r], tx) && value_eq((#[trigger] rows[r]).values@[ci], y);
            assert(value_eq(rows[r].values@[ci], x));
        }
    }
}

/// Whether a filter selects a row with values `vals`: no filter selects every
/// row; a condition that cannot be evaluated selects none.
pub open spec fn selects(cols: Seq<Column>, vals: Seq<Value>, filter: Option<Condition>) -> bool {
    match filter {
        None => true,
        Some(c) => eval_cond(cols, vals, c) == Outcome::Holds(true),
    }
}

/// Every row can be tested against the filter.
pub open spec fn filter_reads(cols: Seq<Column>, rows: Seq<Row>, filter: Option<Condition>) -> bool {
    match filter {
        None => true,
        Some(c) => forall|i: int| 0 <= i < rows.len() ==> reads_in_row(cols, (#[trigger] rows[i]).values@, c),
    }
}

/// The positions, in order, of the rows an UPDATE rewrites.
pub open spec fn chosen(cols: Seq<Column>, rows: Seq<Row>, filter: Option<Condition>) -> Seq<int>
    decreases rows.len(),
{
    if rows.len() == 0 {
        Seq::empty()
    } else {
        chosen(cols, rows.drop_last(), filter)
            + if selects(cols, rows.last().values@, filter) { seq![rows.len() - 1] } else { Seq::empty() }
    }
}

/// The positions, in order, of the rows a DELETE removes: visible to the
/// transaction and selected.
pub open spec fn doomed(cols: Seq<Column>, rows: Seq<Row>, filter: Option<Condition>, tx: u64) -> Seq<int>
    decreases rows.len(),
{
    if rows.len() == 0 {
        Seq::empty()
    } else {
        doomed(cols, rows.drop_last(), filter, tx)
            + if visible_at(rows.last(), tx) && selects(cols, rows.last().values@, filter) {
                seq![rows.len() - 1]
            } else {
                Seq::empty()
            }
    }
}

/// The values with each assignment (position, value) applied in turn.
pub open spec fn assigned(vals: Seq<Value>, upd: Seq<(int, Value)>) -> Seq<Value>
    decreases upd.len(),
{
    if upd.len() == 0 {
        vals
    } else {
        assigned(vals, upd.drop_last()).update(upd.last().0, upd.last().1)
    }
}

/// The assignments of an UPDATE by column position.
pub open spec fn assignment_positions(cols: Seq<Column>, a: Seq<(String, Value)>) -> Seq<(int, Value)> {
    a.map_values(|p: (String, Value)| (first_column_named(cols, p.0@)->0, p.1))
}

/// The assigned names that no column bears.
pub open spec fn assignment_unknown(cols: Seq<Column>) -> spec_fn((String, Value)) -> bool {
    |p: (String, Value)| first_column_named(cols, p.0@) is None
}

/// Two value lists hold the same values.
pub open spec fn identical_all(a: Seq<Value>, b: Seq<Value>) -> bool {
    a.len() == b.len() && forall|i: int| 0 <= i < a.len() ==> identical(#[trigger] a[i], b[i])
}

/// The versions of an UPDATE: each rewritten row is marked deleted by `tx`,
/// and its new version, created by `tx`, is appended, in row order.
pub open spec fn updated_rows(before: Seq<Row>, after: Seq<Row>, pick: Seq<int>, upd: Seq<(int, Value)>, tx: u64) -> bool {
    &&& after.len() == before.len() + pick.len()
    &&& forall|i: int| 0 <= i < before.len() ==> {
        &&& (#[trigger] after[i]).values == before[i].values
        &&& after[i].xmin == before[i].xmin
        &&& after[i].xmax == if pick.contains(i) { Some(tx) } else { before[i].xmax }
    }
    &&& forall|j: int| 0 <= j < pick.len() ==> {
        &&& identical_all((#[trigger] after[before.len() + j]).values@, assigned(before[pick[j]].values@, upd))
        &&& after[before.len() + j].xmin == tx
        &&& after[before.len() + j].xmax is None
    }
}

/// The versions after a DELETE: the removed rows are marked deleted by `tx`.
pub open spec fn deleted_rows(before: Seq<Row>, after: Seq<Row>, pick: Seq<int>, tx: u64) -> bool {
    &&& after.len() == before.len()
    &&& forall|i: int| 0 <= i < before.len() ==> {
        &&& (#[trigger] after[i]).values == before[i].values
        &&& after[i].xmin == before[i].xmin
        &&& after[i].xmax == if pick.contains(i) { Some(tx) } else { before[i].xmax }
    }
}

impl DmlExecutor {
    fn selects_row(columns: &Vec<Column>, row: &Row, filter: &Option<Condition>) -> (b: bool)
        requires
            *filter matches Some(c) ==> reads_in_row(columns@, row.values@, c),
        ensures
            b == selects(columns@, row.values@, *filter),
    {
        match filter {
            None => true,
            Some(c) => match ConditionEvaluator::evaluate_with_columns(columns, row, c) {
                Ok(b) => b,
                Err(_) => false,
            },
        }
    }

    fn copy_identical(v: &Vec<Value>) -> (r: Vec<Value>)
        ensures
            identical_all(r@, v@),
    {
        let mut r: Vec<Value> = Vec::new();
        let mut i: usize = 0;
        while i < v.len()
            invariant
                i <= v@.len(),
                r@.len() == i,
                forall|j: int| 0 <= j < i ==> identical(#[trigger] r@[j], v@[j]),
            decreases v@.len() - i,
        {
            r.push(v[i].duplicate());
            i = i + 1;
        }
        r
    }

    /// The positions of the rows an UPDATE rewrites.
    fn chosen_rows(columns: &Vec<Column>, rows: &Vec<Row>, filter: &Option<Condition>) -> (r: Vec<usize>)
        requires
            filter_reads(columns@, rows@, *filter),
        ensures
            r@.map_values(|p: usize| p as int) == chosen(columns@, rows@, *filter),
    {
        let mut picks: Vec<usize> = Vec::new();
        let mut i: usize = 0;
        while i < rows.len()
            invariant
                i <= rows@.len(),
                filter_reads(columns@, rows@, *filter),
                picks@.map_values(|p: usize| p as int) == chosen(columns@, rows@.take(i as int), *filter),
            decreases rows@.len() - i,
        {
            assert(rows@.take(i as int + 1).drop_last() =~= rows@.take(i as int));
            let ghost before = picks@;
            if Self::selects_row(columns, &rows[i], filter) {
                picks.push(i);
                assert(picks@.map_values(|p: usize| p as int) =~= before.map_values(|p: usize| p as int).push(i as int));
            }
            assert(picks@.map_values(|p: usize| p as int) =~= chosen(columns@, rows@.take(i as int + 1), *filter));
            i = i + 1;
        }
        assert(rows@.take(rows@.len() as int) =~= rows@);
        picks
    }

    /// The positions of the rows a DELETE removes.
    fn doomed_rows(columns: &Vec<Column>, rows: &Vec<Row>, filter: &Option<Condition>, tx: u64) -> (r: Vec<usize>)
        requires
            filter_reads(columns@, rows@, *filter),
        ensures
            r@.map_values(|p: usize| p as int) == doomed(columns@, rows@, *filter, tx),
    {
        let mut picks: Vec<usize> = Vec::new();
        let mut i: usize = 0;
        while i < rows.len()
            invariant
                i <= rows@.len(),
                filter_reads(columns@, rows@, *filter),
                picks@.map_values(|p: usize| p as int) == doomed(columns@, rows@.take(i as int), *filter, tx),
            decreases rows@.len() - i,
        {
            assert(rows@.take(i as int + 1).drop_last() =~= rows@.take(i as int));
            let ghost before = picks@;
            if rows[i].is_visible(tx) && Self::selects_row(columns, &rows[i], filter) {
                picks.push(i);
                assert(picks@.map_values(|p: usize| p as int) =~= before.map_values(|p: usize| p as int).push(i as int));
            }
            assert(picks@.map_values(|p: usize| p as int) =~= doomed(columns@, rows@.take(i as int + 1), *filter, tx));
            i = i + 1;
        }
        assert(rows@.take(rows@.len() as int) =~= rows@);
        picks
    }
}

/// Every row an UPDATE rewrites has a value at each assigned column.
pub open spec fn assignments_reach(cols: Seq<Column>, rows: Seq<Row>, filter: Option<Condition>, a: Seq<(String, Value)>) -> bool {
    forall|j: int, k: int| 0 <= j < chosen(cols, rows, filter).len() && 0 <= k < a.len()
        && (#[trigger] first_column_named(cols, a[k].0@)) is Some
        ==> first_column_named(cols, a[k].0@)->0 < (#[trigger] rows[chosen(cols, rows, filter)[j]]).values@.len()
}

impl DmlExecutor {
    /// UPDATE: each row the filter selects is marked deleted by the
    /// transaction and a new version with the assignments applied is appended.
    pub fn update_with_storage(table: &mut Table, assignments: Vec<(String, Value)>, filter: Option<Condition>,
        current_tx_id: u64) -> (r: Result<QueryResult, DatabaseError>)
        requires
            filter_reads(old(table).columns@, old(table).rows@, filter),
            assignments_reach(old(table).columns@, old(table).rows@, filter, assignments@),
        ensures
            final(table).name == old(table).name,
            final(table).owner == old(table).owner,
            final(table).columns == old(table).columns,
            final(table).sequences == old(table).sequences,
            match first_where(assignments@, assignment_unknown(old(table).columns@)) {
                Some(k) => r matches Err(DatabaseError::ParseError(m)) && m@ == unknown_column_message(assignments@[k].0@)
                    && final(table).rows == old(table).rows,
                None => {
                    let pick = chosen(old(table).columns@, old(table).rows@, filter);
                    &&& r matches Ok(QueryResult::Success(m)) && m@ == decimal(pick.len()) + " row(s) updated"@
                    &&& updated_rows(old(table).rows@, final(table).rows@, pick,
                        assignment_positions(old(table).columns@, assignments@), current_tx_id)
                },
            },
    {
        let ghost cols = table.columns@;
        let ghost unknown = assignment_unknown(cols);
        let mut positions: Vec<usize> = Vec::new();
        let mut k: usize = 0;
        while k < assignments.len()
            invariant
                cols == table.columns@,
                unknown == assignment_unknown(cols),
                k <= assignments@.len(),
                positions@.len() == k,
                first_where(assignments@.take(k as int), unknown) is None,
                forall|q: int| 0 <= q < k ==> (#[trigger] positions@[q]) as int == first_column_named(cols, assignments@[q].0@)->0
                    && first_column_named(cols, assignments@[q].0@) is Some,
            decreases assignments@.len() - k,
        {
            proof {
                crate::executor::explain::lemma_first_where_step(assignments@, unknown, k as int);
            }
            match find_column(&table.columns, assignments[k].0.as_str()) {
                Some(p) => positions.push(p),
                None => {
                    proof {
                        crate::executor::explain::lemma_first_where_prefix(assignments@, unknown, k as int + 1, assignments@.len() as int);
                        assert(assignments@.take(assignments@.len() as int) =~= assignments@);
                    }
                    return Err(DatabaseError::ParseError(Self::unknown_column_text(assignments[k].0.as_str())));
                },
            }
            k = k + 1;
        }
        assert(assignments@.take(assignments@.len() as int) =~= assignments@);
        let ghost upd = assignment_positions(cols, assignments@);
        let picks = Self::chosen_rows(&table.columns, &table.rows, &filter);
        let ghost pick = chosen(cols, old(table).rows@, filter);
        let ghost before = table.rows@;
        let n = table.rows.len();
        let mut j: usize = 0;
        while j < picks.len()
            invariant
                n == before.len(),
                before == old(table).rows@,
                cols == table.columns@,
                table.name == old(table).name,
                table.owner == old(table).owner,
                table.columns == old(table).columns,
                table.sequences == old(table).sequences,
                picks@.map_values(|p: usize| p as int) == pick,
                pick == chosen(cols, before, filter),
                upd == assignment_positions(cols, assignments@),
                positions@.len() == assignments@.len(),
                forall|q: int| 0 <= q < assignments@.len() ==> (#[trigger] positions@[q]) as int == upd[q].0
                    && first_column_named(cols, assignments@[q].0@) is Some,
                assignments_reach(cols, before, filter, assignments@),
                j <= picks@.len(),
                table.rows@.len() == n + j,
                forall|i: int| 0 <= i < n ==> {
                    &&& (#[trigger] table.rows@[i]).values == before[i].values
                    &&& table.rows@[i].xmin == before[i].xmin
                    &&& table.rows@[i].xmax == if pick.take(j as int).contains(i) { Some(current_tx_id) } else { before[i].xmax }
                },
                forall|q: int| 0 <= q < j ==> {
                    &&& identical_all((#[trigger] table.rows@[n + q]).values@, assigned(before[pick[q]].values@, upd))
                    &&& table.rows@[n + q].xmin == current_tx_id
                    &&& table.rows@[n + q].xmax is None
                },
            decreases picks@.len() - j,
        {
            let p = picks[j];
            assert(pick[j as int] == p as int);
            proof {
                Self::lemma_chosen_in_range(cols, before, filter);
            }
            let mut nv = Self::copy_identical(&table.rows[p].values);
            let mut a: usize = 0;
            while a < assignments.len()
                invariant
                    a <= assignments@.len(),
                    positions@.len() == assignments@.len(),
                    upd == assignment_positions(cols, assignments@),
                    forall|q: int| 0 <= q < assignments@.len() ==> (#[trigger] positions@[q]) as int == upd[q].0,
                    forall|q: int| 0 <= q < assignments@.len() ==> (#[trigger] positions@[q]) < nv@.len(),
                    identical_all(nv@, assigned(before[p as int].values@, upd.take(a as int))),
                decreases assignments@.len() - a,
            {
                let idx = positions[a];
                nv.set(idx, assignments[a].1.duplicate());
                assert(upd.take(a as int + 1).drop_last() =~= upd.take(a as int));
                a = a + 1;
            }
            assert(upd.take(upd.len() as int) =~= upd);
            table.rows[p].xmax = Some(current_tx_id);
            table.rows.push(Row::new_with_xmin(nv, current_tx_id));
            proof {
                let pt1 = pick.take(j as int + 1);
                let pt0 = pick.take(j as int);
                assert forall|i: int| 0 <= i < n implies (#[trigger] pt1.contains(i)) == (pt0.contains(i) || i == p as int) by {
                    if pt1.contains(i) {
                        let w = choose|w: int| 0 <= w < pt1.len() && #[trigger] pt1[w] == i;
                        if w < j {
                            assert(pt0[w] == i);
                        }
                    }
                    if pt0.contains(i) {
                        let w = choose|w: int| 0 <= w < pt0.len() && #[trigger] pt0[w] == i;
                        assert(pt1[w] == i);
                    }
                    if i == p as int {
                        assert(pt1[j as int] == i);
                    }
                }
            }
            j = j + 1;
        }
        assert(pick.take(pick.len() as int) =~= pick);
        let mut out: Vec<char> = Vec::new();
        let count = fmt_usize(picks.len());
        push_str(&mut out, count.as_str());
        push_str(&mut out, " row(s) updated");
        Ok(QueryResult::Success(string_of(&out)))
    }

    proof fn lemma_chosen_in_range(cols: Seq<Column>, rows: Seq<Row>, filter: Option<Condition>)
        ensures
            forall|j: int| 0 <= j < chosen(cols, rows, filter).len() ==> 0 <= #[trigger] chosen(cols, rows, filter)[j] < rows.len(),
        decreases rows.len(),
    {
        if rows.len() > 0 {
            Self::lemma_chosen_in_range(cols, rows.drop_last(), filter);
            let prev = chosen(cols, rows.drop_last(), filter);
            let cur = chosen(cols, rows, filter);
            assert forall|j: int| 0 <= j < cur.len() implies 0 <= #[trigger] cur[j] < rows.len() by {
                if j < prev.len() {
                    assert(cur[j] == prev[j]);
                }
            }
        }
    }
}

impl DmlExecutor {
    /// DELETE: each row visible to the transaction that the filter selects is
    /// marked deleted by it.
    pub fn delete_with_storage(table: &mut Table, filter: Option<Condition>, current_tx_id: u64)
        -> (r: Result<QueryResult, DatabaseError>)
        requires
            filter_reads(old(table).columns@, old(table).rows@, filter),
        ensures
            final(table).name == old(table).name,
            final(table).owner == old(table).owner,
            final(table).columns == old(table).columns,
            final(table).sequences == old(table).sequences,
            ({
                let pick = doomed(old(table).columns@, old(table).rows@, filter, current_tx_id);
                &&& r matches Ok(QueryResult::Success(m)) && m@ == decimal(pick.len()) + " row(s) deleted"@
                &&& deleted_rows(old(table).rows@, final(table).rows@, pick, current_tx_id)
            }),
    {
        let ghost cols = table.columns@;
        let picks = Self::doomed_rows(&table.columns, &table.rows, &filter, current_tx_id);
        let ghost pick = doomed(cols, old(table).rows@, filter, current_tx_id);
        let ghost before = table.rows@;
        proof {
            Self::lemma_doomed_in_range(cols, before, filter, current_tx_id);
        }
        let n = table.rows.len();
        let mut j: usize = 0;
        while j < picks.len()
            invariant
                n == before.len(),
                before == old(table).rows@,
                table.name == old(table).name,
                table.owner == old(table).owner,
                table.columns == old(table).columns,
                table.sequences == old(table).sequences,
                picks@.map_values(|p: usize| p as int) == pick,
                forall|q: int| 0 <= q < pick.len() ==> 0 <= #[trigger] pick[q] < n,
                j <= picks@.len(),
                table.rows@.len() == n,
                forall|i: int| 0 <= i < n ==> {
                    &&& (#[trigger] table.rows@[i]).values == before[i].values
                    &&& table.rows@[i].xmin == before[i].xmin
                    &&& table.rows@[i].xmax == if pick.take(j as int).contains(i) { Some(current_tx_id) } else { before[i].xmax }
                },
            decreases picks@.len() - j,
        {
            let p = picks[j];
            assert(pick[j as int] == p as int);
            table.rows[p].xmax = Some(current_tx_id);
            proof {
                let pt1 = pick.take(j as int + 1);
                let pt0 = pick.take(j as int);
                assert forall|i: int| 0 <= i < n implies (#[trigger] pt1.contains(i)) == (pt0.contains(i) || i == p as int) by {
                    if pt1.contains(i) {
                        let w = choose|w: int| 0 <= w < pt1.len() && #[trigger] pt1[w] == i;
                        if w < j {
                            assert(pt0[w] == i);
                        }
                    }
                    if pt0.contains(i) {
                        let w = choose|w: int| 0 <= w < pt0.len() && #[trigger] pt0[w] == i;
                        assert(pt1[w] == i);
                    }
                    if i == p as int {
                        assert(pt1[j as int] == i);
                    }
                }
            }
            j = j + 1;
        }
        assert(pick.take(pick.len() as int) =~= pick);
        let mut out: Vec<char> = Vec::new();
        let count = fmt_usize(picks.len());
        push_str(&mut out, count.as_str());
        push_str(&mut out, " row(s) deleted");
        Ok(QueryResult::Success(string_of(&out)))
    }

    proof fn lemma_doomed_in_range(cols: Seq<Column>, rows: Seq<Row>, filter: Option<Condition>, tx: u64)
        ensures
            forall|j: int| 0 <= j < doomed(cols, rows, filter, tx).len() ==> 0 <= #[trigger] doomed(cols, rows, filter, tx)[j] < rows.len(),
        decreases rows.len(),
    {
        if rows.len() > 0 {
            Self::lemma_doomed_in_range(cols, rows.drop_last(), filter, tx);
            let prev = doomed(cols, rows.drop_last(), filter, tx);
            let cur = doomed(cols, rows, filter, tx);
            assert forall|j: int| 0 <= j < cur.len() implies 0 <= #[trigger] cur[j] < rows.len() by {
                if j < prev.len() {
                    assert(cur[j] == prev[j]);
                }
            }
        }
    }
}

/// The rows a DELETE removes were visible to its transaction.
proof fn lemma_doomed_visible(cols: Seq<Column>, rows: Seq<Row>, filter: Option<Condition>, tx: u64)
    ensures
        forall|j: int| 0 <= j < doomed(cols, rows, filter, tx).len() ==> {
            &&& 0 <= #[trigger] doomed(cols, rows, filter, tx)[j] < rows.len()
            &&& visible_at(rows[doomed(cols, rows, filter, tx)[j]], tx)
        },
    decreases rows.len(),
{
    if rows.len() > 0 {
        lemma_doomed_visible(cols, rows.drop_last(), filter, tx);
        let prev = doomed(cols, rows.drop_last(), filter, tx);
        let cur = doomed(cols, rows, filter, tx);
        assert forall|j: int| 0 <= j < cur.len() implies 0 <= #[trigger] cur[j] < rows.len() && visible_at(rows[cur[j]], tx) by {
            if j < prev.len() {
                assert(cur[j] == prev[j]);
                assert(rows.drop_last()[prev[j]] == rows[prev[j]]);
            }
        }
    }
}

/// MVCC for DELETE: after a DELETE by transaction `tx` (what
/// `delete_with_storage` leaves), a row it deleted is hidden from every reader
/// at `tx` or later; every reader before `tx` sees each row as before; and a
/// row it did not delete looks the same to every reader.
pub proof fn law_delete_isolation(cols: Seq<Column>, before: Seq<Row>, after: Seq<Row>, filter: Option<Condition>,
    tx: u64, reader: u64, i: int)
    requires
        deleted_rows(before, after, doomed(cols, before, filter, tx), tx),
        0 <= i < before.len(),
    ensures
        doomed(cols, before, filter, tx).contains(i) && tx <= reader ==> !visible_at(after[i], reader),
        reader < tx ==> visible_at(after[i], reader) == visible_at(before[i], reader),
        !doomed(cols, before, filter, tx).contains(i) ==> visible_at(after[i], reader) == visible_at(before[i], reader),
{
    let pick = doomed(cols, before, filter, tx);
    lemma_doomed_visible(cols, before, filter, tx);
    assert(after[i].xmin == before[i].xmin);
    if pick.contains(i) {
        let j = choose|j: int| 0 <= j < pick.len() && pick[j] == i;
        assert(visible_at(before[pick[j]], tx));
    }
}

/// MVCC for UPDATE: after an UPDATE by transaction `tx` (what
/// `update_with_storage` leaves), each new version is seen exactly by the
/// readers at `tx` or later; an updated row that `tx` could see is hidden from
/// those readers and looks as before to earlier ones; and a row it did not
/// update looks the same to every reader.
pub proof fn law_update_isolation(cols: Seq<Column>, before: Seq<Row>, after: Seq<Row>, filter: Option<Condition>,
    upd: Seq<(int, Value)>, tx: u64, reader: u64, i: int)
    requires
        updated_rows(before, after, chosen(cols, before, filter), upd, tx),
        0 <= i < after.len(),
    ensures
        i >= before.len() ==> (visible_at(after[i], reader) <==> tx <= reader),
        i < before.len() && chosen(cols, before, filter).contains(i) && visible_at(before[i], tx) ==> {
            &&& tx <= reader ==> !visible_at(after[i], reader)
            &&& reader < tx ==> visible_at(after[i], reader) == visible_at(before[i], reader)
        },
        i < before.len() && !chosen(cols, before, filter).contains(i) ==> visible_at(after[i], reader) == visible_at(before[i], reader),
{
    let pick = chosen(cols, before, filter);
    if i >= before.len() {
        let j = i - before.len();
        assert(after[before.len() + j].xmin == tx);
    } else {
        assert(after[i].xmin == before[i].xmin);
    }
}

} // verus!
