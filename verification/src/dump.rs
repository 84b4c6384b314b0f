//! SQL dumps: the text that recreates a database's schema and rows.

use vstd::prelude::*;
use crate::catalog::column::Column;
use crate::catalog::data_type::DataType;
use crate::catalog::database::Database;
use crate::catalog::formats::{
    date_text, date_text_of, decimal_text, decimal_text_of, timestamp_text, timestamp_text_of, timestamptz_sql,
    timestamptz_sql_of, uuid_text, uuid_text_of,
};
use crate::catalog::row::Row;
use crate::catalog::table::Table;
use crate::catalog::value::Value;
use crate::index::Index;
use crate::text::{
    decimal, fmt_i128, fmt_usize, join_with, lower_hex, push_joined, push_lower_hex, push_str, signed_decimal,
    string_of, string_views,
};

verus! {

/// `s` with each single quote doubled.
pub open spec fn escaped(s: Seq<char>) -> Seq<char>
    decreases s.len(),
{
    if s.len() == 0 {
        Seq::empty()
    } else {
        escaped(s.drop_last()) + if s.last() == '\'' { "''"@ } else { seq![s.last()] }
    }
}

/// A quoted SQL string literal.
pub open spec fn quoted(s: Seq<char>) -> Seq<char> {
    "'"@ + s + "'"@
}

/// The SQL literal of a value.
pub open spec fn sql_literal(v: Value) -> Seq<char> {
    match v {
        Value::Null => "NULL"@,
        Value::Integer(i) => signed_decimal(i as int),
        Value::SmallInt(i) => signed_decimal(i as int),
        Value::Real(r) => r.display@,
        Value::Numeric(d) => decimal_text_of(d.spec_mantissa(), d.spec_scale()),
        Value::Text(s) => quoted(escaped(s@)),
        Value::Char(s) => quoted(escaped(s@)),
        Value::Boolean(b) => if b { "TRUE"@ } else { "FALSE"@ },
        Value::Date(d) => quoted(date_text_of(d)),
        Value::Timestamp(s, n) => quoted(timestamp_text_of(s, n)),
        Value::TimestampTz(s, n) => quoted(timestamptz_sql_of(s, n)),
        Value::Uuid(u) => quoted(uuid_text_of(u)),
        Value::Json(j) => quoted(escaped(j@)),
        Value::Bytea(b) => quoted("\\x"@ + lower_hex(b@)),
        Value::Enum(_, l) => quoted(escaped(l@)),
    }
}

/// The SQL name of a column type in a dump.
pub open spec fn sql_type(t: DataType) -> Seq<char> {
    match t {
        DataType::Integer => "INTEGER"@,
        DataType::SmallInt => "SMALLINT"@,
        DataType::Serial => "SERIAL"@,
        DataType::BigSerial => "BIGSERIAL"@,
        DataType::Text => "TEXT"@,
        DataType::Varchar { max_length } => "VARCHAR("@ + decimal(max_length as nat) + ")"@,
        DataType::Char { length } => "CHAR("@ + decimal(length as nat) + ")"@,
        DataType::Boolean => "BOOLEAN"@,
        DataType::Date => "DATE"@,
        DataType::Timestamp => "TIMESTAMP"@,
        DataType::TimestampTz => "TIMESTAMPTZ"@,
        DataType::Real => "REAL"@,
        DataType::Numeric { precision, scale } =>
            "NUMERIC("@ + decimal(precision as nat) + ", "@ + decimal(scale as nat) + ")"@,
        DataType::Uuid => "UUID"@,
        DataType::Json => "JSON"@,
        DataType::Jsonb => "JSONB"@,
        DataType::Bytea => "BYTEA"@,
        DataType::Enum { name, .. } => name@,
    }
}

/// The definition of a column in CREATE TABLE.
pub open spec fn column_definition(c: Column) -> Seq<char> {
    "  "@ + c.name@ + " "@ + sql_type(c.data_type)
        + (if !c.nullable { " NOT NULL"@ } else { Seq::empty() })
        + (if c.primary_key { " PRIMARY KEY"@ } else { Seq::empty() })
        + (if c.unique { " UNIQUE"@ } else { Seq::empty() })
        + reference_text(c.foreign_key)
}

/// The REFERENCES clause of a foreign key, if any.
pub open spec fn reference_text(fk: Option<crate::catalog::column::ForeignKey>) -> Seq<char> {
    match fk {
        Some(f) => " REFERENCES "@ + f.referenced_table@ + "("@ + f.referenced_column@ + ")"@,
        None => Seq::empty(),
    }
}

/// The CREATE TABLE statement of a table.
pub open spec fn create_table_text(t: Table) -> Seq<char> {
    "CREATE TABLE "@ + t.name@ + " (\n"@
        + join_with(t.columns@.map_values(|c: Column| column_definition(c)), ",\n"@) + "\n"@
        + ");\n"@
}

/// The CREATE INDEX statement of an index.
pub open spec fn create_index_text(ix: Index) -> Seq<char> {
    "CREATE "@ + (if ix.spec_unique() { "UNIQUE "@ } else { Seq::empty() }) + "INDEX "@ + ix.spec_name() + " ON "@
        + ix.spec_table_name() + "("@ + join_with(string_views(ix.spec_columns()), ", "@) + ") USING "@
        + (if ix is BTree { "BTREE"@ } else { "HASH"@ }) + ";\n"@
}

/// The pieces put end to end.
pub open spec fn concat_all(parts: Seq<Seq<char>>) -> Seq<char>
    decreases parts.len(),
{
    if parts.len() == 0 { Seq::empty() } else { concat_all(parts.drop_last()) + parts.last() }
}

/// The CREATE TYPE statement of an enumerated type.
pub open spec fn create_enum_text(name: Seq<char>, labels: Seq<String>) -> Seq<char> {
    "CREATE TYPE "@ + name + " AS ENUM ("@
        + join_with(string_views(labels).map_values(|l: Seq<char>| quoted(escaped(l))), ", "@) + ");\n"@
}

/// The schema part of a dump: enumerated types, tables, indexes and views,
/// each group under a heading and only when there is one.
pub open spec fn schema_text(db: Database) -> Seq<char> {
    "-- Schema\n"@ + "\n"@ + enums_section(db) + tables_section(db) + indexes_section(db) + views_section(db)
}

/// The enumerated types of a schema dump.
pub open spec fn enums_section(db: Database) -> Seq<char> {
    let ek = db.enums.keys();
    let ev = db.enums.vals();
    if ek.len() > 0 {
        "-- Enums\n"@ + concat_all(Seq::new(ek.len(), |i: int| create_enum_text(ek[i], ev[i]@))) + "\n"@
    } else {
        Seq::empty()
    }
}

/// The tables of a schema dump.
pub open spec fn tables_section(db: Database) -> Seq<char> {
    let tv = db.tables.vals();
    if tv.len() > 0 { "-- Tables\n"@ + concat_all(tv.map_values(|t: Table| create_table_text(t))) + "\n"@ } else { Seq::empty() }
}

/// The indexes of a schema dump.
pub open spec fn indexes_section(db: Database) -> Seq<char> {
    let iv = db.indexes.vals();
    if iv.len() > 0 { "-- Indexes\n"@ + concat_all(iv.map_values(|ix: Index| create_index_text(ix))) + "\n"@ } else { Seq::empty() }
}

/// The views of a schema dump.
pub open spec fn views_section(db: Database) -> Seq<char> {
    let vk = db.views.keys();
    let vv = db.views.vals();
    if vk.len() > 0 {
        "-- Views\n"@ + concat_all(Seq::new(vk.len(), |i: int| "CREATE VIEW "@ + vk[i] + " AS "@ + vv[i]@ + ";\n"@)) + "\n"@
    } else {
        Seq::empty()
    }
}

/// The INSERT statement of a row of table `t`.
pub open spec fn insert_text(t: Table, r: Row) -> Seq<char> {
    "INSERT INTO "@ + t.name@ + " ("@ + join_with(t.columns@.map_values(|c: Column| c.name@), ", "@) + ") VALUES ("@
        + join_with(r.values@.map_values(|v: Value| sql_literal(v)), ", "@) + ");\n"@
}

/// The data of a table in a dump: nothing for a table without rows.
pub open spec fn table_data_text(t: Table) -> Seq<char> {
    if t.rows@.len() == 0 {
        Seq::empty()
    } else {
        "-- Table: "@ + t.name@ + "\n"@ + concat_all(t.rows@.map_values(|r: Row| insert_text(t, r))) + "\n"@
    }
}

/// The data part of a dump.
pub open spec fn data_text(db: Database) -> Seq<char> {
    "-- Data\n"@ + "\n"@ + concat_all(db.tables.vals().map_values(|t: Table| table_data_text(t)))
}

/// A whole SQL dump: a header, then the schema unless only data is asked
/// for, then the data unless only the schema is.
pub open spec fn dump_text(db: Database, schema_only: bool, data_only: bool) -> Seq<char> {
    "--\n"@ + "-- RustDB database dump\n"@ + "-- Database: "@ + db.name@ + "\n"@ + "--\n"@ + "\n"@
        + (if !data_only { schema_text(db) } else { Seq::empty() })
        + (if !schema_only { data_text(db) } else { Seq::empty() })
}

/// Appends `s` with each single quote doubled.
fn push_escaped(out: &mut Vec<char>, s: &str)
    ensures
        final(out)@ == old(out)@ + escaped(s@),
{
    let cs = crate::text::chars_of(s);
    let mut i: usize = 0;
    while i < cs.len()
        invariant
            i <= cs@.len(),
            cs@ == s@,
            out@ == old(out)@ + escaped(cs@.take(i as int)),
        decreases cs@.len() - i,
    {
        assert(cs@.take(i as int + 1).drop_last() =~= cs@.take(i as int));
        if cs[i] == '\'' {
            push_str(out, "''");
        } else {
            out.push(cs[i]);
        }
        assert(out@ =~= old(out)@ + escaped(cs@.take(i as int + 1)));
        i = i + 1;
    }
    assert(cs@.take(cs@.len() as int) =~= cs@);
}

/// `s` with each single quote doubled.
pub fn escape_sql_string(s: &str) -> (r: String)
    ensures
        r@ == escaped(s@),
{
    let mut out: Vec<char> = Vec::new();
    push_escaped(&mut out, s);
    string_of(&out)
}

/// Appends a quoted, escaped string literal.
fn push_quoted_escaped(out: &mut Vec<char>, s: &str)
    ensures
        final(out)@ == old(out)@ + quoted(escaped(s@)),
{
    push_str(out, "'");
    push_escaped(out, s);
    push_str(out, "'");
    assert(out@ =~= old(out)@ + quoted(escaped(s@)));
}

/// Appends a quoted string literal, as it is.
fn push_quoted(out: &mut Vec<char>, s: &str)
    ensures
        final(out)@ == old(out)@ + quoted(s@),
{
    push_str(out, "'");
    push_str(out, s);
    push_str(out, "'");
    assert(out@ =~= old(out)@ + quoted(s@));
}

/// Appends the SQL literal of a value.
fn push_literal(out: &mut Vec<char>, value: &Value)
    ensures
        final(out)@ == old(out)@ + sql_literal(*value),
{
    match value {
        Value::Null => push_str(out, "NULL"),
        Value::Integer(i) => {
            let t = fmt_i128(*i as i128);
            push_str(out, t.as_str());
        },
        Value::SmallInt(i) => {
            let t = fmt_i128(*i as i128);
            push_str(out, t.as_str());
        },
        Value::Real(r) => push_str(out, r.display.as_str()),
        Value::Numeric(d) => {
            let t = decimal_text(d.mantissa(), d.scale());
            push_str(out, t.as_str());
        },
        Value::Text(s) => push_quoted_escaped(out, s.as_str()),
        Value::Char(s) => push_quoted_escaped(out, s.as_str()),
        Value::Boolean(b) => push_str(out, if *b { "TRUE" } else { "FALSE" }),
        Value::Date(d) => {
            let t = date_text(*d);
            push_quoted(out, t.as_str());
        },
        Value::Timestamp(s, n) => {
            let t = timestamp_text(*s, *n);
            push_quoted(out, t.as_str());
        },
        Value::TimestampTz(s, n) => {
            let t = timestamptz_sql(*s, *n);
            push_quoted(out, t.as_str());
        },
        Value::Uuid(u) => {
            let t = uuid_text(*u);
            push_quoted(out, t.as_str());
        },
        Value::Json(j) => push_quoted_escaped(out, j.as_str()),
        Value::Bytea(b) => {
            push_str(out, "'");
            push_str(out, "\\x");
            push_lower_hex(out, b.as_slice());
            push_str(out, "'");
            assert(out@ =~= old(out)@ + quoted("\\x"@ + lower_hex(b@)));
        },
        Value::Enum(_, l) => push_quoted_escaped(out, l.as_str()),
    }
}

/// The SQL literal of a value.
pub fn value_to_sql(value: &Value) -> (s: String)
    ensures
        s@ == sql_literal(*value),
{
    let mut out: Vec<char> = Vec::new();
    push_literal(&mut out, value);
    assert(out@ =~= sql_literal(*value));
    string_of(&out)
}

/// The SQL name of a column type.
pub fn datatype_to_sql(dt: &DataType) -> (s: String)
    ensures
        s@ == sql_type(*dt),
{
    let mut out: Vec<char> = Vec::new();
    match dt {
        DataType::Integer => push_str(&mut out, "INTEGER"),
        DataType::SmallInt => push_str(&mut out, "SMALLINT"),
        DataType::Serial => push_str(&mut out, "SERIAL"),
        DataType::BigSerial => push_str(&mut out, "BIGSERIAL"),
        DataType::Text => push_str(&mut out, "TEXT"),
        DataType::Varchar { max_length } => {
            push_str(&mut out, "VARCHAR(");
            let n = fmt_usize(*max_length);
            push_str(&mut out, n.as_str());
            push_str(&mut out, ")");
        },
        DataType::Char { length } => {
            push_str(&mut out, "CHAR(");
            let n = fmt_usize(*length);
            push_str(&mut out, n.as_str());
            push_str(&mut out, ")");
        },
        DataType::Boolean => push_str(&mut out, "BOOLEAN"),
        DataType::Date => push_str(&mut out, "DATE"),
        DataType::Timestamp => push_str(&mut out, "TIMESTAMP"),
        DataType::TimestampTz => push_str(&mut out, "TIMESTAMPTZ"),
        DataType::Real => push_str(&mut out, "REAL"),
        DataType::Numeric { precision, scale } => {
            push_str(&mut out, "NUMERIC(");
            let p = fmt_usize(*precision as usize);
            push_str(&mut out, p.as_str());
            push_str(&mut out, ", ");
            let q = fmt_usize(*scale as usize);
            push_str(&mut out, q.as_str());
            push_str(&mut out, ")");
        },
        DataType::Uuid => push_str(&mut out, "UUID"),
        DataType::Json => push_str(&mut out, "JSON"),
        DataType::Jsonb => push_str(&mut out, "JSONB"),
        DataType::Bytea => push_str(&mut out, "BYTEA"),
        DataType::Enum { name, .. } => push_str(&mut out, name.as_str()),
    }
    assert(out@ =~= sql_type(*dt));
    string_of(&out)
}

/// Appends the definition of a column.
fn push_column_definition(out: &mut Vec<char>, c: &Column)
    ensures
        final(out)@ == old(out)@ + column_definition(*c),
{
    push_str(out, "  ");
    push_str(out, c.name.as_str());
    push_str(out, " ");
    let t = datatype_to_sql(&c.data_type);
    push_str(out, t.as_str());
    let ghost a = out@;
    assert(a =~= old(out)@ + ("  "@ + c.name@ + " "@ + sql_type(c.data_type)));
    let ghost p1 = if !c.nullable { " NOT NULL"@ } else { Seq::<char>::empty() };
    let ghost p2 = if c.primary_key { " PRIMARY KEY"@ } else { Seq::<char>::empty() };
    let ghost p3 = if c.unique { " UNIQUE"@ } else { Seq::<char>::empty() };
    let ghost p4 = reference_text(c.foreign_key);
    if !c.nullable {
        push_str(out, " NOT NULL");
    }
    assert(out@ =~= a + p1);
    if c.primary_key {
        push_str(out, " PRIMARY KEY");
    }
    assert(out@ =~= a + p1 + p2);
    if c.unique {
        push_str(out, " UNIQUE");
    }
    assert(out@ =~= a + p1 + p2 + p3);
    push_reference(out, &c.foreign_key);
    assert(out@ =~= a + p1 + p2 + p3 + p4);
    assert(column_definition(*c) =~= ("  "@ + c.name@ + " "@ + sql_type(c.data_type)) + p1 + p2 + p3 + p4);
}

fn push_reference(out: &mut Vec<char>, fk: &Option<crate::catalog::column::ForeignKey>)
    ensures
        final(out)@ == old(out)@ + reference_text(*fk),
{
    match fk {
        Some(f) => {
            push_str(out, " REFERENCES ");
            push_str(out, f.referenced_table.as_str());
            push_str(out, "(");
            push_str(out, f.referenced_column.as_str());
            push_str(out, ")");
            assert(out@ =~= old(out)@ + (" REFERENCES "@ + f.referenced_table@ + "("@ + f.referenced_column@ + ")"@));
        },
        None => {
            assert(out@ =~= old(out)@ + Seq::<char>::empty());
        },
    }
}

/// Appends `parts` joined by `sep`, each produced by `f`... for column definitions.
fn push_column_definitions(out: &mut Vec<char>, cols: &Vec<Column>)
    ensures
        final(out)@ == old(out)@ + join_with(cols@.map_values(|c: Column| column_definition(c)), ",\n"@),
{
    let ghost start = out@;
    let mut i: usize = 0;
    while i < cols.len()
        invariant
            i <= cols@.len(),
            out@ == start + join_with(cols@.take(i as int).map_values(|c: Column| column_definition(c)), ",\n"@),
        decreases cols@.len() - i,
    {
        assert(cols@.take(i as int + 1).map_values(|c: Column| column_definition(c)).drop_last()
            =~= cols@.take(i as int).map_values(|c: Column| column_definition(c)));
        if i > 0 {
            push_str(out, ",\n");
        }
        push_column_definition(out, &cols[i]);
        proof {
            if i == 0 {
                assert(cols@.take(0).map_values(|c: Column| column_definition(c)) =~= Seq::<Seq<char>>::empty());
            }
            assert(out@ =~= start + join_with(cols@.take(i as int + 1).map_values(|c: Column| column_definition(c)), ",\n"@));
        }
        i = i + 1;
    }
    assert(cols@.take(cols@.len() as int) =~= cols@);
}

/// Appends the CREATE TABLE statement of a table.
fn push_create_table(out: &mut Vec<char>, table: &Table)
    ensures
        final(out)@ == old(out)@ + create_table_text(*table),
{
    push_str(out, "CREATE TABLE ");
    push_str(out, table.name.as_str());
    push_str(out, " (\n");
    push_column_definitions(out, &table.columns);
    push_str(out, "\n");
    push_str(out, ");\n");
    assert(out@ =~= old(out)@ + create_table_text(*table));
}

/// The CREATE TABLE statement of a table, with a line per column.
pub fn dump_create_table(table: &Table) -> (s: String)
    ensures
        s@ == create_table_text(*table),
{
    let mut out: Vec<char> = Vec::new();
    push_create_table(&mut out, table);
    assert(out@ =~= create_table_text(*table));
    string_of(&out)
}

/// Appends the CREATE INDEX statement of an index.
fn push_create_index(out: &mut Vec<char>, index: &Index)
    ensures
        final(out)@ == old(out)@ + create_index_text(*index),
{
    push_str(out, "CREATE ");
    if index.is_unique() {
        push_str(out, "UNIQUE ");
    }
    push_str(out, "INDEX ");
    push_str(out, index.name());
    push_str(out, " ON ");
    push_str(out, index.table_name());
    push_str(out, "(");
    push_joined(out, index.column_names(), ", ");
    push_str(out, ") USING ");
    match index {
        Index::BTree(_) => push_str(out, "BTREE"),
        Index::Hash(_) => push_str(out, "HASH"),
    }
    push_str(out, ";\n");
    assert(out@ =~= old(out)@ + create_index_text(*index));
}

/// The CREATE INDEX statement of an index.
pub fn dump_create_index(index: &Index) -> (s: String)
    ensures
        s@ == create_index_text(*index),
{
    let mut out: Vec<char> = Vec::new();
    push_create_index(&mut out, index);
    assert(out@ =~= create_index_text(*index));
    string_of(&out)
}

/// Appends the CREATE TYPE statement of an enumerated type.
fn push_create_enum(out: &mut Vec<char>, name: &str, labels: &Vec<String>)
    ensures
        final(out)@ == old(out)@ + create_enum_text(name@, labels@),
{
    push_str(out, "CREATE TYPE ");
    push_str(out, name);
    push_str(out, " AS ENUM (");
    let ghost start = out@;
    let ghost parts = string_views(labels@).map_values(|l: Seq<char>| quoted(escaped(l)));
    let mut i: usize = 0;
    while i < labels.len()
        invariant
            i <= labels@.len(),
            parts == string_views(labels@).map_values(|l: Seq<char>| quoted(escaped(l))),
            out@ == start + join_with(parts.take(i as int), ", "@),
        decreases labels@.len() - i,
    {
        assert(parts.take(i as int + 1).drop_last() =~= parts.take(i as int));
        if i > 0 {
            push_str(out, ", ");
        }
        push_quoted_escaped(out, labels[i].as_str());
        proof {
            if i == 0 {
                assert(parts.take(0) =~= Seq::<Seq<char>>::empty());
            }
            assert(out@ =~= start + join_with(parts.take(i as int + 1), ", "@));
        }
        i = i + 1;
    }
    assert(parts.take(labels@.len() as int) =~= parts);
    push_str(out, ");\n");
    assert(out@ =~= old(out)@ + create_enum_text(name@, labels@));
}

/// The schema part of a dump.
pub fn dump_schema(db: &Database) -> (s: String)
    ensures
        s@ == schema_text(*db),
{
    let mut out: Vec<char> = Vec::new();
    push_schema(&mut out, db);
    assert(out@ =~= schema_text(*db));
    string_of(&out)
}

fn push_schema(out: &mut Vec<char>, db: &Database)
    ensures
        final(out)@ == old(out)@ + schema_text(*db),
{
    push_str(out, "-- Schema\n");
    push_str(out, "\n");
    push_enums(out, db);
    push_tables(out, db);
    push_indexes(out, db);
    push_views(out, db);
    assert(out@ =~= old(out)@ + schema_text(*db));
}

fn push_enums(out: &mut Vec<char>, db: &Database)
    ensures
        final(out)@ == old(out)@ + enums_section(*db),
{
    proof {
        db.enums.lemma_lengths();
    }
    let ghost ek = db.enums.keys();
    let ghost ev = db.enums.vals();
    let ghost enum_parts = Seq::new(ek.len(), |i: int| create_enum_text(ek[i], ev[i]@));
    if db.enums.len() > 0 {
        push_str(out, "-- Enums\n");
        let ghost h = out@;
        let mut i: usize = 0;
        while i < db.enums.len()
            invariant
                ek == db.enums.keys(),
                ev == db.enums.vals(),
                ek.len() == ev.len(),
                i <= ek.len(),
                enum_parts == Seq::new(ek.len(), |q: int| create_enum_text(ek[q], ev[q]@)),
                out@ == h + concat_all(enum_parts.take(i as int)),
            decreases ek.len() - i,
        {
            assert(enum_parts.take(i as int + 1).drop_last() =~= enum_parts.take(i as int));
            push_create_enum(out, db.enums.key_at(i).as_str(), db.enums.value_at(i));
            i = i + 1;
        }
        assert(enum_parts.take(ek.len() as int) =~= enum_parts);
        push_str(out, "\n");
    }
    assert(out@ =~= old(out)@ + enums_section(*db));
}

fn push_tables(out: &mut Vec<char>, db: &Database)
    ensures
        final(out)@ == old(out)@ + tables_section(*db),
{
    proof {
        db.tables.lemma_lengths();
    }
    let ghost tv = db.tables.vals();
    let ghost table_parts = tv.map_values(|t: Table| create_table_text(t));
    if db.tables.len() > 0 {
        push_str(out, "-- Tables\n");
        let ghost h = out@;
        let mut i: usize = 0;
        while i < db.tables.len()
            invariant
                tv == db.tables.vals(),
                db.tables.keys().len() == tv.len(),
                i <= tv.len(),
                table_parts == tv.map_values(|t: Table| create_table_text(t)),
                out@ == h + concat_all(table_parts.take(i as int)),
            decreases tv.len() - i,
        {
            assert(table_parts.take(i as int + 1).drop_last() =~= table_parts.take(i as int));
            push_create_table(out, db.tables.value_at(i));
            i = i + 1;
        }
        assert(table_parts.take(tv.len() as int) =~= table_parts);
        push_str(out, "\n");
    }
    assert(out@ =~= old(out)@ + tables_section(*db));
}

fn push_indexes(out: &mut Vec<char>, db: &Database)
    ensures
        final(out)@ == old(out)@ + indexes_section(*db),
{
    proof {
        db.indexes.lemma_lengths();
    }
    let ghost iv = db.indexes.vals();
    let ghost index_parts = iv.map_values(|ix: Index| create_index_text(ix));
    if db.indexes.len() > 0 {
        push_str(out, "-- Indexes\n");
        let ghost h = out@;
        let mut i: usize = 0;
        while i < db.indexes.len()
            invariant
                iv == db.indexes.vals(),
                db.indexes.keys().len() == iv.len(),
                i <= iv.len(),
                index_parts == iv.map_values(|ix: Index| create_index_text(ix)),
                out@ == h + concat_all(index_parts.take(i as int)),
            decreases iv.len() - i,
        {
            assert(index_parts.take(i as int + 1).drop_last() =~= index_parts.take(i as int));
            push_create_index(out, db.indexes.value_at(i));
            i = i + 1;
        }
        assert(index_parts.take(iv.len() as int) =~= index_parts);
        push_str(out, "\n");
    }
    assert(out@ =~= old(out)@ + indexes_section(*db));
}

fn push_views(out: &mut Vec<char>, db: &Database)
    ensures
        final(out)@ == old(out)@ + views_section(*db),
{
    proof {
        db.views.lemma_lengths();
    }
    let ghost vk = db.views.keys();
    let ghost vv = db.views.vals();
    let ghost view_parts = Seq::new(vk.len(), |i: int| "CREATE VIEW "@ + vk[i] + " AS "@ + vv[i]@ + ";\n"@);
    if db.views.len() > 0 {
        push_str(out, "-- Views\n");
        let ghost h = out@;
        let mut i: usize = 0;
        while i < db.views.len()
            invariant
                vk == db.views.keys(),
                vv == db.views.vals(),
                vk.len() == vv.len(),
                i <= vk.len(),
                view_parts == Seq::new(vk.len(), |q: int| "CREATE VIEW "@ + vk[q] + " AS "@ + vv[q]@ + ";\n"@),
                out@ == h + concat_all(view_parts.take(i as int)),
            decreases vk.len() - i,
        {
            assert(view_parts.take(i as int + 1).drop_last() =~= view_parts.take(i as int));
            push_str(out, "CREATE VIEW ");
            push_str(out, db.views.key_at(i).as_str());
            push_str(out, " AS ");
            push_str(out, db.views.value_at(i).as_str());
            push_str(out, ";\n");
            assert(out@ =~= h + concat_all(view_parts.take(i as int + 1)));
            i = i + 1;
        }
        assert(view_parts.take(vk.len() as int) =~= view_parts);
        push_str(out, "\n");
    }
    assert(out@ =~= old(out)@ + views_section(*db));
}

/// Appends the INSERT statement of a row of `table`.
fn push_insert(out: &mut Vec<char>, table: &Table, row: &Row)
    ensures
        final(out)@ == old(out)@ + insert_text(*table, *row),
{
    push_str(out, "INSERT INTO ");
    push_str(out, table.name.as_str());
    push_str(out, " (");
    let ghost s0 = out@;
    let ghost names = table.columns@.map_values(|c: Column| c.name@);
    let mut i: usize = 0;
    while i < table.columns.len()
        invariant
            i <= table.columns@.len(),
            names == table.columns@.map_values(|c: Column| c.name@),
            out@ == s0 + join_with(names.take(i as int), ", "@),
        decreases table.columns@.len() - i,
    {
        assert(names.take(i as int + 1).drop_last() =~= names.take(i as int));
        if i > 0 {
            push_str(out, ", ");
        }
        push_str(out, table.columns[i].name.as_str());
        proof {
            if i == 0 {
                assert(names.take(0) =~= Seq::<Seq<char>>::empty());
            }
            assert(out@ =~= s0 + join_with(names.take(i as int + 1), ", "@));
        }
        i = i + 1;
    }
    assert(names.take(table.columns@.len() as int) =~= names);
    push_str(out, ") VALUES (");
    let ghost s1 = out@;
    let ghost lits = row.values@.map_values(|v: Value| sql_literal(v));
    let mut j: usize = 0;
    while j < row.values.len()
        invariant
            j <= row.values@.len(),
            lits == row.values@.map_values(|v: Value| sql_literal(v)),
            out@ == s1 + join_with(lits.take(j as int), ", "@),
        decreases row.values@.len() - j,
    {
        assert(lits.take(j as int + 1).drop_last() =~= lits.take(j as int));
        if j > 0 {
            push_str(out, ", ");
        }
        push_literal(out, &row.values[j]);
        proof {
            if j == 0 {
                assert(lits.take(0) =~= Seq::<Seq<char>>::empty());
            }
            assert(out@ =~= s1 + join_with(lits.take(j as int + 1), ", "@));
        }
        j = j + 1;
    }
    assert(lits.take(row.values@.len() as int) =~= lits);
    push_str(out, ");\n");
    assert(out@ =~= old(out)@ + insert_text(*table, *row));
}

/// Appends the data of a table.
fn push_table_data(out: &mut Vec<char>, table: &Table)
    ensures
        final(out)@ == old(out)@ + table_data_text(*table),
{
    if table.rows.len() == 0 {
        assert(out@ =~= old(out)@ + table_data_text(*table));
        return;
    }
    push_str(out, "-- Table: ");
    push_str(out, table.name.as_str());
    push_str(out, "\n");
    let ghost h = out@;
    let ghost parts = table.rows@.map_values(|r: Row| insert_text(*table, r));
    let mut i: usize = 0;
    while i < table.rows.len()
        invariant
            i <= table.rows@.len(),
            parts == table.rows@.map_values(|r: Row| insert_text(*table, r)),
            out@ == h + concat_all(parts.take(i as int)),
        decreases table.rows@.len() - i,
    {
        assert(parts.take(i as int + 1).drop_last() =~= parts.take(i as int));
        push_insert(out, table, &table.rows[i]);
        i = i + 1;
    }
    assert(parts.take(table.rows@.len() as int) =~= parts);
    push_str(out, "\n");
    assert(out@ =~= old(out)@ + table_data_text(*table));
}

fn push_data(out: &mut Vec<char>, db: &Database)
    ensures
        final(out)@ == old(out)@ + data_text(*db),
{
    proof {
        db.tables.lemma_lengths();
    }
    push_str(out, "-- Data\n");
    push_str(out, "\n");
    let ghost h = out@;
    let ghost tv = db.tables.vals();
    let ghost parts = tv.map_values(|t: Table| table_data_text(t));
    let mut i: usize = 0;
    while i < db.tables.len()
        invariant
            tv == db.tables.vals(),
            db.tables.keys().len() == tv.len(),
            i <= tv.len(),
            parts == tv.map_values(|t: Table| table_data_text(t)),
            out@ == h + concat_all(parts.take(i as int)),
        decreases tv.len() - i,
    {
        assert(parts.take(i as int + 1).drop_last() =~= parts.take(i as int));
        push_table_data(out, db.tables.value_at(i));
        i = i + 1;
    }
    assert(parts.take(tv.len() as int) =~= parts);
    assert(out@ =~= old(out)@ + data_text(*db));
}

/// The data part of a dump: an INSERT per stored row of each table with rows.
pub fn dump_data(db: &Database) -> (s: String)
    ensures
        s@ == data_text(*db),
{
    let mut out: Vec<char> = Vec::new();
    push_data(&mut out, db);
    assert(out@ =~= data_text(*db));
    string_of(&out)
}

/// A whole SQL dump of `db`.
pub fn dump_sql(db: &Database, schema_only: bool, data_only: bool) -> (s: String)
    ensures
        s@ == dump_text(*db, schema_only, data_only),
{
    let mut out: Vec<char> = Vec::new();
    push_str(&mut out, "--\n");
    push_str(&mut out, "-- RustDB database dump\n");
    push_str(&mut out, "-- Database: ");
    push_str(&mut out, db.name.as_str());
    push_str(&mut out, "\n");
    push_str(&mut out, "--\n");
    push_str(&mut out, "\n");
    let ghost h = out@;
    if !data_only {
        push_schema(&mut out, db);
    }
    let ghost m = out@;
    assert(m =~= h + (if !data_only { schema_text(*db) } else { Seq::<char>::empty() }));
    if !schema_only {
        push_data(&mut out, db);
    }
    assert(out@ =~= dump_text(*db, schema_only, data_only));
    string_of(&out)
}

} // verus!
