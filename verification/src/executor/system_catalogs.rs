//! The read-only system catalogs: pg_catalog and information_schema tables
//! describing the database's tables, columns, indexes, types and rights.

use vstd::prelude::*;
use crate::catalog::data_type::DataType;
use crate::catalog::database::Database;
use crate::catalog::error::DatabaseError;
use crate::catalog::privilege::Privilege;
use crate::catalog::table::Table;
use crate::catalog::table_metadata::TableMetadata;
use crate::catalog::value::bool_text;
use crate::executor::QueryResult;
use crate::text::{decimal, fmt_usize, join_with, push_str, signed_decimal, str_equal, string_of, string_views};

verus! {

/// The texts of a list of rows.
pub open spec fn grid(rows: Seq<Vec<String>>) -> Seq<Seq<Seq<char>>> {
    rows.map_values(|r: Vec<String>| string_views(r@))
}

/// A result of rows `rows` under the column names `cols`.
pub open spec fn rows_result(r: Result<QueryResult, DatabaseError>, rows: Seq<Seq<Seq<char>>>, cols: Seq<Seq<char>>) -> bool {
    r matches Ok(QueryResult::Rows(rs, cs)) && grid(rs@) == rows && string_views(cs@) == cols
}

/// The owner column of a table in pg_class: 10 for postgres, 16384 for any other owner.
pub open spec fn owner_oid(db: Database, name: Seq<char>) -> Seq<char> {
    if db.table_metadata@.contains_key(name) && db.table_metadata@[name].owner@ != "postgres"@ { "16384"@ } else { "10"@ }
}

/// A row of pg_class.
pub open spec fn class_row(oid: int, name: Seq<char>, kind: Seq<char>, owner: Seq<char>) -> Seq<Seq<char>> {
    seq![decimal(oid as nat), name, "2200"@, kind, owner]
}

/// The rows of pg_class: tables, then views, then indexes, numbered from 16384.
pub open spec fn class_rows(db: Database) -> Seq<Seq<Seq<char>>> {
    let tk = db.tables.keys();
    let vk = db.views.keys();
    let ik = db.indexes.keys();
    Seq::new(tk.len(), |i: int| class_row(16384 + i, tk[i], "r"@, owner_oid(db, tk[i])))
        + Seq::new(vk.len(), |i: int| class_row(16384 + tk.len() + i, vk[i], "v"@, "10"@))
        + Seq::new(ik.len(), |i: int| class_row(16384 + tk.len() + vk.len() + i, ik[i], "i"@, "10"@))
}

/// The type OID of a column type.
pub open spec fn type_oid(t: DataType) -> i32 {
    match t {
        DataType::Boolean => 16,
        DataType::SmallInt => 21,
        DataType::Integer => 23,
        DataType::Serial => 23,
        DataType::BigSerial => 20,
        DataType::Real => 700,
        DataType::Numeric { .. } => 1700,
        DataType::Text => 25,
        DataType::Varchar { .. } => 1043,
        DataType::Char { .. } => 1042,
        DataType::Date => 1082,
        DataType::Timestamp => 1114,
        DataType::TimestampTz => 1184,
        DataType::Uuid => 2950,
        DataType::Json => 114,
        DataType::Jsonb => 3802,
        DataType::Bytea => 17,
        DataType::Enum { .. } => 25,
    }
}

/// The SQL name of a column type.
pub open spec fn sql_type_name(t: DataType) -> Seq<char> {
    match t {
        DataType::Boolean => "boolean"@,
        DataType::SmallInt => "smallint"@,
        DataType::Integer => "integer"@,
        DataType::Serial => "serial"@,
        DataType::BigSerial => "bigserial"@,
        DataType::Real => "real"@,
        DataType::Numeric { precision, scale } =>
            "numeric("@ + decimal(precision as nat) + ","@ + decimal(scale as nat) + ")"@,
        DataType::Text => "text"@,
        DataType::Varchar { max_length } => "varchar("@ + decimal(max_length as nat) + ")"@,
        DataType::Char { length } => "char("@ + decimal(length as nat) + ")"@,
        DataType::Date => "date"@,
        DataType::Timestamp => "timestamp"@,
        DataType::TimestampTz => "timestamptz"@,
        DataType::Uuid => "uuid"@,
        DataType::Json => "json"@,
        DataType::Jsonb => "jsonb"@,
        DataType::Bytea => "bytea"@,
        DataType::Enum { name, .. } => name@,
    }
}

/// The pg_attribute rows of the columns of `t`, the table numbered `oid`.
pub open spec fn table_attribute_rows(t: Table, oid: int) -> Seq<Seq<Seq<char>>> {
    Seq::new(t.columns@.len(), |j: int| seq![
        decimal(oid as nat),
        t.columns@[j].name@,
        signed_decimal(type_oid(t.columns@[j].data_type) as int),
        decimal((j + 1) as nat),
        bool_text(!t.columns@[j].nullable),
    ])
}

/// The rows of pg_attribute for the first `n` tables.
pub open spec fn attribute_rows(tables: Seq<Table>, n: nat) -> Seq<Seq<Seq<char>>>
    decreases n,
{
    if n == 0 {
        Seq::empty()
    } else {
        attribute_rows(tables, (n - 1) as nat) + table_attribute_rows(tables[n - 1], 16384 + n - 1)
    }
}

/// The information_schema.columns rows of the columns of `t`.
pub open spec fn table_column_rows(t: Table) -> Seq<Seq<Seq<char>>> {
    Seq::new(t.columns@.len(), |j: int| seq![
        "rustdb"@,
        "public"@,
        t.name@,
        t.columns@[j].name@,
        decimal((j + 1) as nat),
        if t.columns@[j].nullable { "YES"@ } else { "NO"@ },
        sql_type_name(t.columns@[j].data_type),
    ])
}

/// The rows of information_schema.columns for the first `n` tables.
pub open spec fn column_rows(tables: Seq<Table>, n: nat) -> Seq<Seq<Seq<char>>>
    decreases n,
{
    if n == 0 {
        Seq::empty()
    } else {
        column_rows(tables, (n - 1) as nat) + table_column_rows(tables[n - 1])
    }
}

/// The column numbers of an index over `n` columns: "1 2 ... n".
pub open spec fn index_key_text(n: nat) -> Seq<char> {
    join_with(Seq::new(n, |i: int| decimal((i + 1) as nat)), " "@)
}

/// The rows of pg_index, numbered from 17000.
pub open spec fn index_rows(db: Database) -> Seq<Seq<Seq<char>>> {
    let ixs = db.indexes.vals();
    Seq::new(ixs.len(), |k: int| seq![
        decimal((17000 + k) as nat),
        "16384"@,
        index_key_text(ixs[k].spec_columns().len()),
        bool_text(ixs[k].spec_unique()),
    ])
}

/// The rows of information_schema.tables: tables, then views.
pub open spec fn schema_table_rows(db: Database) -> Seq<Seq<Seq<char>>> {
    let tk = db.tables.keys();
    let vk = db.views.keys();
    Seq::new(tk.len(), |i: int| seq!["rustdb"@, "public"@, tk[i], "BASE TABLE"@])
        + Seq::new(vk.len(), |i: int| seq!["rustdb"@, "public"@, vk[i], "VIEW"@])
}

/// The SQL name of a right.
pub open spec fn privilege_name(p: Privilege) -> Seq<char> {
    match p {
        Privilege::Connect => "CONNECT"@,
        Privilege::Create => "CREATE"@,
        Privilege::Select => "SELECT"@,
        Privilege::Insert => "INSERT"@,
        Privilege::Update => "UPDATE"@,
        Privilege::Delete => "DELETE"@,
        Privilege::All => "ALL"@,
    }
}

/// The table_privileges rows of the first `n` grantees of a table's metadata.
pub open spec fn grantee_rows(m: TableMetadata, dbname: Seq<char>, table: Seq<char>, n: nat) -> Seq<Seq<Seq<char>>>
    decreases n,
{
    if n == 0 {
        Seq::empty()
    } else {
        let who = m.privileges.keys()[n - 1];
        let ps = m.privileges.vals()[n - 1].ordered();
        grantee_rows(m, dbname, table, (n - 1) as nat)
            + Seq::new(ps.len(), |i: int| seq![m.owner@, who, dbname, "public"@, table, privilege_name(ps[i])])
    }
}

/// The rows of table_privileges for the first `n` tables with metadata.
pub open spec fn privilege_rows(db: Database, n: nat) -> Seq<Seq<Seq<char>>>
    decreases n,
{
    if n == 0 {
        Seq::empty()
    } else {
        let m = db.table_metadata.vals()[n - 1];
        privilege_rows(db, (n - 1) as nat)
            + grantee_rows(m, db.name@, db.table_metadata.keys()[n - 1], m.privileges.keys().len())
    }
}

/// The rows of pg_type: OID, name and length of each supported type.
pub open spec fn type_rows() -> Seq<Seq<Seq<char>>> {
    seq![
        seq!["16"@, "bool"@, "1"@],
        seq!["20"@, "int8"@, "8"@],
        seq!["21"@, "int2"@, "2"@],
        seq!["23"@, "int4"@, "4"@],
        seq!["25"@, "text"@, "-1"@],
        seq!["700"@, "float4"@, "4"@],
        seq!["701"@, "float8"@, "8"@],
        seq!["1043"@, "varchar"@, "-1"@],
        seq!["1082"@, "date"@, "4"@],
        seq!["1114"@, "timestamp"@, "8"@],
        seq!["1184"@, "timestamptz"@, "8"@],
        seq!["1700"@, "numeric"@, "-1"@],
        seq!["2950"@, "uuid"@, "16"@],
        seq!["3802"@, "jsonb"@, "-1"@],
        seq!["114"@, "json"@, "-1"@],
        seq!["17"@, "bytea"@, "-1"@],
    ]
}

/// The names under which the system catalogs are found.
pub open spec fn catalog_name(name: Seq<char>) -> bool {
    ||| name == "pg_catalog.pg_class"@
    ||| name == "pg_catalog.pg_attribute"@
    ||| name == "pg_catalog.pg_index"@
    ||| name == "pg_catalog.pg_type"@
    ||| name == "pg_catalog.pg_namespace"@
    ||| name == "pg_namespace"@
    ||| name == "pg_catalog.pg_database"@
    ||| name == "pg_database"@
    ||| name == "pg_catalog.pg_roles"@
    ||| name == "pg_roles"@
    ||| name == "pg_catalog.pg_user"@
    ||| name == "pg_user"@
    ||| name == "pg_catalog.pg_auth_members"@
    ||| name == "pg_auth_members"@
    ||| name == "pg_catalog.table_privileges"@
    ||| name == "table_privileges"@
    ||| name == "information_schema.tables"@
    ||| name == "information_schema.columns"@
}

/// A row of texts.
fn text_row(cells: Vec<&str>) -> (r: Vec<String>)
    ensures
        string_views(r@) == cells@.map_values(|s: &str| s@),
{
    let mut r: Vec<String> = Vec::new();
    let mut i: usize = 0;
    while i < cells.len()
        invariant
            i <= cells@.len(),
            string_views(r@) == cells@.take(i as int).map_values(|s: &str| s@),
        decreases cells@.len() - i,
    {
        let ghost before = r@;
        r.push(cells[i].to_owned());
        assert(string_views(r@) =~= string_views(before).push(cells@[i as int]@));
        assert(cells@.take(i as int + 1).map_values(|s: &str| s@) =~= cells@.take(i as int).map_values(|s: &str| s@).push(cells@[i as int]@));
        i = i + 1;
    }
    assert(cells@.take(cells@.len() as int) =~= cells@);
    r
}

/// Appends a cell to a row.
fn push_cell(row: &mut Vec<String>, s: String)
    ensures
        string_views(final(row)@) == string_views(old(row)@).push(s@),
{
    let ghost v = s@;
    row.push(s);
    assert(string_views(row@) =~= string_views(old(row)@).push(v));
}

/// Appends a row.
fn push_row(rows: &mut Vec<Vec<String>>, row: Vec<String>)
    ensures
        grid(final(rows)@) == grid(old(rows)@).push(string_views(row@)),
{
    let ghost v = string_views(row@);
    rows.push(row);
    assert(grid(rows@) =~= grid(old(rows)@).push(v));
}

/// The decimal text of an integer.
fn number_text(n: usize) -> (s: String)
    ensures
        s@ == decimal(n as nat),
{
    fmt_usize(n)
}

/// Answers queries on the system catalogs.
pub struct SystemCatalog;

impl SystemCatalog {
    /// Whether `table_name` names a system catalog.
    pub fn is_system_catalog(table_name: &str) -> (b: bool)
        ensures
            b == catalog_name(table_name@),
    {
        str_equal(table_name, "pg_catalog.pg_class")
            || str_equal(table_name, "pg_catalog.pg_attribute")
            || str_equal(table_name, "pg_catalog.pg_index")
            || str_equal(table_name, "pg_catalog.pg_type")
            || str_equal(table_name, "pg_catalog.pg_namespace")
            || str_equal(table_name, "pg_namespace")
            || str_equal(table_name, "pg_catalog.pg_database")
            || str_equal(table_name, "pg_database")
            || str_equal(table_name, "pg_catalog.pg_roles")
            || str_equal(table_name, "pg_roles")
            || str_equal(table_name, "pg_catalog.pg_user")
            || str_equal(table_name, "pg_user")
            || str_equal(table_name, "pg_catalog.pg_auth_members")
            || str_equal(table_name, "pg_auth_members")
            || str_equal(table_name, "pg_catalog.table_privileges")
            || str_equal(table_name, "table_privileges")
            || str_equal(table_name, "information_schema.tables")
            || str_equal(table_name, "information_schema.columns")
    }

    /// The type OID of a column type.
    pub fn data_type_to_oid(data_type: &DataType) -> (oid: i32)
        ensures
            oid == type_oid(*data_type),
    {
        match data_type {
            DataType::Boolean => 16,
            DataType::SmallInt => 21,
            DataType::Integer => 23,
            DataType::Serial => 23,
            DataType::BigSerial => 20,
            DataType::Real => 700,
            DataType::Numeric { .. } => 1700,
            DataType::Text => 25,
            DataType::Varchar { .. } => 1043,
            DataType::Char { .. } => 1042,
            DataType::Date => 1082,
            DataType::Timestamp => 1114,
            DataType::TimestampTz => 1184,
            DataType::Uuid => 2950,
            DataType::Json => 114,
            DataType::Jsonb => 3802,
            DataType::Bytea => 17,
            DataType::Enum { .. } => 25,
        }
    }

    /// The SQL name of a column type.
    pub fn data_type_to_sql_name(data_type: &DataType) -> (s: String)
        ensures
            s@ == sql_type_name(*data_type),
    {
        match data_type {
            DataType::Boolean => "boolean".to_owned(),
            DataType::SmallInt => "smallint".to_owned(),
            DataType::Integer => "integer".to_owned(),
            DataType::Serial => "serial".to_owned(),
            DataType::BigSerial => "bigserial".to_owned(),
            DataType::Real => "real".to_owned(),
            DataType::Numeric { precision, scale } => {
                let mut out: Vec<char> = Vec::new();
                push_str(&mut out, "numeric(");
                let p = fmt_usize(*precision as usize);
                push_str(&mut out, p.as_str());
                push_str(&mut out, ",");
                let q = fmt_usize(*scale as usize);
                push_str(&mut out, q.as_str());
                push_str(&mut out, ")");
                string_of(&out)
            },
            DataType::Text => "text".to_owned(),
            DataType::Varchar { max_length } => {
                let mut out: Vec<char> = Vec::new();
                push_str(&mut out, "varchar(");
                let n = fmt_usize(*max_length);
                push_str(&mut out, n.as_str());
                push_str(&mut out, ")");
                string_of(&out)
            },
            DataType::Char { length } => {
                let mut out: Vec<char> = Vec::new();
                push_str(&mut out, "char(");
                let n = fmt_usize(*length);
                push_str(&mut out, n.as_str());
                push_str(&mut out, ")");
                string_of(&out)
            },
            DataType::Date => "date".to_owned(),
            DataType::Timestamp => "timestamp".to_owned(),
            DataType::TimestampTz => "timestamptz".to_owned(),
            DataType::Uuid => "uuid".to_owned(),
            DataType::Json => "json".to_owned(),
            DataType::Jsonb => "jsonb".to_owned(),
            DataType::Bytea => "bytea".to_owned(),
            DataType::Enum { name, .. } => name.clone(),
        }
    }

    /// pg_catalog.pg_namespace: the pg_catalog and public schemas.
    pub fn pg_namespace() -> (r: Result<QueryResult, DatabaseError>)
        ensures
            rows_result(r, seq![seq!["11"@, "pg_catalog"@], seq!["2200"@, "public"@]], seq!["oid"@, "nspname"@]),
    {
        let columns = text_row(vec!["oid", "nspname"]);
        assert(string_views(columns@) =~= seq!["oid"@, "nspname"@]);
        let mut rows: Vec<Vec<String>> = Vec::new();
        let r0 = text_row(vec!["11", "pg_catalog"]);
        assert(string_views(r0@) =~= seq!["11"@, "pg_catalog"@]);
        push_row(&mut rows, r0);
        let r1 = text_row(vec!["2200", "public"]);
        assert(string_views(r1@) =~= seq!["2200"@, "public"@]);
        push_row(&mut rows, r1);
        assert(grid(rows@) =~= seq![seq!["11"@, "pg_catalog"@], seq!["2200"@, "public"@]]);
        Ok(QueryResult::Rows(rows, columns))
    }
}

impl SystemCatalog {
    /// pg_catalog.pg_type: the supported types.
    pub fn pg_type() -> (r: Result<QueryResult, DatabaseError>)
        ensures
            rows_result(r, type_rows(), seq!["oid"@, "typname"@, "typlen"@]),
    {
        let columns = Self::row3("oid", "typname", "typlen");
        let mut rows: Vec<Vec<String>> = Vec::new();
        push_row(&mut rows, Self::row3("16", "bool", "1"));
        push_row(&mut rows, Self::row3("20", "int8", "8"));
        push_row(&mut rows, Self::row3("21", "int2", "2"));
        push_row(&mut rows, Self::row3("23", "int4", "4"));
        push_row(&mut rows, Self::row3("25", "text", "-1"));
        push_row(&mut rows, Self::row3("700", "float4", "4"));
        push_row(&mut rows, Self::row3("701", "float8", "8"));
        push_row(&mut rows, Self::row3("1043", "varchar", "-1"));
        push_row(&mut rows, Self::row3("1082", "date", "4"));
        push_row(&mut rows, Self::row3("1114", "timestamp", "8"));
        push_row(&mut rows, Self::row3("1184", "timestamptz", "8"));
        push_row(&mut rows, Self::row3("1700", "numeric", "-1"));
        push_row(&mut rows, Self::row3("2950", "uuid", "16"));
        push_row(&mut rows, Self::row3("3802", "jsonb", "-1"));
        push_row(&mut rows, Self::row3("114", "json", "-1"));
        push_row(&mut rows, Self::row3("17", "bytea", "-1"));
        assert(grid(rows@) =~= seq![
            seq!["16"@, "bool"@, "1"@],
            seq!["20"@, "int8"@, "8"@],
            seq!["21"@, "int2"@, "2"@],
            seq!["23"@, "int4"@, "4"@],
            seq!["25"@, "text"@, "-1"@],
            seq!["700"@, "float4"@, "4"@],
            seq!["701"@, "float8"@, "8"@],
            seq!["1043"@, "varchar"@, "-1"@],
            seq!["1082"@, "date"@, "4"@],
            seq!["1114"@, "timestamp"@, "8"@],
            seq!["1184"@, "timestamptz"@, "8"@],
            seq!["1700"@, "numeric"@, "-1"@],
            seq!["2950"@, "uuid"@, "16"@],
            seq!["3802"@, "jsonb"@, "-1"@],
            seq!["114"@, "json"@, "-1"@],
            seq!["17"@, "bytea"@, "-1"@],
        ]);
        Ok(QueryResult::Rows(rows, columns))
    }

    fn row3(a: &str, b: &str, c: &str) -> (r: Vec<String>)
        ensures
            string_views(r@) == seq![a@, b@, c@],
    {
        let mut r: Vec<String> = Vec::new();
        push_cell(&mut r, a.to_owned());
        push_cell(&mut r, b.to_owned());
        push_cell(&mut r, c.to_owned());
        assert(string_views(r@) =~= seq![a@, b@, c@]);
        r
    }

    fn row4(a: &str, b: &str, c: &str, d: &str) -> (r: Vec<String>)
        ensures
            string_views(r@) == seq![a@, b@, c@, d@],
    {
        let mut r: Vec<String> = Vec::new();
        push_cell(&mut r, a.to_owned());
        push_cell(&mut r, b.to_owned());
        push_cell(&mut r, c.to_owned());
        push_cell(&mut r, d.to_owned());
        assert(string_views(r@) =~= seq![a@, b@, c@, d@]);
        r
    }

    fn row5(a: &str, b: &str, c: &str, d: &str, e: &str) -> (r: Vec<String>)
        ensures
            string_views(r@) == seq![a@, b@, c@, d@, e@],
    {
        let mut r: Vec<String> = Vec::new();
        push_cell(&mut r, a.to_owned());
        push_cell(&mut r, b.to_owned());
        push_cell(&mut r, c.to_owned());
        push_cell(&mut r, d.to_owned());
        push_cell(&mut r, e.to_owned());
        assert(string_views(r@) =~= seq![a@, b@, c@, d@, e@]);
        r
    }

    fn row6(a: &str, b: &str, c: &str, d: &str, e: &str, f: &str) -> (r: Vec<String>)
        ensures
            string_views(r@) == seq![a@, b@, c@, d@, e@, f@],
    {
        let mut r: Vec<String> = Vec::new();
        push_cell(&mut r, a.to_owned());
        push_cell(&mut r, b.to_owned());
        push_cell(&mut r, c.to_owned());
        push_cell(&mut r, d.to_owned());
        push_cell(&mut r, e.to_owned());
        push_cell(&mut r, f.to_owned());
        assert(string_views(r@) =~= seq![a@, b@, c@, d@, e@, f@]);
        r
    }

    fn row7(a: &str, b: &str, c: &str, d: &str, e: &str, f: &str, g: &str) -> (r: Vec<String>)
        ensures
            string_views(r@) == seq![a@, b@, c@, d@, e@, f@, g@],
    {
        let mut r: Vec<String> = Vec::new();
        push_cell(&mut r, a.to_owned());
        push_cell(&mut r, b.to_owned());
        push_cell(&mut r, c.to_owned());
        push_cell(&mut r, d.to_owned());
        push_cell(&mut r, e.to_owned());
        push_cell(&mut r, f.to_owned());
        push_cell(&mut r, g.to_owned());
        assert(string_views(r@) =~= seq![a@, b@, c@, d@, e@, f@, g@]);
        r
    }

    /// pg_catalog.pg_database: the current database.
    pub fn pg_database(db: &Database) -> (r: Result<QueryResult, DatabaseError>)
        ensures
            rows_result(r, seq![seq!["13442"@, db.name@, "10"@, "UTF8"@]], seq!["oid"@, "datname"@, "datdba"@, "encoding"@]),
    {
        let columns = Self::row4("oid", "datname", "datdba", "encoding");
        let mut rows: Vec<Vec<String>> = Vec::new();
        push_row(&mut rows, Self::row4("13442", db.name.as_str(), "10", "UTF8"));
        assert(grid(rows@) =~= seq![seq!["13442"@, db.name@, "10"@, "UTF8"@]]);
        Ok(QueryResult::Rows(rows, columns))
    }

    /// pg_catalog.pg_roles: the postgres superuser.
    pub fn pg_roles() -> (r: Result<QueryResult, DatabaseError>)
        ensures
            rows_result(r, seq![seq!["postgres"@, "t"@, "t"@, "t"@, "t"@, "t"@]],
                seq!["rolname"@, "rolsuper"@, "rolinherit"@, "rolcreaterole"@, "rolcreatedb"@, "rolcanlogin"@]),
    {
        let columns = Self::row6("rolname", "rolsuper", "rolinherit", "rolcreaterole", "rolcreatedb", "rolcanlogin");
        let mut rows: Vec<Vec<String>> = Vec::new();
        push_row(&mut rows, Self::row6("postgres", "t", "t", "t", "t", "t"));
        assert(grid(rows@) =~= seq![seq!["postgres"@, "t"@, "t"@, "t"@, "t"@, "t"@]]);
        Ok(QueryResult::Rows(rows, columns))
    }

    /// pg_catalog.pg_user: the postgres superuser.
    pub fn pg_user() -> (r: Result<QueryResult, DatabaseError>)
        ensures
            rows_result(r, seq![seq!["postgres"@, "t"@, "t"@]], seq!["usename"@, "usesuper"@, "usecreatedb"@]),
    {
        let columns = Self::row3("usename", "usesuper", "usecreatedb");
        let mut rows: Vec<Vec<String>> = Vec::new();
        push_row(&mut rows, Self::row3("postgres", "t", "t"));
        assert(grid(rows@) =~= seq![seq!["postgres"@, "t"@, "t"@]]);
        Ok(QueryResult::Rows(rows, columns))
    }

    /// pg_catalog.pg_auth_members: no memberships.
    pub fn pg_auth_members() -> (r: Result<QueryResult, DatabaseError>)
        ensures
            rows_result(r, Seq::empty(), seq!["roleid"@, "member"@, "grantor"@, "admin_option"@]),
    {
        let columns = Self::row4("roleid", "member", "grantor", "admin_option");
        let rows: Vec<Vec<String>> = Vec::new();
        assert(grid(rows@) =~= Seq::<Seq<Seq<char>>>::empty());
        Ok(QueryResult::Rows(rows, columns))
    }

    /// information_schema.tables: the tables, then the views.
    pub fn information_schema_tables(db: &Database) -> (r: Result<QueryResult, DatabaseError>)
        ensures
            rows_result(r, schema_table_rows(*db), seq!["table_catalog"@, "table_schema"@, "table_name"@, "table_type"@]),
    {
        let columns = Self::row4("table_catalog", "table_schema", "table_name", "table_type");
        let mut rows: Vec<Vec<String>> = Vec::new();
        proof {
            db.tables.lemma_lengths();
            db.views.lemma_lengths();
        }
        let ghost tk = db.tables.keys();
        let ghost vk = db.views.keys();
        let mut i: usize = 0;
        while i < db.tables.len()
            invariant
                tk == db.tables.keys(),
                i <= tk.len(),
                grid(rows@) == Seq::new(i as nat, |q: int| seq!["rustdb"@, "public"@, tk[q], "BASE TABLE"@]),
            decreases tk.len() - i,
        {
            push_row(&mut rows, Self::row4("rustdb", "public", db.tables.key_at(i).as_str(), "BASE TABLE"));
            assert(grid(rows@) =~= Seq::new(i as nat + 1, |q: int| seq!["rustdb"@, "public"@, tk[q], "BASE TABLE"@]));
            i = i + 1;
        }
        let ghost first = grid(rows@);
        let mut j: usize = 0;
        while j < db.views.len()
            invariant
                vk == db.views.keys(),
                j <= vk.len(),
                grid(rows@) == first + Seq::new(j as nat, |q: int| seq!["rustdb"@, "public"@, vk[q], "VIEW"@]),
            decreases vk.len() - j,
        {
            push_row(&mut rows, Self::row4("rustdb", "public", db.views.key_at(j).as_str(), "VIEW"));
            assert(grid(rows@) =~= first + Seq::new(j as nat + 1, |q: int| seq!["rustdb"@, "public"@, vk[q], "VIEW"@]));
            j = j + 1;
        }
        Ok(QueryResult::Rows(rows, columns))
    }
}

impl SystemCatalog {
    /// pg_catalog.pg_class: tables, views and indexes, numbered from 16384.
    pub fn pg_class(db: &Database) -> (r: Result<QueryResult, DatabaseError>)
        requires
            db.wf(),
            16384 + db.tables.keys().len() + db.views.keys().len() + db.indexes.keys().len() <= i32::MAX,
        ensures
            rows_result(r, class_rows(*db), seq!["oid"@, "relname"@, "relnamespace"@, "relkind"@, "relowner"@]),
    {
        let columns = Self::row5("oid", "relname", "relnamespace", "relkind", "relowner");
        let mut rows: Vec<Vec<String>> = Vec::new();
        proof {
            db.tables.lemma_lengths();
            db.views.lemma_lengths();
            db.indexes.lemma_lengths();
        }
        let ghost tk = db.tables.keys();
        let ghost vk = db.views.keys();
        let ghost ik = db.indexes.keys();
        let ghost dbv = *db;
        let mut oid: usize = 16384;
        let mut i: usize = 0;
        while i < db.tables.len()
            invariant
                dbv == *db,
                db.wf(),
                tk == db.tables.keys(),
                i <= tk.len(),
                oid == 16384 + i,
                16384 + tk.len() + vk.len() + ik.len() <= i32::MAX,
                grid(rows@) == Seq::new(i as nat, |q: int| class_row(16384 + q, tk[q], "r"@, owner_oid(dbv, tk[q]))),
            decreases tk.len() - i,
        {
            let name = db.tables.key_at(i);
            let owner: &str = match db.table_metadata.get(name.as_str()) {
                Some(m) => if str_equal(m.owner.as_str(), "postgres") { "10" } else { "16384" },
                None => "10",
            };
            let oid_text = number_text(oid);
            push_row(&mut rows, Self::row5(oid_text.as_str(), name.as_str(), "2200", "r", owner));
            assert(grid(rows@) =~= Seq::new(i as nat + 1, |q: int| class_row(16384 + q, tk[q], "r"@, owner_oid(dbv, tk[q]))));
            oid = oid + 1;
            i = i + 1;
        }
        let ghost part1 = grid(rows@);
        let mut j: usize = 0;
        while j < db.views.len()
            invariant
                vk == db.views.keys(),
                j <= vk.len(),
                oid == 16384 + tk.len() + j,
                16384 + tk.len() + vk.len() + ik.len() <= i32::MAX,
                grid(rows@) == part1 + Seq::new(j as nat, |q: int| class_row(16384 + tk.len() + q, vk[q], "v"@, "10"@)),
            decreases vk.len() - j,
        {
            let oid_text = number_text(oid);
            push_row(&mut rows, Self::row5(oid_text.as_str(), db.views.key_at(j).as_str(), "2200", "v", "10"));
            assert(grid(rows@) =~= part1 + Seq::new(j as nat + 1, |q: int| class_row(16384 + tk.len() + q, vk[q], "v"@, "10"@)));
            oid = oid + 1;
            j = j + 1;
        }
        let ghost part2 = grid(rows@);
        let mut k: usize = 0;
        while k < db.indexes.len()
            invariant
                ik == db.indexes.keys(),
                k <= ik.len(),
                oid == 16384 + tk.len() + vk.len() + k,
                16384 + tk.len() + vk.len() + ik.len() <= i32::MAX,
                grid(rows@) == part2 + Seq::new(k as nat, |q: int| class_row(16384 + tk.len() + vk.len() + q, ik[q], "i"@, "10"@)),
            decreases ik.len() - k,
        {
            let oid_text = number_text(oid);
            push_row(&mut rows, Self::row5(oid_text.as_str(), db.indexes.key_at(k).as_str(), "2200", "i", "10"));
            assert(grid(rows@) =~= part2 + Seq::new(k as nat + 1, |q: int| class_row(16384 + tk.len() + vk.len() + q, ik[q], "i"@, "10"@)));
            oid = oid + 1;
            k = k + 1;
        }
        assert(grid(rows@) =~= class_rows(*db));
        Ok(QueryResult::Rows(rows, columns))
    }

    /// pg_catalog.pg_attribute: the columns of each table, the tables numbered from 16384.
    pub fn pg_attribute(db: &Database) -> (r: Result<QueryResult, DatabaseError>)
        requires
            16384 + db.tables.keys().len() <= i32::MAX,
        ensures
            rows_result(r, attribute_rows(db.tables.vals(), db.tables.vals().len()),
                seq!["attrelid"@, "attname"@, "atttypid"@, "attnum"@, "attnotnull"@]),
    {
        let columns = Self::row5("attrelid", "attname", "atttypid", "attnum", "attnotnull");
        let mut rows: Vec<Vec<String>> = Vec::new();
        proof {
            db.tables.lemma_lengths();
        }
        let ghost tv = db.tables.vals();
        let n = db.tables.len();
        let mut k: usize = 0;
        while k < n
            invariant
                tv == db.tables.vals(),
                n == tv.len(),
                db.tables.keys().len() == n,
                k <= n,
                16384 + n <= i32::MAX,
                grid(rows@) == attribute_rows(tv, k as nat),
            decreases n - k,
        {
            let table = db.tables.value_at(k);
            let ghost base = grid(rows@);
            let oid_text = number_text(16384 + k);
            let mut c: usize = 0;
            while c < table.columns.len()
                invariant
                    *table == tv[k as int],
                    c <= table.columns@.len(),
                    oid_text@ == decimal((16384 + k) as nat),
                    grid(rows@) == base + table_attribute_rows(*table, 16384 + k).take(c as int),
                decreases table.columns@.len() - c,
            {
                let col = &table.columns[c];
                let mut row: Vec<String> = Vec::new();
                push_cell(&mut row, oid_text.clone());
                push_cell(&mut row, col.name.clone());
                let t = Self::data_type_to_oid(&col.data_type);
                push_cell(&mut row, crate::text::fmt_i128(t as i128));
                push_cell(&mut row, number_text(c + 1));
                push_cell(&mut row, if !col.nullable { "true".to_owned() } else { "false".to_owned() });
                assert(string_views(row@) =~= table_attribute_rows(*table, 16384 + k)[c as int]);
                push_row(&mut rows, row);
                assert(table_attribute_rows(*table, 16384 + k).take(c as int + 1)
                    =~= table_attribute_rows(*table, 16384 + k).take(c as int).push(table_attribute_rows(*table, 16384 + k)[c as int]));
                assert(grid(rows@) =~= base + table_attribute_rows(*table, 16384 + k).take(c as int + 1));
                c = c + 1;
            }
            assert(table_attribute_rows(*table, 16384 + k).take(table.columns@.len() as int) =~= table_attribute_rows(*table, 16384 + k));
            k = k + 1;
        }
        Ok(QueryResult::Rows(rows, columns))
    }

    /// information_schema.columns: the columns of each table.
    pub fn information_schema_columns(db: &Database) -> (r: Result<QueryResult, DatabaseError>)
        ensures
            rows_result(r, column_rows(db.tables.vals(), db.tables.vals().len()),
                seq!["table_catalog"@, "table_schema"@, "table_name"@, "column_name"@, "ordinal_position"@, "is_nullable"@, "data_type"@]),
    {
        let columns = Self::row7("table_catalog", "table_schema", "table_name", "column_name", "ordinal_position", "is_nullable", "data_type");
        let mut rows: Vec<Vec<String>> = Vec::new();
        proof {
            db.tables.lemma_lengths();
        }
        let ghost tv = db.tables.vals();
        let n = db.tables.len();
        let mut k: usize = 0;
        while k < n
            invariant
                tv == db.tables.vals(),
                n == tv.len(),
                db.tables.keys().len() == n,
                k <= n,
                grid(rows@) == column_rows(tv, k as nat),
            decreases n - k,
        {
            let table = db.tables.value_at(k);
            let ghost base = grid(rows@);
            let mut c: usize = 0;
            while c < table.columns.len()
                invariant
                    *table == tv[k as int],
                    c <= table.columns@.len(),
                    grid(rows@) == base + table_column_rows(*table).take(c as int),
                decreases table.columns@.len() - c,
            {
                let col = &table.columns[c];
                let mut row: Vec<String> = Vec::new();
                push_cell(&mut row, "rustdb".to_owned());
                push_cell(&mut row, "public".to_owned());
                push_cell(&mut row, table.name.clone());
                push_cell(&mut row, col.name.clone());
                push_cell(&mut row, number_text(c + 1));
                push_cell(&mut row, if col.nullable { "YES".to_owned() } else { "NO".to_owned() });
                push_cell(&mut row, Self::data_type_to_sql_name(&col.data_type));
                assert(string_views(row@) =~= table_column_rows(*table)[c as int]);
                push_row(&mut rows, row);
                assert(table_column_rows(*table).take(c as int + 1)
                    =~= table_column_rows(*table).take(c as int).push(table_column_rows(*table)[c as int]));
                assert(grid(rows@) =~= base + table_column_rows(*table).take(c as int + 1));
                c = c + 1;
            }
            assert(table_column_rows(*table).take(table.columns@.len() as int) =~= table_column_rows(*table));
            k = k + 1;
        }
        Ok(QueryResult::Rows(rows, columns))
    }

    /// pg_catalog.pg_index: each index, numbered from 17000, its columns numbered from 1.
    pub fn pg_index(db: &Database) -> (r: Result<QueryResult, DatabaseError>)
        requires
            17000 + db.indexes.keys().len() <= i32::MAX,
        ensures
            rows_result(r, index_rows(*db), seq!["indexrelid"@, "indrelid"@, "indkey"@, "indisunique"@]),
    {
        let columns = Self::row4("indexrelid", "indrelid", "indkey", "indisunique");
        let mut rows: Vec<Vec<String>> = Vec::new();
        proof {
            db.indexes.lemma_lengths();
        }
        let ghost iv = db.indexes.vals();
        let n = db.indexes.len();
        let mut k: usize = 0;
        while k < n
            invariant
                iv == db.indexes.vals(),
                n == iv.len(),
                db.indexes.keys().len() == n,
                k <= n,
                17000 + n <= i32::MAX,
                grid(rows@) == index_rows(*db).take(k as int),
            decreases n - k,
        {
            let index = db.indexes.value_at(k);
            let count = index.column_names().len();
            let mut key: Vec<char> = Vec::new();
            let mut q: usize = 0;
            while q < count
                invariant
                    q <= count,
                    key@ == join_with(Seq::new(q as nat, |i: int| decimal((i + 1) as nat)), " "@),
                decreases count - q,
            {
                let ghost before = key@;
                if q > 0 {
                    push_str(&mut key, " ");
                }
                let t = number_text(q + 1);
                push_str(&mut key, t.as_str());
                proof {
                    let now = Seq::new(q as nat + 1, |i: int| decimal((i + 1) as nat));
                    assert(now.drop_last() =~= Seq::new(q as nat, |i: int| decimal((i + 1) as nat)));
                    if q == 0 {
                        assert(Seq::new(0nat, |i: int| decimal((i + 1) as nat)) =~= Seq::<Seq<char>>::empty());
                    }
                    assert(key@ =~= join_with(now, " "@));
                }
                q = q + 1;
            }
            let mut row: Vec<String> = Vec::new();
            push_cell(&mut row, number_text(17000 + k));
            push_cell(&mut row, "16384".to_owned());
            push_cell(&mut row, string_of(&key));
            push_cell(&mut row, if index.is_unique() { "true".to_owned() } else { "false".to_owned() });
            assert(string_views(row@) =~= index_rows(*db)[k as int]);
            push_row(&mut rows, row);
            assert(index_rows(*db).take(k as int + 1) =~= index_rows(*db).take(k as int).push(index_rows(*db)[k as int]));
            k = k + 1;
        }
        assert(index_rows(*db).take(n as int) =~= index_rows(*db));
        Ok(QueryResult::Rows(rows, columns))
    }
}

impl SystemCatalog {
    /// The SQL name of a right.
    fn privilege_text(p: Privilege) -> (s: &'static str)
        ensures
            s@ == privilege_name(p),
    {
        match p {
            Privilege::Connect => "CONNECT",
            Privilege::Create => "CREATE",
            Privilege::Select => "SELECT",
            Privilege::Insert => "INSERT",
            Privilege::Update => "UPDATE",
            Privilege::Delete => "DELETE",
            Privilege::All => "ALL",
        }
    }

    /// pg_catalog.table_privileges: one row per right held on a table, the
    /// table's owner as grantor.
    pub fn table_privileges(db: &Database) -> (r: Result<QueryResult, DatabaseError>)
        ensures
            rows_result(r, privilege_rows(*db, db.table_metadata.vals().len()),
                seq!["grantor"@, "grantee"@, "table_catalog"@, "table_schema"@, "table_name"@, "privilege_type"@]),
    {
        let columns = Self::row6("grantor", "grantee", "table_catalog", "table_schema", "table_name", "privilege_type");
        let mut rows: Vec<Vec<String>> = Vec::new();
        proof {
            db.table_metadata.lemma_lengths();
        }
        let n = db.table_metadata.len();
        let mut k: usize = 0;
        while k < n
            invariant
                n == db.table_metadata.vals().len(),
                n == db.table_metadata.keys().len(),
                k <= n,
                grid(rows@) == privilege_rows(*db, k as nat),
            decreases n - k,
        {
            let table_name = db.table_metadata.key_at(k);
            let meta = db.table_metadata.value_at(k);
            proof {
                meta.privileges.lemma_lengths();
            }
            let ghost base = grid(rows@);
            let g = meta.privileges.len();
            let mut u: usize = 0;
            while u < g
                invariant
                    g == meta.privileges.vals().len(),
                    g == meta.privileges.keys().len(),
                    u <= g,
                    grid(rows@) == base + grantee_rows(*meta, db.name@, table_name@, u as nat),
                decreases g - u,
            {
                let who = meta.privileges.key_at(u);
                let set = meta.privileges.value_at(u);
                let ghost ps = set.ordered();
                let ghost mid = grid(rows@);
                let mut q: usize = 0;
                while q < set.len()
                    invariant
                        ps == set.ordered(),
                        q <= ps.len(),
                        grid(rows@) == mid + Seq::new(q as nat, |i: int| seq![meta.owner@, who@, db.name@, "public"@, table_name@, privilege_name(ps[i])]),
                    decreases ps.len() - q,
                {
                    let p = set.get(q);
                    let row = Self::row6(meta.owner.as_str(), who.as_str(), db.name.as_str(), "public", table_name.as_str(),
                        Self::privilege_text(p));
                    push_row(&mut rows, row);
                    assert(grid(rows@) =~= mid + Seq::new(q as nat + 1, |i: int| seq![meta.owner@, who@, db.name@, "public"@, table_name@, privilege_name(ps[i])]));
                    q = q + 1;
                }
                assert(grid(rows@) =~= base + grantee_rows(*meta, db.name@, table_name@, u as nat + 1));
                u = u + 1;
            }
            assert(grid(rows@) =~= privilege_rows(*db, k as nat + 1));
            k = k + 1;
        }
        Ok(QueryResult::Rows(rows, columns))
    }

    /// Answers a query on the system catalog named `table_name`.
    pub fn query(table_name: &str, db: &Database) -> (r: Result<QueryResult, DatabaseError>)
        requires
            db.wf(),
            16384 + db.tables.keys().len() + db.views.keys().len() + db.indexes.keys().len() <= i32::MAX,
            17000 + db.indexes.keys().len() <= i32::MAX,
        ensures
            catalog_answer(table_name@, *db, r),
    {
        if str_equal(table_name, "pg_catalog.pg_class") {
            Self::pg_class(db)
        } else if str_equal(table_name, "pg_catalog.pg_attribute") {
            Self::pg_attribute(db)
        } else if str_equal(table_name, "pg_catalog.pg_index") {
            Self::pg_index(db)
        } else if str_equal(table_name, "pg_catalog.pg_type") {
            Self::pg_type()
        } else if str_equal(table_name, "pg_catalog.pg_namespace") || str_equal(table_name, "pg_namespace") {
            Self::pg_namespace()
        } else if str_equal(table_name, "pg_catalog.pg_database") || str_equal(table_name, "pg_database") {
            Self::pg_database(db)
        } else if str_equal(table_name, "pg_catalog.pg_roles") || str_equal(table_name, "pg_roles") {
            Self::pg_roles()
        } else if str_equal(table_name, "pg_catalog.pg_user") || str_equal(table_name, "pg_user") {
            Self::pg_user()
        } else if str_equal(table_name, "pg_catalog.pg_auth_members") || str_equal(table_name, "pg_auth_members") {
            Self::pg_auth_members()
        } else if str_equal(table_name, "pg_catalog.table_privileges") || str_equal(table_name, "table_privileges") {
            Self::table_privileges(db)
        } else if str_equal(table_name, "information_schema.tables") {
            Self::information_schema_tables(db)
        } else if str_equal(table_name, "information_schema.columns") {
            Self::information_schema_columns(db)
        } else {
            Err(DatabaseError::TableNotFound(table_name.to_owned()))
        }
    }
}

/// The answer to a query on the catalog named `name`.
pub open spec fn catalog_answer(name: Seq<char>, db: Database, r: Result<QueryResult, DatabaseError>) -> bool {
    if name == "pg_catalog.pg_class"@ {
        rows_result(r, class_rows(db), seq!["oid"@, "relname"@, "relnamespace"@, "relkind"@, "relowner"@])
    } else if name == "pg_catalog.pg_attribute"@ {
        rows_result(r, attribute_rows(db.tables.vals(), db.tables.vals().len()),
            seq!["attrelid"@, "attname"@, "atttypid"@, "attnum"@, "attnotnull"@])
    } else if name == "pg_catalog.pg_index"@ {
        rows_result(r, index_rows(db), seq!["indexrelid"@, "indrelid"@, "indkey"@, "indisunique"@])
    } else if name == "pg_catalog.pg_type"@ {
        rows_result(r, type_rows(), seq!["oid"@, "typname"@, "typlen"@])
    } else if name == "pg_catalog.pg_namespace"@ || name == "pg_namespace"@ {
        rows_result(r, seq![seq!["11"@, "pg_catalog"@], seq!["2200"@, "public"@]], seq!["oid"@, "nspname"@])
    } else if name == "pg_catalog.pg_database"@ || name == "pg_database"@ {
        rows_result(r, seq![seq!["13442"@, db.name@, "10"@, "UTF8"@]], seq!["oid"@, "datname"@, "datdba"@, "encoding"@])
    } else if name == "pg_catalog.pg_roles"@ || name == "pg_roles"@ {
        rows_result(r, seq![seq!["postgres"@, "t"@, "t"@, "t"@, "t"@, "t"@]],
            seq!["rolname"@, "rolsuper"@, "rolinherit"@, "rolcreaterole"@, "rolcreatedb"@, "rolcanlogin"@])
    } else if name == "pg_catalog.pg_user"@ || name == "pg_user"@ {
        rows_result(r, seq![seq!["postgres"@, "t"@, "t"@]], seq!["usename"@, "usesuper"@, "usecreatedb"@])
    } else if name == "pg_catalog.pg_auth_members"@ || name == "pg_auth_members"@ {
        rows_result(r, Seq::empty(), seq!["roleid"@, "member"@, "grantor"@, "admin_option"@])
    } else if name == "pg_catalog.table_privileges"@ || name == "table_privileges"@ {
        rows_result(r, privilege_rows(db, db.table_metadata.vals().len()),
            seq!["grantor"@, "grantee"@, "table_catalog"@, "table_schema"@, "table_name"@, "privilege_type"@])
    } else if name == "information_schema.tables"@ {
        rows_result(r, schema_table_rows(db), seq!["table_catalog"@, "table_schema"@, "table_name"@, "table_type"@])
    } else if name == "information_schema.columns"@ {
        rows_result(r, column_rows(db.tables.vals(), db.tables.vals().len()),
            seq!["table_catalog"@, "table_schema"@, "table_name"@, "column_name"@, "ordinal_position"@, "is_nullable"@, "data_type"@])
    } else {
        r matches Err(DatabaseError::TableNotFound(n)) && n@ == name
    }
}

} // verus!
