//! CREATE TABLE, DROP TABLE, ALTER TABLE and SHOW TABLES.

use vstd::prelude::*;
use crate::catalog::column::{Column, ForeignKey, find_column, first_column_named, lemma_first_column_named};
use crate::catalog::data_type::DataType;
use crate::catalog::database::Database;
use crate::catalog::error::DatabaseError;
use crate::catalog::row::Row;
use crate::catalog::table::Table;
use crate::catalog::value::Value;
use crate::executor::QueryResult;
use crate::executor::explain::{first_where, lemma_first_where_none, lemma_first_where_prefix, lemma_first_where_step};
use crate::text::{push_str, string_of, string_views};

verus! {

/// A column as a statement defines it.
#[derive(Debug)]
pub struct ColumnDef {
    pub name: String,
    /// An enumerated type given by name alone carries no labels.
    pub data_type: DataType,
    pub nullable: bool,
    pub primary_key: bool,
    pub unique: bool,
    pub foreign_key: Option<ForeignKey>,
}

/// What an ALTER TABLE does.
#[derive(Debug)]
pub enum AlterTableOperation {
    AddColumn(ColumnDef),
    DropColumn(String),
    RenameColumn { old_name: String, new_name: String },
    RenameTable(String),
}

/// An enumerated type named without its labels, to be looked up.
pub open spec fn names_enum(t: DataType) -> bool {
    t matches DataType::Enum { values, .. } && values@.len() == 0
}

/// The name of an enumerated type.
pub open spec fn enum_name(t: DataType) -> Seq<char> {
    match t {
        DataType::Enum { name, .. } => name@,
        _ => Seq::empty(),
    }
}

/// The same type: names and labels compared by content.
pub open spec fn same_type(a: DataType, b: DataType) -> bool {
    match (a, b) {
        (DataType::Enum { name: n1, values: v1 }, DataType::Enum { name: n2, values: v2 }) =>
            n1@ == n2@ && string_views(v1@) == string_views(v2@),
        _ => a == b,
    }
}

/// The defined type names an enumerated type the database does not have.
pub open spec fn enum_unknown(db: Database) -> spec_fn(ColumnDef) -> bool {
    |d: ColumnDef| names_enum(d.data_type) && !db.enums@.contains_key(enum_name(d.data_type))
}

/// `got` is `given` with an enumerated type named alone given its labels.
pub open spec fn resolved(db: Database, given: DataType, got: DataType) -> bool {
    if names_enum(given) {
        &&& got matches DataType::Enum { name, values }
        &&& name@ == enum_name(given)
        &&& string_views(values@) == string_views(db.enums@[enum_name(given)]@)
    } else {
        same_type(got, given)
    }
}

/// `c` is the column that definition `d` defines in `db`.
pub open spec fn column_of_def(db: Database, d: ColumnDef, c: Column) -> bool {
    &&& c.name@ == d.name@
    &&& resolved(db, d.data_type, c.data_type)
    &&& c.nullable == d.nullable
    &&& c.primary_key == d.primary_key
    &&& c.unique == d.unique
    &&& c.foreign_key == d.foreign_key
}

/// How a foreign key stands against the database.
#[derive(Clone, Copy, Debug, PartialEq, Eq, Structural)]
pub enum FkStatus {
    Valid,
    NoTable,
    NoColumn,
    NotKey,
}

/// Whether the referenced table exists, has the column, and that column is a primary key.
pub open spec fn fk_status(db: Database, fk: ForeignKey) -> FkStatus {
    if !db.tables@.contains_key(fk.referenced_table@) {
        FkStatus::NoTable
    } else {
        let cols = db.tables@[fk.referenced_table@].columns@;
        match first_column_named(cols, fk.referenced_column@) {
            None => FkStatus::NoColumn,
            Some(i) => if cols[i].primary_key { FkStatus::Valid } else { FkStatus::NotKey },
        }
    }
}

/// The definition carries a foreign key that does not stand.
pub open spec fn fk_broken(db: Database) -> spec_fn(ColumnDef) -> bool {
    |d: ColumnDef| d.foreign_key matches Some(fk) && !(fk_status(db, fk) is Valid)
}

/// The message of a broken foreign key in CREATE TABLE.
pub open spec fn create_fk_message(fk: ForeignKey, s: FkStatus) -> Seq<char> {
    match s {
        FkStatus::NoTable => "Referenced table '"@ + fk.referenced_table@ + "' does not exist"@,
        FkStatus::NoColumn => "Referenced column '"@ + fk.referenced_column@ + "' does not exist in table '"@
            + fk.referenced_table@ + "'"@,
        _ => "Referenced column '"@ + fk.referenced_column@ + "' must be a primary key"@,
    }
}

/// The message of a broken foreign key in ALTER TABLE ADD COLUMN.
pub open spec fn add_fk_message(fk: ForeignKey, s: FkStatus) -> Seq<char> {
    match s {
        FkStatus::NoTable => "Referenced table '"@ + fk.referenced_table@ + "' does not exist"@,
        FkStatus::NoColumn => "Referenced column '"@ + fk.referenced_column@ + "' does not exist"@,
        _ => "Referenced column must be PRIMARY KEY"@,
    }
}

/// The message of an enumerated type the database does not have.
pub open spec fn unknown_enum_message(name: Seq<char>) -> Seq<char> {
    "Unknown enum type '"@ + name + "'"@
}

/// Each row of `after` is the row of `before` at the same position with its
/// values changed by `f`, its versions kept.
pub open spec fn rows_mapped(before: Seq<Row>, after: Seq<Row>, f: spec_fn(Seq<Value>) -> Seq<Value>) -> bool {
    &&& after.len() == before.len()
    &&& forall|i: int| 0 <= i < before.len() ==> {
        &&& (#[trigger] after[i]).values@ == f(before[i].values@)
        &&& after[i].xmin == before[i].xmin
        &&& after[i].xmax == before[i].xmax
    }
}

/// A NULL appended to the values of a row.
pub open spec fn null_appended() -> spec_fn(Seq<Value>) -> Seq<Value> {
    |vs: Seq<Value>| vs.push(Value::Null)
}

/// The value at position `i` taken out of the values of a row.
pub open spec fn value_removed(i: int) -> spec_fn(Seq<Value>) -> Seq<Value> {
    |vs: Seq<Value>| vs.remove(i)
}

/// `after` is `before` with its columns and rows changed: nothing else.
pub open spec fn table_reshaped(before: Table, after: Table) -> bool {
    &&& after.name == before.name
    &&& after.sequences == before.sequences
    &&& after.owner == before.owner
}

/// `after` is `db` with table `name` replaced, nothing else changed.
pub open spec fn only_table_changed(before: Database, after: Database, name: Seq<char>) -> bool {
    &&& after.tables@ == before.tables@.insert(name, after.tables@[name])
    &&& after.name == before.name
    &&& after.enums == before.enums
    &&& after.indexes == before.indexes
    &&& after.views == before.views
    &&& after.table_metadata == before.table_metadata
}

/// Runs the statements that define tables.
pub struct DdlExecutor;

impl DdlExecutor {
    /// A copy of a type.
    fn copy_type(t: &DataType) -> (r: DataType)
        ensures
            same_type(r, *t),
    {
        match t {
            DataType::SmallInt => DataType::SmallInt,
            DataType::Integer => DataType::Integer,
            DataType::Real => DataType::Real,
            DataType::Numeric { precision, scale } => DataType::Numeric { precision: *precision, scale: *scale },
            DataType::Serial => DataType::Serial,
            DataType::BigSerial => DataType::BigSerial,
            DataType::Text => DataType::Text,
            DataType::Varchar { max_length } => DataType::Varchar { max_length: *max_length },
            DataType::Char { length } => DataType::Char { length: *length },
            DataType::Boolean => DataType::Boolean,
            DataType::Date => DataType::Date,
            DataType::Timestamp => DataType::Timestamp,
            DataType::TimestampTz => DataType::TimestampTz,
            DataType::Uuid => DataType::Uuid,
            DataType::Json => DataType::Json,
            DataType::Jsonb => DataType::Jsonb,
            DataType::Bytea => DataType::Bytea,
            DataType::Enum { name, values } => {
                let vs = Self::copy_strings(values);
                DataType::Enum { name: name.clone(), values: vs }
            },
        }
    }

    fn copy_strings(v: &Vec<String>) -> (r: Vec<String>)
        ensures
            string_views(r@) == string_views(v@),
    {
        let mut r: Vec<String> = Vec::new();
        let mut i: usize = 0;
        while i < v.len()
            invariant
                i <= v@.len(),
                string_views(r@) == string_views(v@.take(i as int)),
            decreases v@.len() - i,
        {
            let c = v[i].clone();
            assert(c@ == v@[i as int]@);
            let ghost before = r@;
            r.push(c);
            assert(string_views(r@) =~= string_views(before).push(c@));
            assert(string_views(v@.take(i as int + 1)) =~= string_views(v@.take(i as int)).push(c@));
            i = i + 1;
        }
        assert(v@.take(v@.len() as int) =~= v@);
        r
    }

    fn copy_fk(fk: &Option<ForeignKey>) -> (r: Option<ForeignKey>)
        ensures
            r == *fk,
    {
        match fk {
            Some(f) => Some(ForeignKey {
                referenced_table: f.referenced_table.clone(),
                referenced_column: f.referenced_column.clone(),
            }),
            None => None,
        }
    }

    /// The column `def` defines, its enumerated type looked up in `db`.
    fn column_from_def(db: &Database, def: &ColumnDef) -> (r: Result<Column, DatabaseError>)
        requires
            db.wf(),
        ensures
            enum_unknown(*db)(*def) <==> r is Err,
            r is Err ==> (r matches Err(DatabaseError::ParseError(m)) && m@ == unknown_enum_message(enum_name(def.data_type))),
            r matches Ok(c) ==> column_of_def(*db, *def, c),
    {
        let data_type = match &def.data_type {
            DataType::Enum { name, values } => {
                if values.len() == 0 {
                    match db.enums.get(name.as_str()) {
                        Some(labels) => DataType::Enum { name: name.clone(), values: Self::copy_strings(labels) },
                        None => {
                            let mut out: Vec<char> = Vec::new();
                            push_str(&mut out, "Unknown enum type '");
                            push_str(&mut out, name.as_str());
                            push_str(&mut out, "'");
                            return Err(DatabaseError::ParseError(string_of(&out)));
                        },
                    }
                } else {
                    Self::copy_type(&def.data_type)
                }
            },
            other => Self::copy_type(other),
        };
        Ok(Column {
            name: def.name.clone(),
            data_type,
            nullable: def.nullable,
            primary_key: def.primary_key,
            unique: def.unique,
            foreign_key: Self::copy_fk(&def.foreign_key),
        })
    }

    /// How `fk` stands against `db`.
    fn check_fk(db: &Database, fk: &ForeignKey) -> (s: FkStatus)
        requires
            db.wf(),
        ensures
            s == fk_status(*db, *fk),
    {
        match db.get_table(fk.referenced_table.as_str()) {
            None => FkStatus::NoTable,
            Some(t) => {
                let found = find_column(&t.columns, fk.referenced_column.as_str());
                match found {
                    None => FkStatus::NoColumn,
                    Some(i) => if t.columns[i].primary_key { FkStatus::Valid } else { FkStatus::NotKey },
                }
            },
        }
    }

    /// CREATE TABLE: enumerated types named alone are looked up, foreign keys
    /// must reference a primary key of an existing table.
    pub fn create_table(db: &mut Database, name: String, column_defs: Vec<ColumnDef>) -> (r: Result<QueryResult, DatabaseError>)
        requires
            old(db).wf(),
        ensures
            final(db).wf(),
            r is Err ==> *final(db) == *old(db),
            match first_where(column_defs@, enum_unknown(*old(db))) {
                Some(i) => r matches Err(DatabaseError::ParseError(m))
                    && m@ == unknown_enum_message(enum_name(column_defs@[i].data_type)),
                None => match first_where(column_defs@, fk_broken(*old(db))) {
                    Some(i) => r matches Err(DatabaseError::ForeignKeyViolation(m))
                        && m@ == create_fk_message(column_defs@[i].foreign_key->0,
                            fk_status(*old(db), column_defs@[i].foreign_key->0)),
                    None => if old(db).tables@.contains_key(name@) {
                        r matches Err(DatabaseError::TableAlreadyExists(n)) && n@ == name@
                    } else {
                        let t = final(db).tables@[name@];
                        &&& r matches Ok(QueryResult::Success(m)) && m@ == "Table '"@ + name@ + "' created successfully"@
                        &&& final(db).tables@ == old(db).tables@.insert(name@, t)
                        &&& t.name@ == name@
                        &&& t.rows@.len() == 0
                        &&& t.owner@ == "postgres"@
                        &&& t.columns@.len() == column_defs@.len()
                        &&& forall|i: int| 0 <= i < column_defs@.len()
                            ==> column_of_def(*old(db), column_defs@[i], #[trigger] t.columns@[i])
                        &&& final(db).enums == old(db).enums
                        &&& final(db).indexes == old(db).indexes
                        &&& final(db).views == old(db).views
                    },
                },
            },
    {
        let ghost unknown = enum_unknown(*db);
        let ghost broken = fk_broken(*db);
        let mut columns: Vec<Column> = Vec::new();
        let mut i: usize = 0;
        while i < column_defs.len()
            invariant
                db.wf(),
                unknown == enum_unknown(*db),
                i <= column_defs@.len(),
                columns@.len() == i,
                first_where(column_defs@.take(i as int), unknown) is None,
                forall|j: int| 0 <= j < i ==> column_of_def(*db, column_defs@[j], #[trigger] columns@[j]),
            decreases column_defs@.len() - i,
        {
            proof {
                lemma_first_where_step(column_defs@, unknown, i as int);
            }
            match Self::column_from_def(db, &column_defs[i]) {
                Ok(c) => columns.push(c),
                Err(e) => {
                    proof {
                        lemma_first_where_prefix(column_defs@, unknown, i as int + 1, column_defs@.len() as int);
                        assert(column_defs@.take(column_defs@.len() as int) =~= column_defs@);
                    }
                    return Err(e);
                },
            }
            i = i + 1;
        }
        assert(column_defs@.take(column_defs@.len() as int) =~= column_defs@);
        let mut k: usize = 0;
        while k < column_defs.len()
            invariant
                db.wf(),
                broken == fk_broken(*db),
                unknown == enum_unknown(*db),
                first_where(column_defs@, unknown) is None,
                k <= column_defs@.len(),
                first_where(column_defs@.take(k as int), broken) is None,
            decreases column_defs@.len() - k,
        {
            proof {
                lemma_first_where_step(column_defs@, broken, k as int);
            }
            match &column_defs[k].foreign_key {
                Some(fk) => {
                    let status = Self::check_fk(db, fk);
                    match status {
                        FkStatus::Valid => {},
                        _ => {
                            proof {
                                lemma_first_where_prefix(column_defs@, broken, k as int + 1, column_defs@.len() as int);
                                assert(column_defs@.take(column_defs@.len() as int) =~= column_defs@);
                            }
                            return Err(DatabaseError::ForeignKeyViolation(Self::create_fk_error(fk, status)));
                        },
                    }
                },
                None => {},
            }
            k = k + 1;
        }
        assert(column_defs@.take(column_defs@.len() as int) =~= column_defs@);
        let table = Table::new(name.clone(), columns);
        match db.create_table(table) {
            Ok(()) => {},
            Err(e) => return Err(e),
        }
        let mut out: Vec<char> = Vec::new();
        push_str(&mut out, "Table '");
        push_str(&mut out, name.as_str());
        push_str(&mut out, "' created successfully");
        Ok(QueryResult::Success(string_of(&out)))
    }

    fn create_fk_error(fk: &ForeignKey, s: FkStatus) -> (m: String)
        ensures
            m@ == create_fk_message(*fk, s),
    {
        let mut out: Vec<char> = Vec::new();
        match s {
            FkStatus::NoTable => {
                push_str(&mut out, "Referenced table '");
                push_str(&mut out, fk.referenced_table.as_str());
                push_str(&mut out, "' does not exist");
            },
            FkStatus::NoColumn => {
                push_str(&mut out, "Referenced column '");
                push_str(&mut out, fk.referenced_column.as_str());
                push_str(&mut out, "' does not exist in table '");
                push_str(&mut out, fk.referenced_table.as_str());
                push_str(&mut out, "'");
            },
            _ => {
                push_str(&mut out, "Referenced column '");
                push_str(&mut out, fk.referenced_column.as_str());
                push_str(&mut out, "' must be a primary key");
            },
        }
        string_of(&out)
    }

    fn add_fk_error(fk: &ForeignKey, s: FkStatus) -> (m: String)
        ensures
            m@ == add_fk_message(*fk, s),
    {
        let mut out: Vec<char> = Vec::new();
        match s {
            FkStatus::NoTable => {
                push_str(&mut out, "Referenced table '");
                push_str(&mut out, fk.referenced_table.as_str());
                push_str(&mut out, "' does not exist");
            },
            FkStatus::NoColumn => {
                push_str(&mut out, "Referenced column '");
                push_str(&mut out, fk.referenced_column.as_str());
                push_str(&mut out, "' does not exist");
            },
            _ => {
                push_str(&mut out, "Referenced column must be PRIMARY KEY");
            },
        }
        string_of(&out)
    }

    /// DROP TABLE.
    pub fn drop_table(db: &mut Database, name: String) -> (r: Result<QueryResult, DatabaseError>)
        requires
            old(db).wf(),
        ensures
            final(db).wf(),
            !old(db).tables@.contains_key(name@) ==> *final(db) == *old(db)
                && (r matches Err(DatabaseError::TableNotFound(n)) && n@ == name@),
            old(db).tables@.contains_key(name@) ==> {
                &&& r matches Ok(QueryResult::Success(m)) && m@ == "Table '"@ + name@ + "' dropped successfully"@
                &&& final(db).tables@ == old(db).tables@.remove(name@)
                &&& final(db).table_metadata@ == old(db).table_metadata@.remove(name@)
            },
    {
        match db.drop_table(name.as_str()) {
            Ok(()) => {},
            Err(e) => return Err(e),
        }
        let mut out: Vec<char> = Vec::new();
        push_str(&mut out, "Table '");
        push_str(&mut out, name.as_str());
        push_str(&mut out, "' dropped successfully");
        Ok(QueryResult::Success(string_of(&out)))
    }

    /// SHOW TABLES: one row per table, in the catalog's order.
    pub fn show_tables(db: &Database) -> (r: Result<QueryResult, DatabaseError>)
        ensures
            db.tables.keys().len() == 0 ==> (r matches Ok(QueryResult::Success(m)) && m@ == "No tables found"@),
            db.tables.keys().len() > 0 ==> (r matches Ok(QueryResult::Rows(rows, cols)) && {
                &&& cols@.len() == 1 && cols@[0]@ == "Tables"@
                &&& rows@.len() == db.tables.keys().len()
                &&& forall|i: int| 0 <= i < rows@.len() ==> (#[trigger] rows@[i])@.len() == 1
                    && rows@[i]@[0]@ == db.tables.keys()[i]
            }),
    {
        proof {
            db.tables.lemma_lengths();
        }
        let n = db.tables.len();
        if n == 0 {
            return Ok(QueryResult::Success("No tables found".to_owned()));
        }
        let mut rows: Vec<Vec<String>> = Vec::new();
        let mut i: usize = 0;
        while i < n
            invariant
                n == db.tables.keys().len(),
                i <= n,
                rows@.len() == i,
                forall|j: int| 0 <= j < i ==> (#[trigger] rows@[j])@.len() == 1 && rows@[j]@[0]@ == db.tables.keys()[j],
            decreases n - i,
        {
            let mut row: Vec<String> = Vec::new();
            row.push(db.tables.key_at(i).clone());
            rows.push(row);
            i = i + 1;
        }
        let mut cols: Vec<String> = Vec::new();
        cols.push("Tables".to_owned());
        Ok(QueryResult::Rows(rows, cols))
    }
}

/// The message of a column added twice.
pub open spec fn column_exists_message(col: Seq<char>, table: Seq<char>) -> Seq<char> {
    "Column '"@ + col + "' already exists in table '"@ + table + "'"@
}

/// Every row of table `table` holds a value at the position of column `col`.
pub open spec fn rows_hold_column(db: Database, table: Seq<char>, col: Seq<char>) -> bool {
    db.tables@.contains_key(table) ==> match first_column_named(db.tables@[table].columns@, col) {
        Some(p) => forall|i: int| 0 <= i < db.tables@[table].rows@.len()
            ==> p < (#[trigger] db.tables@[table].rows@[i]).values@.len(),
        None => true,
    }
}

/// `after` is `before` with column `idx` renamed `name`.
pub open spec fn column_renamed(before: Seq<Column>, after: Seq<Column>, idx: int, name: Seq<char>) -> bool {
    &&& after.len() == before.len()
    &&& forall|j: int| 0 <= j < before.len() && j != idx ==> #[trigger] after[j] == before[j]
    &&& after[idx].name@ == name
    &&& after[idx].data_type == before[idx].data_type
    &&& after[idx].nullable == before[idx].nullable
    &&& after[idx].primary_key == before[idx].primary_key
    &&& after[idx].unique == before[idx].unique
    &&& after[idx].foreign_key == before[idx].foreign_key
}

/// Appends a column, and a NULL to every row.
fn append_column(table: &mut Table, col: Column)
    ensures
        table_reshaped(*old(table), *final(table)),
        final(table).columns@ == old(table).columns@.push(col),
        rows_mapped(old(table).rows@, final(table).rows@, null_appended()),
{
    table.columns.push(col);
    let n = table.rows.len();
    let mut i: usize = 0;
    while i < n
        invariant
            n == old(table).rows@.len(),
            table.rows@.len() == n,
            i <= n,
            table_reshaped(*old(table), *table),
            table.columns@ == old(table).columns@.push(col),
            forall|j: int| 0 <= j < n ==> {
                &&& (#[trigger] table.rows@[j]).values@ == if j < i {
                        old(table).rows@[j].values@.push(Value::Null)
                    } else {
                        old(table).rows@[j].values@
                    }
                &&& table.rows@[j].xmin == old(table).rows@[j].xmin
                &&& table.rows@[j].xmax == old(table).rows@[j].xmax
            },
        decreases n - i,
    {
        table.rows[i].values.push(Value::Null);
        i = i + 1;
    }
}

/// Removes column `idx`, and the value at that position from every row.
fn remove_column(table: &mut Table, idx: usize)
    requires
        idx < old(table).columns@.len(),
        forall|i: int| 0 <= i < old(table).rows@.len() ==> idx < (#[trigger] old(table).rows@[i]).values@.len(),
    ensures
        table_reshaped(*old(table), *final(table)),
        final(table).columns@ == old(table).columns@.remove(idx as int),
        rows_mapped(old(table).rows@, final(table).rows@, value_removed(idx as int)),
{
    table.columns.remove(idx);
    let n = table.rows.len();
    let mut i: usize = 0;
    while i < n
        invariant
            n == old(table).rows@.len(),
            table.rows@.len() == n,
            i <= n,
            table_reshaped(*old(table), *table),
            table.columns@ == old(table).columns@.remove(idx as int),
            forall|j: int| 0 <= j < n ==> {
                &&& (#[trigger] table.rows@[j]).values@ == if j < i {
                        old(table).rows@[j].values@.remove(idx as int)
                    } else {
                        old(table).rows@[j].values@
                    }
                &&& table.rows@[j].xmin == old(table).rows@[j].xmin
                &&& table.rows@[j].xmax == old(table).rows@[j].xmax
            },
            forall|j: int| 0 <= j < n ==> idx < (#[trigger] old(table).rows@[j]).values@.len(),
        decreases n - i,
    {
        table.rows[i].values.remove(idx);
        i = i + 1;
    }
}

impl DdlExecutor {
    /// ALTER TABLE.
    pub fn alter_table(db: &mut Database, table_name: String, operation: AlterTableOperation) -> (r: Result<QueryResult, DatabaseError>)
        requires
            old(db).wf(),
            operation matches AlterTableOperation::DropColumn(c) ==> rows_hold_column(*old(db), table_name@, c@),
        ensures
            final(db).wf(),
            r is Err ==> *final(db) == *old(db),
            match operation {
                AlterTableOperation::AddColumn(d) => add_column_outcome(*old(db), *final(db), table_name@, d, r),
                AlterTableOperation::DropColumn(c) => drop_column_outcome(*old(db), *final(db), table_name@, c@, r),
                AlterTableOperation::RenameColumn { old_name, new_name } =>
                    rename_column_outcome(*old(db), *final(db), table_name@, old_name@, new_name@, r),
                AlterTableOperation::RenameTable(n) => rename_table_outcome(*old(db), *final(db), table_name@, n@, r),
            },
    {
        match operation {
            AlterTableOperation::AddColumn(column_def) => Self::alter_table_add_column(db, table_name.as_str(), column_def),
            AlterTableOperation::DropColumn(column_name) => Self::alter_table_drop_column(db, table_name.as_str(), column_name),
            AlterTableOperation::RenameColumn { old_name, new_name } =>
                Self::alter_table_rename_column(db, table_name.as_str(), old_name, new_name),
            AlterTableOperation::RenameTable(new_name) => Self::alter_table_rename_table(db, table_name.as_str(), new_name),
        }
    }

    fn alter_table_add_column(db: &mut Database, table_name: &str, column_def: ColumnDef) -> (r: Result<QueryResult, DatabaseError>)
        requires
            old(db).wf(),
        ensures
            final(db).wf(),
            r is Err ==> *final(db) == *old(db),
            add_column_outcome(*old(db), *final(db), table_name@, column_def, r),
    {
        match db.get_table(table_name) {
            None => return Err(DatabaseError::TableNotFound(table_name.to_owned())),
            Some(table) => {
                if find_column(&table.columns, column_def.name.as_str()).is_some() {
                    let mut out: Vec<char> = Vec::new();
                    push_str(&mut out, "Column '");
                    push_str(&mut out, column_def.name.as_str());
                    push_str(&mut out, "' already exists in table '");
                    push_str(&mut out, table_name);
                    push_str(&mut out, "'");
                    return Err(DatabaseError::ParseError(string_of(&out)));
                }
            },
        }
        let new_column = match Self::column_from_def(db, &column_def) {
            Ok(c) => c,
            Err(e) => return Err(e),
        };
        match &column_def.foreign_key {
            Some(fk) => {
                let status = Self::check_fk(db, fk);
                match status {
                    FkStatus::Valid => {},
                    _ => return Err(DatabaseError::ForeignKeyViolation(Self::add_fk_error(fk, status))),
                }
            },
            None => {},
        }
        let ghost before = *db;
        let ghost col = new_column;
        match db.get_table_mut(table_name) {
            Some(table) => append_column(table, new_column),
            None => {},
        }
        proof {
            let t = before.tables@[table_name@];
            let t2 = db.tables@[table_name@];
            assert(t2.columns@ == t.columns@.push(col));
            assert(t2.columns@.drop_last() =~= t.columns@);
            assert(t2.columns@.last() == col);
        }
        let mut out: Vec<char> = Vec::new();
        push_str(&mut out, "Column '");
        push_str(&mut out, column_def.name.as_str());
        push_str(&mut out, "' added to table '");
        push_str(&mut out, table_name);
        push_str(&mut out, "'");
        Ok(QueryResult::Success(string_of(&out)))
    }

    fn alter_table_drop_column(db: &mut Database, table_name: &str, column_name: String) -> (r: Result<QueryResult, DatabaseError>)
        requires
            old(db).wf(),
            rows_hold_column(*old(db), table_name@, column_name@),
        ensures
            final(db).wf(),
            r is Err ==> *final(db) == *old(db),
            drop_column_outcome(*old(db), *final(db), table_name@, column_name@, r),
    {
        let col_idx = match db.get_table(table_name) {
            None => return Err(DatabaseError::TableNotFound(table_name.to_owned())),
            Some(table) => {
                match find_column(&table.columns, column_name.as_str()) {
                    None => {
                        let mut out: Vec<char> = Vec::new();
                        push_str(&mut out, "Column '");
                        push_str(&mut out, column_name.as_str());
                        push_str(&mut out, "' not found in table '");
                        push_str(&mut out, table_name);
                        push_str(&mut out, "'");
                        return Err(DatabaseError::ParseError(string_of(&out)));
                    },
                    Some(i) => {
                        if table.columns[i].primary_key {
                            return Err(DatabaseError::ParseError("Cannot drop PRIMARY KEY column".to_owned()));
                        }
                        i
                    },
                }
            },
        };
        match db.get_table_mut(table_name) {
            Some(table) => remove_column(table, col_idx),
            None => {},
        }
        let mut out: Vec<char> = Vec::new();
        push_str(&mut out, "Column '");
        push_str(&mut out, column_name.as_str());
        push_str(&mut out, "' dropped from table '");
        push_str(&mut out, table_name);
        push_str(&mut out, "'");
        Ok(QueryResult::Success(string_of(&out)))
    }

    fn alter_table_rename_column(db: &mut Database, table_name: &str, old_name: String, new_name: String)
        -> (r: Result<QueryResult, DatabaseError>)
        requires
            old(db).wf(),
        ensures
            final(db).wf(),
            r is Err ==> *final(db) == *old(db),
            rename_column_outcome(*old(db), *final(db), table_name@, old_name@, new_name@, r),
    {
        let col_idx = match db.get_table(table_name) {
            None => return Err(DatabaseError::TableNotFound(table_name.to_owned())),
            Some(table) => {
                match find_column(&table.columns, old_name.as_str()) {
                    None => {
                        let mut out: Vec<char> = Vec::new();
                        push_str(&mut out, "Column '");
                        push_str(&mut out, old_name.as_str());
                        push_str(&mut out, "' not found");
                        return Err(DatabaseError::ParseError(string_of(&out)));
                    },
                    Some(i) => {
                        if find_column(&table.columns, new_name.as_str()).is_some() {
                            let mut out: Vec<char> = Vec::new();
                            push_str(&mut out, "Column '");
                            push_str(&mut out, new_name.as_str());
                            push_str(&mut out, "' already exists");
                            return Err(DatabaseError::ParseError(string_of(&out)));
                        }
                        i
                    },
                }
            },
        };
        match db.get_table_mut(table_name) {
            Some(table) => {
                table.columns[col_idx].name = new_name.clone();
            },
            None => {},
        }
        let mut out: Vec<char> = Vec::new();
        push_str(&mut out, "Column '");
        push_str(&mut out, old_name.as_str());
        push_str(&mut out, "' renamed to '");
        push_str(&mut out, new_name.as_str());
        push_str(&mut out, "'");
        Ok(QueryResult::Success(string_of(&out)))
    }

    fn alter_table_rename_table(db: &mut Database, old_name: &str, new_name: String) -> (r: Result<QueryResult, DatabaseError>)
        requires
            old(db).wf(),
        ensures
            final(db).wf(),
            r is Err ==> *final(db) == *old(db),
            rename_table_outcome(*old(db), *final(db), old_name@, new_name@, r),
    {
        if db.tables.contains_key(new_name.as_str()) {
            return Err(DatabaseError::TableAlreadyExists(new_name));
        }
        let mut table = match db.tables.remove(old_name) {
            Some(t) => t,
            None => return Err(DatabaseError::TableNotFound(old_name.to_owned())),
        };
        table.name = new_name.clone();
        db.tables.insert(new_name.clone(), table);
        let mut out: Vec<char> = Vec::new();
        push_str(&mut out, "Table '");
        push_str(&mut out, old_name);
        push_str(&mut out, "' renamed to '");
        push_str(&mut out, new_name.as_str());
        push_str(&mut out, "'");
        Ok(QueryResult::Success(string_of(&out)))
    }
}

/// What ADD COLUMN comes to.
pub open spec fn add_column_outcome(before: Database, after: Database, table: Seq<char>, d: ColumnDef,
    r: Result<QueryResult, DatabaseError>) -> bool {
    if !before.tables@.contains_key(table) {
        r matches Err(DatabaseError::TableNotFound(n)) && n@ == table
    } else if first_column_named(before.tables@[table].columns@, d.name@) is Some {
        r matches Err(DatabaseError::ParseError(m)) && m@ == column_exists_message(d.name@, table)
    } else if enum_unknown(before)(d) {
        r matches Err(DatabaseError::ParseError(m)) && m@ == unknown_enum_message(enum_name(d.data_type))
    } else if fk_broken(before)(d) {
        r matches Err(DatabaseError::ForeignKeyViolation(m))
            && m@ == add_fk_message(d.foreign_key->0, fk_status(before, d.foreign_key->0))
    } else {
        let t = before.tables@[table];
        let t2 = after.tables@[table];
        &&& r matches Ok(QueryResult::Success(m)) && m@ == "Column '"@ + d.name@ + "' added to table '"@ + table + "'"@
        &&& only_table_changed(before, after, table)
        &&& table_reshaped(t, t2)
        &&& t2.columns@.len() == t.columns@.len() + 1
        &&& t2.columns@.drop_last() == t.columns@
        &&& column_of_def(before, d, t2.columns@.last())
        &&& rows_mapped(t.rows@, t2.rows@, null_appended())
    }
}

/// ADD COLUMN keeps rows as wide as the columns: on a table whose every row
/// holds one value per column, a successful ADD COLUMN leaves every row one
/// value wider, its old values first and NULL last, and the table one column
/// wider; a refused one changes nothing.
pub proof fn law_add_column_widens_rows(before: Database, after: Database, table: Seq<char>, d: ColumnDef,
    r: Result<QueryResult, DatabaseError>)
    requires
        add_column_outcome(before, after, table, d, r),
        r is Err ==> after == before,
        before.tables@.contains_key(table),
        forall|i: int| 0 <= i < before.tables@[table].rows@.len()
            ==> (#[trigger] before.tables@[table].rows@[i]).values@.len() == before.tables@[table].columns@.len(),
    ensures
        r is Ok ==> {
            let t = before.tables@[table];
            let t2 = after.tables@[table];
            &&& t2.columns@.len() == t.columns@.len() + 1
            &&& t2.rows@.len() == t.rows@.len()
            &&& forall|i: int| 0 <= i < t2.rows@.len() ==> {
                &&& (#[trigger] t2.rows@[i]).values@.len() == t2.columns@.len()
                &&& t2.rows@[i].values@.drop_last() == t.rows@[i].values@
                &&& t2.rows@[i].values@.last() == Value::Null
            }
        },
        r is Err ==> after == before,
{
    if r is Ok {
        let t = before.tables@[table];
        let t2 = after.tables@[table];
        assert forall|i: int| 0 <= i < t2.rows@.len() implies {
            &&& (#[trigger] t2.rows@[i]).values@.len() == t2.columns@.len()
            &&& t2.rows@[i].values@.drop_last() == t.rows@[i].values@
            &&& t2.rows@[i].values@.last() == Value::Null
        } by {
            assert(t2.rows@[i].values@ == t.rows@[i].values@.push(Value::Null));
            assert(t.rows@[i].values@.push(Value::Null).drop_last() =~= t.rows@[i].values@);
        }
    }
}

/// What DROP COLUMN comes to.
pub open spec fn drop_column_outcome(before: Database, after: Database, table: Seq<char>, col: Seq<char>,
    r: Result<QueryResult, DatabaseError>) -> bool {
    if !before.tables@.contains_key(table) {
        r matches Err(DatabaseError::TableNotFound(n)) && n@ == table
    } else {
        let t = before.tables@[table];
        match first_column_named(t.columns@, col) {
            None => r matches Err(DatabaseError::ParseError(m))
                && m@ == "Column '"@ + col + "' not found in table '"@ + table + "'"@,
            Some(i) => if t.columns@[i].primary_key {
                r matches Err(DatabaseError::ParseError(m)) && m@ == "Cannot drop PRIMARY KEY column"@
            } else {
                let t2 = after.tables@[table];
                &&& r matches Ok(QueryResult::Success(m)) && m@ == "Column '"@ + col + "' dropped from table '"@ + table + "'"@
                &&& only_table_changed(before, after, table)
                &&& table_reshaped(t, t2)
                &&& t2.columns@ == t.columns@.remove(i)
                &&& rows_mapped(t.rows@, t2.rows@, value_removed(i))
            },
        }
    }
}

/// What RENAME COLUMN comes to.
pub open spec fn rename_column_outcome(before: Database, after: Database, table: Seq<char>, old_name: Seq<char>,
    new_name: Seq<char>, r: Result<QueryResult, DatabaseError>) -> bool {
    if !before.tables@.contains_key(table) {
        r matches Err(DatabaseError::TableNotFound(n)) && n@ == table
    } else {
        let t = before.tables@[table];
        match first_column_named(t.columns@, old_name) {
            None => r matches Err(DatabaseError::ParseError(m)) && m@ == "Column '"@ + old_name + "' not found"@,
            Some(i) => if first_column_named(t.columns@, new_name) is Some {
                r matches Err(DatabaseError::ParseError(m)) && m@ == "Column '"@ + new_name + "' already exists"@
            } else {
                let t2 = after.tables@[table];
                &&& r matches Ok(QueryResult::Success(m)) && m@ == "Column '"@ + old_name + "' renamed to '"@ + new_name + "'"@
                &&& only_table_changed(before, after, table)
                &&& table_reshaped(t, t2)
                &&& t2.rows == t.rows
                &&& column_renamed(t.columns@, t2.columns@, i, new_name)
            },
        }
    }
}

/// What RENAME TO comes to.
pub open spec fn rename_table_outcome(before: Database, after: Database, old_name: Seq<char>, new_name: Seq<char>,
    r: Result<QueryResult, DatabaseError>) -> bool {
    if before.tables@.contains_key(new_name) {
        r matches Err(DatabaseError::TableAlreadyExists(n)) && n@ == new_name
    } else if !before.tables@.contains_key(old_name) {
        r matches Err(DatabaseError::TableNotFound(n)) && n@ == old_name
    } else {
        let t = before.tables@[old_name];
        let t2 = after.tables@[new_name];
        &&& r matches Ok(QueryResult::Success(m)) && m@ == "Table '"@ + old_name + "' renamed to '"@ + new_name + "'"@
        &&& after.tables@ == before.tables@.remove(old_name).insert(new_name, t2)
        &&& t2.name@ == new_name
        &&& t2.columns == t.columns
        &&& t2.rows == t.rows
        &&& t2.sequences == t.sequences
        &&& t2.owner == t.owner
        &&& after.table_metadata == before.table_metadata
        &&& after.indexes == before.indexes
        &&& after.enums == before.enums
        &&& after.views == before.views
        &&& after.name == before.name
    }
}

} // verus!
