//! The system functions SELECT understands: version(), current_database(),
//! pg_table_size(), current_user, current_schema(), pg_backend_pid() and
//! pg_encoding_to_char().

use vstd::prelude::*;
use crate::catalog::data_type::DataType;
use crate::catalog::database::Database;
use crate::catalog::error::DatabaseError;
use crate::catalog::table::Table;
use crate::catalog::column::Column;
use crate::text::{chars_of, decimal, fmt_usize, push_str, str_equal, string_of};

verus! {

/// The lowercase form of a text, as `str::to_lowercase` computes it.
pub uninterp spec fn lowercase_of(s: Seq<char>) -> Seq<char>;

/// The ASCII lowercase form of a character.
pub open spec fn ascii_lower(c: char) -> char {
    if 'A' <= c && c <= 'Z' { ((c as u32) + 32) as char } else { c }
}

/// Trusted: `str::to_lowercase`. Its result is named `lowercase_of`; for an
/// ASCII text, std documents the mapping of each character to its lowercase
/// form, which for ASCII letters is the ASCII one. What it does to other
/// characters (Unicode case mapping) is left to the name.
#[verifier::external_body]
fn lowercase(s: &str) -> (r: String)
    ensures
        r@ == lowercase_of(s@),
        (forall|i: int| 0 <= i < s@.len() ==> (s@[i] as u32) < 128) ==>
            r@ == s@.map_values(|c: char| ascii_lower(c)),
{
    s.to_lowercase()
}

/// The names of the system functions, in lowercase.
pub open spec fn system_function_name(n: Seq<char>) -> bool {
    ||| n == "version"@
    ||| n == "current_database"@
    ||| n == "pg_table_size"@
    ||| n == "current_user"@
    ||| n == "current_schema"@
    ||| n == "pg_backend_pid"@
    ||| n == "pg_encoding_to_char"@
}

/// The estimated size of one value of a column type, in bytes.
pub open spec fn type_size(t: DataType) -> nat {
    match t {
        DataType::Boolean => 1,
        DataType::SmallInt => 2,
        DataType::Integer => 4,
        DataType::Serial => 4,
        DataType::BigSerial => 8,
        DataType::Real => 4,
        DataType::Numeric { .. } => 16,
        DataType::Text => 50,
        DataType::Varchar { max_length } => max_length as nat,
        DataType::Char { length } => length as nat,
        DataType::Date => 4,
        DataType::Timestamp => 8,
        DataType::TimestampTz => 8,
        DataType::Uuid => 16,
        DataType::Json => 100,
        DataType::Jsonb => 100,
        DataType::Bytea => 50,
        DataType::Enum { .. } => 4,
    }
}

/// The estimated size of the values of the first `n` columns.
pub open spec fn columns_size(cols: Seq<Column>, n: nat) -> nat
    decreases n,
{
    if n == 0 { 0 } else { columns_size(cols, (n - 1) as nat) + type_size(cols[n - 1].data_type) }
}

/// The estimated size of a row: its values and 24 bytes of header.
pub open spec fn row_size(t: Table) -> nat {
    columns_size(t.columns@, t.columns@.len()) + 24
}

/// `s` without the characters `c` at either end.
pub open spec fn trimmed(s: Seq<char>, c: char) -> Seq<char>
    decreases s.len(),
{
    if s.len() > 0 && s[0] == c {
        trimmed(s.drop_first(), c)
    } else if s.len() > 0 && s.last() == c {
        trimmed(s.drop_last(), c)
    } else {
        s
    }
}

/// The estimated size of a table in bytes. `pages` tells what page storage
/// holds: nothing (`None`), not this table (`Some(None)`), or this many pages.
pub open spec fn table_size(t: Table, pages: Option<Option<u64>>) -> nat {
    match pages {
        Some(Some(p)) => p as nat * 8192,
        Some(None) => 100 * row_size(t),
        None => if t.rows@.len() > 0 { t.rows@.len() * row_size(t) } else { 100 * row_size(t) },
    }
}

/// The version string on operating system `os` and architecture `arch`.
pub open spec fn version_text(os: Seq<char>, arch: Seq<char>) -> Seq<char> {
    "RustDB 2.0.0 on "@ + os + "-"@ + arch + ", Rust/LLVM"@
}

/// What the process knows of its host.
pub struct HostInfo {
    pub os: String,
    pub arch: String,
    pub pid: u32,
}

/// Evaluates system functions.
pub struct SystemFunctions;

impl SystemFunctions {
    /// Whether `name`, in any case, names a system function.
    pub fn is_system_function(name: &str) -> (b: bool)
        ensures
            b == system_function_name(lowercase_of(name@)),
    {
        let lower = lowercase(name);
        let l = lower.as_str();
        str_equal(l, "version")
            || str_equal(l, "current_database")
            || str_equal(l, "pg_table_size")
            || str_equal(l, "current_user")
            || str_equal(l, "current_schema")
            || str_equal(l, "pg_backend_pid")
            || str_equal(l, "pg_encoding_to_char")
    }

    /// The version string on the given host.
    pub fn version(host: &HostInfo) -> (s: String)
        ensures
            s@ == version_text(host.os@, host.arch@),
    {
        let mut out: Vec<char> = Vec::new();
        push_str(&mut out, "RustDB 2.0.0 on ");
        push_str(&mut out, host.os.as_str());
        push_str(&mut out, "-");
        push_str(&mut out, host.arch.as_str());
        push_str(&mut out, ", Rust/LLVM");
        string_of(&out)
    }

    /// The estimated size of a row of `table`.
    pub fn estimate_row_size(table: &Table) -> (n: usize)
        requires
            row_size(*table) <= usize::MAX,
        ensures
            n == row_size(*table),
    {
        let mut size: usize = 0;
        let mut i: usize = 0;
        proof {
            Self::lemma_columns_size_grows(table.columns@, table.columns@.len());
        }
        while i < table.columns.len()
            invariant
                i <= table.columns@.len(),
                size == columns_size(table.columns@, i as nat),
                row_size(*table) <= usize::MAX,
                forall|k: nat| k <= table.columns@.len() ==> #[trigger] columns_size(table.columns@, k) <= columns_size(table.columns@, table.columns@.len()),
            decreases table.columns@.len() - i,
        {
            let add: usize = match &table.columns[i].data_type {
                DataType::Boolean => 1,
                DataType::SmallInt => 2,
                DataType::Integer => 4,
                DataType::Serial => 4,
                DataType::BigSerial => 8,
                DataType::Real => 4,
                DataType::Numeric { .. } => 16,
                DataType::Text => 50,
                DataType::Varchar { max_length } => *max_length,
                DataType::Char { length } => *length,
                DataType::Date => 4,
                DataType::Timestamp => 8,
                DataType::TimestampTz => 8,
                DataType::Uuid => 16,
                DataType::Json => 100,
                DataType::Jsonb => 100,
                DataType::Bytea => 50,
                DataType::Enum { .. } => 4,
            };
            assert(columns_size(table.columns@, i as nat + 1) <= columns_size(table.columns@, table.columns@.len()));
            size = size + add;
            i = i + 1;
        }
        size + 24
    }

    proof fn lemma_columns_size_grows(cols: Seq<Column>, n: nat)
        ensures
            forall|k: nat| k <= n ==> #[trigger] columns_size(cols, k) <= columns_size(cols, n),
        decreases n,
    {
        if n > 0 {
            Self::lemma_columns_size_grows(cols, (n - 1) as nat);
        }
    }

    /// The estimated size of a table of a hundred rows.
    pub fn estimate_size_from_schema(table: &Table) -> (n: usize)
        requires
            100 * row_size(*table) <= usize::MAX,
        ensures
            n == 100 * row_size(*table),
    {
        let avg = Self::estimate_row_size(table);
        100 * avg
    }

    /// `s` without `c` at either end.
    fn trim_char(s: &str, c: char) -> (r: String)
        ensures
            r@ == trimmed(s@, c),
    {
        let cs = chars_of(s);
        let mut lo: usize = 0;
        let mut hi: usize = cs.len();
        assert(cs@.subrange(0, cs@.len() as int) =~= cs@);
        while lo < hi && cs[lo] == c
            invariant
                lo <= hi <= cs@.len(),
                hi == cs@.len(),
                cs@ == s@,
                trimmed(cs@.subrange(lo as int, hi as int), c) == trimmed(s@, c),
            decreases hi - lo,
        {
            assert(cs@.subrange(lo as int, hi as int).drop_first() =~= cs@.subrange(lo as int + 1, hi as int));
            lo = lo + 1;
        }
        while lo < hi && cs[hi - 1] == c
            invariant
                lo <= hi <= cs@.len(),
                cs@ == s@,
                lo < hi ==> cs@[lo as int] != c,
                trimmed(cs@.subrange(lo as int, hi as int), c) == trimmed(s@, c),
            decreases hi - lo,
        {
            assert(cs@.subrange(lo as int, hi as int).drop_last() =~= cs@.subrange(lo as int, hi as int - 1));
            hi = hi - 1;
        }
        let mut out: Vec<char> = Vec::new();
        let mut k: usize = lo;
        while k < hi
            invariant
                lo <= k <= hi <= cs@.len(),
                out@ == cs@.subrange(lo as int, k as int),
            decreases hi - k,
        {
            out.push(cs[k]);
            assert(out@ =~= cs@.subrange(lo as int, k as int + 1));
            k = k + 1;
        }
        string_of(&out)
    }

    /// pg_table_size(table_name): quotes around the name are dropped; `pages`
    /// tells what page storage holds (see `table_size`).
    pub fn pg_table_size(table_name: &str, db: &Database, pages: Option<Option<u64>>) -> (r: Result<String, DatabaseError>)
        requires
            db.wf(),
            forall|t: Table| db.tables@.values().contains(t) ==> table_size(t, pages) <= usize::MAX && 100 * row_size(t) <= usize::MAX,
        ensures
            ({
                let name = trimmed(trimmed(table_name@, '\''), '"');
                &&& !db.tables@.contains_key(name) ==> (r matches Err(DatabaseError::TableNotFound(n)) && n@ == name)
                &&& db.tables@.contains_key(name) ==> (r matches Ok(s) && s@ == decimal(table_size(db.tables@[name], pages)))
            }),
    {
        let once = Self::trim_char(table_name, '\'');
        let name = Self::trim_char(once.as_str(), '"');
        let table = match db.get_table(name.as_str()) {
            Some(t) => t,
            None => return Err(DatabaseError::TableNotFound(name)),
        };
        assert(db.tables@.values().contains(*table));
        let size: usize = match pages {
            Some(Some(p)) => (p as usize) * 8192,
            Some(None) => Self::estimate_size_from_schema(table),
            None => {
                let row_count = table.rows.len();
                if row_count > 0 {
                    proof {
                        assert(row_size(*table) <= table_size(*table, pages)) by (nonlinear_arith)
                            requires table_size(*table, pages) == row_count * row_size(*table), row_count >= 1;
                    }
                    let avg = Self::estimate_row_size(table);
                    row_count * avg
                } else {
                    Self::estimate_size_from_schema(table)
                }
            },
        };
        Ok(fmt_usize(size))
    }

    /// Evaluates the system function `name` (in any case) with arguments `args`.
    pub fn evaluate(name: &str, args: &Vec<String>, db: &Database, pages: Option<Option<u64>>, host: &HostInfo)
        -> (r: Result<String, DatabaseError>)
        requires
            db.wf(),
            forall|t: Table| db.tables@.values().contains(t) ==> table_size(t, pages) <= usize::MAX && 100 * row_size(t) <= usize::MAX,
        ensures
            ({
                let n = lowercase_of(name@);
                if n == "version"@ {
                    r matches Ok(s) && s@ == version_text(host.os@, host.arch@)
                } else if n == "current_database"@ {
                    r matches Ok(s) && s@ == db.name@
                } else if n == "current_schema"@ {
                    r matches Ok(s) && s@ == "public"@
                } else if n == "current_user"@ {
                    r matches Ok(s) && s@ == "rustdb"@
                } else if n == "pg_backend_pid"@ {
                    r matches Ok(s) && s@ == decimal(host.pid as nat)
                } else if n == "pg_encoding_to_char"@ {
                    r matches Ok(s) && s@ == "UTF8"@
                } else if n == "pg_table_size"@ {
                    if args@.len() == 0 {
                        r matches Err(DatabaseError::ParseError(m)) && m@ == "pg_table_size() requires table name argument"@
                    } else {
                        let t = trimmed(trimmed(args@[0]@, '\''), '"');
                        &&& !db.tables@.contains_key(t) ==> (r matches Err(DatabaseError::TableNotFound(x)) && x@ == t)
                        &&& db.tables@.contains_key(t) ==> (r matches Ok(s) && s@ == decimal(table_size(db.tables@[t], pages)))
                    }
                } else {
                    r matches Err(DatabaseError::ParseError(m)) && m@ == "Unknown system function: "@ + name@
                }
            }),
    {
        let lower = lowercase(name);
        let l = lower.as_str();
        if str_equal(l, "version") {
            Ok(Self::version(host))
        } else if str_equal(l, "current_database") {
            Ok(db.name.clone())
        } else if str_equal(l, "current_schema") {
            Ok("public".to_owned())
        } else if str_equal(l, "current_user") {
            Ok("rustdb".to_owned())
        } else if str_equal(l, "pg_backend_pid") {
            Ok(fmt_usize(host.pid as usize))
        } else if str_equal(l, "pg_encoding_to_char") {
            Ok("UTF8".to_owned())
        } else if str_equal(l, "pg_table_size") {
            if args.len() == 0 {
                return Err(DatabaseError::ParseError("pg_table_size() requires table name argument".to_owned()));
            }
            Self::pg_table_size(args[0].as_str(), db, pages)
        } else {
            let mut out: Vec<char> = Vec::new();
            push_str(&mut out, "Unknown system function: ");
            push_str(&mut out, name);
            Err(DatabaseError::ParseError(string_of(&out)))
        }
    }
}

} // verus!
