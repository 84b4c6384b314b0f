//! WHERE conditions and their evaluation against a row.

use vstd::prelude::*;
use crate::catalog::column::{Column, find_column, first_column_named};
use crate::catalog::error::DatabaseError;
use crate::catalog::row::Row;
use crate::catalog::table::Table;
use crate::catalog::value::{Value, real_less, real_lt, value_eq};
use crate::text::{chars_less, chars_lt, chars_of, push_str, string_of};

verus! {

/// A WHERE condition.
#[derive(Debug)]
pub enum Condition {
    Equals(String, Value),
    NotEquals(String, Value),
    GreaterThan(String, Value),
    LessThan(String, Value),
    GreaterThanOrEqual(String, Value),
    LessThanOrEqual(String, Value),
    /// Column BETWEEN low AND high, both ends included.
    Between(String, Value, Value),
    /// Column LIKE pattern: `%` matches any run of characters, `_` any one character.
    Like(String, String),
    In(String, Vec<Value>),
    IsNull(String),
    IsNotNull(String),
    And(Box<Condition>, Box<Condition>),
    Or(Box<Condition>, Box<Condition>),
}

/// What evaluating a condition comes to.
pub ghost enum Outcome {
    /// The condition is true or false of the row.
    Holds(bool),
    /// The condition names a column the table lacks.
    UnknownColumn(Seq<char>),
    /// A comparison between values of types that do not compare.
    Mismatch,
}

/// `a > b`, when the two values compare: integers of either width with each
/// other, doubles, and texts (by code point); `None` for any other pair.
pub open spec fn greater(a: Value, b: Value) -> Option<bool> {
    match (a, b) {
        (Value::Integer(x), Value::Integer(y)) => Some(x > y),
        (Value::SmallInt(x), Value::SmallInt(y)) => Some(x > y),
        (Value::Real(x), Value::Real(y)) => Some(real_lt(y.bits, x.bits)),
        (Value::Text(x), Value::Text(y)) => Some(chars_less(y@, x@)),
        (Value::Integer(x), Value::SmallInt(y)) => Some(x > y),
        (Value::SmallInt(x), Value::Integer(y)) => Some(x > y),
        _ => None,
    }
}

/// `a < b`, when the two values compare (as for `greater`).
pub open spec fn less(a: Value, b: Value) -> Option<bool> {
    match (a, b) {
        (Value::Integer(x), Value::Integer(y)) => Some(x < y),
        (Value::SmallInt(x), Value::SmallInt(y)) => Some(x < y),
        (Value::Real(x), Value::Real(y)) => Some(real_lt(x.bits, y.bits)),
        (Value::Text(x), Value::Text(y)) => Some(chars_less(x@, y@)),
        (Value::Integer(x), Value::SmallInt(y)) => Some(x < y),
        (Value::SmallInt(x), Value::Integer(y)) => Some(x < y),
        _ => None,
    }
}

/// SQL LIKE: `%` matches any run of characters (possibly empty), `_` exactly one.
pub open spec fn like(text: Seq<char>, pattern: Seq<char>) -> bool
    decreases pattern.len(), text.len(),
{
    if pattern.len() == 0 {
        text.len() == 0
    } else if pattern[0] == '%' {
        like(text, pattern.drop_first()) || (text.len() > 0 && like(text.drop_first(), pattern))
    } else if text.len() == 0 {
        false
    } else if pattern[0] == '_' {
        like(text.drop_first(), pattern.drop_first())
    } else {
        text[0] == pattern[0] && like(text.drop_first(), pattern.drop_first())
    }
}

/// LIKE without `%`: a text matches a pattern holding no `%` only when it has
/// exactly as many characters as the pattern (each `_` stands for exactly one
/// character) and agrees with the pattern wherever the pattern holds a
/// character other than `_`.
pub proof fn law_like_without_percent(text: Seq<char>, pattern: Seq<char>)
    requires
        like(text, pattern),
        !pattern.contains('%'),
    ensures
        text.len() == pattern.len(),
        forall|i: int| 0 <= i < pattern.len() && pattern[i] != '_' ==> text[i] == pattern[i],
    decreases pattern.len(),
{
    if pattern.len() > 0 {
        assert(pattern[0] != '%');
        let p1 = pattern.drop_first();
        let t1 = text.drop_first();
        assert(!p1.contains('%')) by {
            if p1.contains('%') {
                let j = choose|j: int| 0 <= j < p1.len() && p1[j] == '%';
                assert(pattern[j + 1] == '%');
            }
        }
        law_like_without_percent(t1, p1);
        assert forall|i: int| 0 <= i < pattern.len() && pattern[i] != '_' implies text[i] == pattern[i] by {
            if i > 0 {
                assert(pattern[i] == p1[i - 1]);
                assert(text[i] == t1[i - 1]);
            }
        }
    }
}

/// The value in column position `i` of the row.
pub open spec fn cell(vals: Seq<Value>, i: int) -> Value {
    vals[i]
}

/// The column a comparison reads.
pub open spec fn leaf_column(c: Condition) -> Seq<char> {
    match c {
        Condition::Equals(n, _) => n@,
        Condition::NotEquals(n, _) => n@,
        Condition::GreaterThan(n, _) => n@,
        Condition::LessThan(n, _) => n@,
        Condition::GreaterThanOrEqual(n, _) => n@,
        Condition::LessThanOrEqual(n, _) => n@,
        Condition::Between(n, _, _) => n@,
        Condition::Like(n, _) => n@,
        Condition::In(n, _) => n@,
        Condition::IsNull(n) => n@,
        Condition::IsNotNull(n) => n@,
        Condition::And(_, _) => Seq::empty(),
        Condition::Or(_, _) => Seq::empty(),
    }
}

/// What a comparison comes to for the value `v` of the column it reads.
#[verifier::opaque]
pub open spec fn leaf_outcome(v: Value, c: Condition) -> Outcome {
    match c {
        Condition::Equals(_, x) => Outcome::Holds(value_eq(v, x)),
        Condition::NotEquals(_, x) => Outcome::Holds(!value_eq(v, x)),
        Condition::GreaterThan(_, x) => match greater(v, x) {
            Some(b) => Outcome::Holds(b),
            None => Outcome::Mismatch,
        },
        Condition::LessThan(_, x) => match less(v, x) {
            Some(b) => Outcome::Holds(b),
            None => Outcome::Mismatch,
        },
        Condition::GreaterThanOrEqual(_, x) => match greater(v, x) {
            Some(b) => Outcome::Holds(b || value_eq(v, x)),
            None => Outcome::Mismatch,
        },
        Condition::LessThanOrEqual(_, x) => match less(v, x) {
            Some(b) => Outcome::Holds(b || value_eq(v, x)),
            None => Outcome::Mismatch,
        },
        Condition::Between(_, lo, hi) => match (greater(v, lo), less(v, hi)) {
            (Some(g), Some(l)) => Outcome::Holds((g || value_eq(v, lo)) && (l || value_eq(v, hi))),
            _ => Outcome::Mismatch,
        },
        Condition::Like(_, p) => match v {
            Value::Text(t) => Outcome::Holds(like(t@, p@)),
            Value::Null => Outcome::Holds(false),
            _ => Outcome::Mismatch,
        },
        Condition::In(_, xs) => Outcome::Holds(exists|j: int| 0 <= j < xs@.len() && value_eq(#[trigger] xs@[j], v)),
        Condition::IsNull(_) => Outcome::Holds(v is Null),
        Condition::IsNotNull(_) => Outcome::Holds(!(v is Null)),
        Condition::And(_, _) => Outcome::Mismatch,
        Condition::Or(_, _) => Outcome::Mismatch,
    }
}

/// What a comparison comes to for a row: unknown column, or the outcome for
/// the value of the first column of that name.
pub open spec fn eval_leaf(cols: Seq<Column>, vals: Seq<Value>, c: Condition) -> Outcome {
    match first_column_named(cols, leaf_column(c)) {
        None => Outcome::UnknownColumn(leaf_column(c)),
        Some(i) => leaf_outcome(vals[i], c),
    }
}

/// What a condition comes to for a row: both sides of AND and OR are always
/// evaluated, the left first, and the first failure is the outcome.
pub open spec fn eval_cond(cols: Seq<Column>, vals: Seq<Value>, c: Condition) -> Outcome
    decreases c,
{
    match c {
        Condition::And(l, r) => match eval_cond(cols, vals, *l) {
            Outcome::Holds(a) => match eval_cond(cols, vals, *r) {
                Outcome::Holds(b) => Outcome::Holds(a && b),
                other => other,
            },
            other => other,
        },
        Condition::Or(l, r) => match eval_cond(cols, vals, *l) {
            Outcome::Holds(a) => match eval_cond(cols, vals, *r) {
                Outcome::Holds(b) => Outcome::Holds(a || b),
                other => other,
            },
            other => other,
        },
        _ => eval_leaf(cols, vals, c),
    }
}

/// Every column the evaluation reads lies within the row.
pub open spec fn reads_in_row(cols: Seq<Column>, vals: Seq<Value>, c: Condition) -> bool
    decreases c,
{
    match c {
        Condition::And(l, r) => reads_in_row(cols, vals, *l)
            && (eval_cond(cols, vals, *l) is Holds ==> reads_in_row(cols, vals, *r)),
        Condition::Or(l, r) => reads_in_row(cols, vals, *l)
            && (eval_cond(cols, vals, *l) is Holds ==> reads_in_row(cols, vals, *r)),
        _ => match first_column_named(cols, leaf_column(c)) {
            Some(i) => i < vals.len(),
            None => true,
        },
    }
}

/// The message of an unknown column.
pub open spec fn unknown_column_message(name: Seq<char>) -> Seq<char> {
    "Unknown column: "@ + name
}

/// The error for an unknown column.
pub fn unknown_column(name: &str) -> (e: DatabaseError)
    ensures
        e matches DatabaseError::ParseError(m) && m@ == unknown_column_message(name@),
{
    let mut out: Vec<char> = Vec::new();
    push_str(&mut out, "Unknown column: ");
    push_str(&mut out, name);
    DatabaseError::ParseError(string_of(&out))
}

/// What an evaluation result says of an outcome.
pub open spec fn reports(r: Result<bool, DatabaseError>, o: Outcome) -> bool {
    match o {
        Outcome::Holds(b) => r == Ok::<bool, DatabaseError>(b),
        Outcome::UnknownColumn(n) => r matches Err(DatabaseError::ParseError(m)) && m@ == unknown_column_message(n),
        Outcome::Mismatch => r == Err::<bool, DatabaseError>(DatabaseError::TypeMismatch),
    }
}

/// Evaluates WHERE conditions.
pub struct ConditionEvaluator;

impl ConditionEvaluator {
    /// Evaluates `condition` against `row`, reading columns by the table's definitions.
    pub fn evaluate(table: &Table, row: &Row, condition: &Condition) -> (r: Result<bool, DatabaseError>)
        requires
            reads_in_row(table.columns@, row.values@, *condition),
        ensures
            reports(r, eval_cond(table.columns@, row.values@, *condition)),
    {
        Self::evaluate_with_columns(&table.columns, row, condition)
    }

    /// Evaluates `condition` against `row`, whose values follow `columns`.
    pub fn evaluate_with_columns(columns: &Vec<Column>, row: &Row, condition: &Condition) -> (r: Result<bool, DatabaseError>)
        requires
            reads_in_row(columns@, row.values@, *condition),
        ensures
            reports(r, eval_cond(columns@, row.values@, *condition)),
        decreases condition,
    {
        match condition {
            Condition::And(left, right) => {
                match Self::evaluate_with_columns(columns, row, left) {
                    Ok(a) => match Self::evaluate_with_columns(columns, row, right) {
                        Ok(b) => Ok(a && b),
                        Err(e) => Err(e),
                    },
                    Err(e) => Err(e),
                }
            },
            Condition::Or(left, right) => {
                match Self::evaluate_with_columns(columns, row, left) {
                    Ok(a) => match Self::evaluate_with_columns(columns, row, right) {
                        Ok(b) => Ok(a || b),
                        Err(e) => Err(e),
                    },
                    Err(e) => Err(e),
                }
            },
            _ => Self::evaluate_leaf(columns, row, condition),
        }
    }

    /// Evaluates a comparison against `row`.
    fn evaluate_leaf(columns: &Vec<Column>, row: &Row, condition: &Condition) -> (r: Result<bool, DatabaseError>)
        requires
            !(*condition is And || *condition is Or),
            reads_in_row(columns@, row.values@, *condition),
        ensures
            reports(r, eval_leaf(columns@, row.values@, *condition)),
    {
        let name = Self::column_of(condition);
        match Self::get_column_index(columns, name) {
            Ok(idx) => Self::apply(&row.values[idx], condition),
            Err(e) => Err(e),
        }
    }

    /// The column a comparison reads.
    fn column_of(condition: &Condition) -> (n: &str)
        requires
            !(*condition is And || *condition is Or),
        ensures
            n@ == leaf_column(*condition),
    {
        match condition {
            Condition::Equals(n, _) => n.as_str(),
            Condition::NotEquals(n, _) => n.as_str(),
            Condition::GreaterThan(n, _) => n.as_str(),
            Condition::LessThan(n, _) => n.as_str(),
            Condition::GreaterThanOrEqual(n, _) => n.as_str(),
            Condition::LessThanOrEqual(n, _) => n.as_str(),
            Condition::Between(n, _, _) => n.as_str(),
            Condition::Like(n, _) => n.as_str(),
            Condition::In(n, _) => n.as_str(),
            Condition::IsNull(n) => n.as_str(),
            Condition::IsNotNull(n) => n.as_str(),
            Condition::And(_, _) => "",
            Condition::Or(_, _) => "",
        }
    }

    /// Applies a comparison to the value of the column it reads.
    fn apply(val: &Value, condition: &Condition) -> (r: Result<bool, DatabaseError>)
        requires
            !(*condition is And || *condition is Or),
        ensures
            reports(r, leaf_outcome(*val, *condition)),
    {
        reveal(leaf_outcome);
        match condition {
            Condition::Equals(_, x) => Ok(val.equals(x)),
            Condition::NotEquals(_, x) => Ok(!val.equals(x)),
            Condition::GreaterThan(_, x) => Self::compare_greater_than(val, x),
            Condition::LessThan(_, x) => Self::compare_less_than(val, x),
            Condition::GreaterThanOrEqual(_, x) => {
                let gt = Self::compare_greater_than(val, x)?;
                let eq = val.equals(x);
                Ok(gt || eq)
            },
            Condition::LessThanOrEqual(_, x) => {
                let lt = Self::compare_less_than(val, x)?;
                let eq = val.equals(x);
                Ok(lt || eq)
            },
            Condition::Between(_, low, high) => {
                let ge_low = Self::compare_greater_than(val, low)? || val.equals(low);
                let le_high = Self::compare_less_than(val, high)? || val.equals(high);
                Ok(ge_low && le_high)
            },
            Condition::Like(_, pattern) => Self::match_like(val, pattern.as_str()),
            Condition::In(_, values) => Ok(Self::list_contains(values, val)),
            Condition::IsNull(_) => Ok(matches!(val, Value::Null)),
            Condition::IsNotNull(_) => Ok(!matches!(val, Value::Null)),
            Condition::And(_, _) => Err(DatabaseError::TypeMismatch),
            Condition::Or(_, _) => Err(DatabaseError::TypeMismatch),
        }
    }

    /// Whether `list` holds a value equal to `v`.
    fn list_contains(list: &Vec<Value>, v: &Value) -> (b: bool)
        ensures
            b == exists|j: int| 0 <= j < list@.len() && value_eq(#[trigger] list@[j], *v),
    {
        let mut i: usize = 0;
        while i < list.len()
            invariant
                i <= list@.len(),
                forall|j: int| 0 <= j < i ==> !value_eq(#[trigger] list@[j], *v),
            decreases list@.len() - i,
        {
            if list[i].equals(v) {
                return true;
            }
            i = i + 1;
        }
        false
    }

    /// The position of the first column named `col_name`.
    fn get_column_index(columns: &Vec<Column>, col_name: &str) -> (r: Result<usize, DatabaseError>)
        ensures
            match first_column_named(columns@, col_name@) {
                Some(i) => 0 <= i < columns@.len() && r == Ok::<usize, DatabaseError>(i as usize),
                None => r matches Err(DatabaseError::ParseError(m)) && m@ == unknown_column_message(col_name@),
            },
            r matches Ok(k) ==> first_column_named(columns@, col_name@) == Some(k as int),
    {
        match find_column(columns, col_name) {
            Some(i) => Ok(i),
            None => Err(unknown_column(col_name)),
        }
    }

    /// `a > b` for comparable values; a type mismatch otherwise.
    fn compare_greater_than(a: &Value, b: &Value) -> (r: Result<bool, DatabaseError>)
        ensures
            match greater(*a, *b) {
                Some(x) => r == Ok::<bool, DatabaseError>(x),
                None => r == Err::<bool, DatabaseError>(DatabaseError::TypeMismatch),
            },
    {
        match (a, b) {
            (Value::Integer(x), Value::Integer(y)) => Ok(*x > *y),
            (Value::SmallInt(x), Value::SmallInt(y)) => Ok(*x > *y),
            (Value::Real(x), Value::Real(y)) => Ok(real_less(y.bits, x.bits)),
            (Value::Text(x), Value::Text(y)) => {
                let xs = chars_of(x.as_str());
                let ys = chars_of(y.as_str());
                Ok(chars_lt(&ys, &xs))
            },
            (Value::Integer(x), Value::SmallInt(y)) => Ok(*x > *y as i64),
            (Value::SmallInt(x), Value::Integer(y)) => Ok((*x as i64) > *y),
            _ => Err(DatabaseError::TypeMismatch),
        }
    }

    /// `a < b` for comparable values; a type mismatch otherwise.
    fn compare_less_than(a: &Value, b: &Value) -> (r: Result<bool, DatabaseError>)
        ensures
            match less(*a, *b) {
                Some(x) => r == Ok::<bool, DatabaseError>(x),
                None => r == Err::<bool, DatabaseError>(DatabaseError::TypeMismatch),
            },
    {
        match (a, b) {
            (Value::Integer(x), Value::Integer(y)) => Ok(*x < *y),
            (Value::SmallInt(x), Value::SmallInt(y)) => Ok(*x < *y),
            (Value::Real(x), Value::Real(y)) => Ok(real_less(x.bits, y.bits)),
            (Value::Text(x), Value::Text(y)) => {
                let xs = chars_of(x.as_str());
                let ys = chars_of(y.as_str());
                Ok(chars_lt(&xs, &ys))
            },
            (Value::Integer(x), Value::SmallInt(y)) => Ok(*x < *y as i64),
            (Value::SmallInt(x), Value::Integer(y)) => Ok((*x as i64) < *y),
            _ => Err(DatabaseError::TypeMismatch),
        }
    }

    /// LIKE on a text value; NULL matches nothing; other values are a type mismatch.
    fn match_like(value: &Value, pattern: &str) -> (r: Result<bool, DatabaseError>)
        ensures
            match *value {
                Value::Text(t) => r == Ok::<bool, DatabaseError>(like(t@, pattern@)),
                Value::Null => r == Ok::<bool, DatabaseError>(false),
                _ => r == Err::<bool, DatabaseError>(DatabaseError::TypeMismatch),
            },
    {
        match value {
            Value::Text(text) => Ok(Self::like_pattern_match(text.as_str(), pattern)),
            Value::Null => Ok(false),
            _ => Err(DatabaseError::TypeMismatch),
        }
    }

    /// Whether `text` matches the LIKE `pattern`.
    pub fn like_pattern_match(text: &str, pattern: &str) -> (b: bool)
        ensures
            b == like(text@, pattern@),
    {
        let text_chars = chars_of(text);
        let pattern_chars = chars_of(pattern);
        let b = Self::match_recursive(&text_chars, &pattern_chars, 0, 0);
        assert(text_chars@.subrange(0, text_chars@.len() as int) =~= text@);
        assert(pattern_chars@.subrange(0, pattern_chars@.len() as int) =~= pattern@);
        b
    }

    /// Whether the text from position `ti` matches the pattern from position `pi`.
    pub fn match_recursive(text: &Vec<char>, pattern: &Vec<char>, ti: usize, pi: usize) -> (b: bool)
        requires
            ti <= text@.len(),
            pi <= pattern@.len(),
        ensures
            b == like(text@.subrange(ti as int, text@.len() as int), pattern@.subrange(pi as int, pattern@.len() as int)),
        decreases pattern@.len() - pi, text@.len() - ti,
    {
        let ghost t = text@.subrange(ti as int, text@.len() as int);
        let ghost p = pattern@.subrange(pi as int, pattern@.len() as int);
        proof {
            if t.len() > 0 {
                assert(t.drop_first() =~= text@.subrange(ti + 1, text@.len() as int));
                assert(t[0] == text@[ti as int]);
            }
            if p.len() > 0 {
                assert(p.drop_first() =~= pattern@.subrange(pi + 1, pattern@.len() as int));
                assert(p[0] == pattern@[pi as int]);
            }
        }
        if pi >= pattern.len() && ti >= text.len() {
            return true;
        }
        if pi >= pattern.len() {
            return false;
        }
        if pattern[pi] == '%' {
            if Self::match_recursive(text, pattern, ti, pi + 1) {
                return true;
            }
            if ti < text.len() && Self::match_recursive(text, pattern, ti + 1, pi) {
                return true;
            }
            return false;
        }
        if ti >= text.len() {
            return false;
        }
        if pattern[pi] == '_' {
            return Self::match_recursive(text, pattern, ti + 1, pi + 1);
        }
        if text[ti] == pattern[pi] {
            return Self::match_recursive(text, pattern, ti + 1, pi + 1);
        }
        false
    }
}

} // verus!
