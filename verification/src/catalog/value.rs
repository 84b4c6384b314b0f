//! Column values.
//!
//! Values of the types that outside libraries represent (dates, times, UUIDs,
//! decimals) are held here as the plain numbers those libraries are built from;
//! a double-precision number is held as its bit pattern together with the
//! renderings that the application computed from it.

use vstd::prelude::*;
use crate::catalog::formats::{
    date_debug, date_debug_of, date_text, date_text_of, decimal_eq, decimal_parts_valid, decimal_text,
    decimal_text_of, pow10, str_debug, str_debug_of, timestamp_debug, timestamp_debug_of,
    timestamp_text, timestamp_text_of, timestamptz_debug, timestamptz_debug_of, timestamptz_text,
    timestamptz_text_of, uuid_debug, uuid_debug_of, uuid_text, uuid_text_of,
};
use crate::text::{
    decimal, decimal_chars, lower_hex, push_chars, push_lower_hex, push_str, signed_decimal,
    signed_decimal_chars, string_of,
};

verus! {

/// A double-precision number: its IEEE-754 bit pattern, with its `Display`
/// and `Debug` renderings and its rendering in a zero-padded field of width 20
/// with 10 decimals (`{:020.10}`), as std formats the number.
#[derive(Clone, Debug, PartialEq)]
pub struct RealNumber {
    pub bits: u64,
    pub display: String,
    pub debug: String,
    pub padded: String,
}

/// Whether the bit pattern is a NaN.
pub open spec fn real_is_nan(bits: u64) -> bool {
    (bits as int % 0x8000_0000_0000_0000) / 0x10_0000_0000_0000 == 2047
        && bits as int % 0x10_0000_0000_0000 != 0
}

/// The position of a non-NaN double on the number line: its magnitude bits,
/// negated when the sign bit is set (so both zeros sit at 0).
pub open spec fn real_rank(bits: u64) -> int {
    if bits >= 0x8000_0000_0000_0000u64 {
        -(bits as int - 0x8000_0000_0000_0000)
    } else {
        bits as int
    }
}

/// IEEE-754 equality of two doubles.
pub open spec fn real_eq(a: u64, b: u64) -> bool {
    !real_is_nan(a) && !real_is_nan(b) && real_rank(a) == real_rank(b)
}

/// IEEE-754 "less than" of two doubles.
pub open spec fn real_lt(a: u64, b: u64) -> bool {
    !real_is_nan(a) && !real_is_nan(b) && real_rank(a) < real_rank(b)
}

fn is_nan(bits: u64) -> (b: bool)
    ensures
        b == real_is_nan(bits),
{
    (bits % 0x8000_0000_0000_0000) / 0x10_0000_0000_0000 == 2047 && bits % 0x10_0000_0000_0000 != 0
}

fn rank(bits: u64) -> (r: i128)
    ensures
        r == real_rank(bits),
{
    if bits >= 0x8000_0000_0000_0000u64 {
        -((bits - 0x8000_0000_0000_0000u64) as i128)
    } else {
        bits as i128
    }
}

/// IEEE-754 equality of two doubles given by their bits.
pub fn real_equal(a: u64, b: u64) -> (r: bool)
    ensures
        r == real_eq(a, b),
{
    !is_nan(a) && !is_nan(b) && rank(a) == rank(b)
}

/// IEEE-754 "less than" of two doubles given by their bits.
pub fn real_less(a: u64, b: u64) -> (r: bool)
    ensures
        r == real_lt(a, b),
{
    !is_nan(a) && !is_nan(b) && rank(a) < rank(b)
}

/// A decimal number: `mantissa` * 10^-`scale`, within the range of `rust_decimal::Decimal`.
#[derive(Debug, PartialEq)]
pub struct DecimalValue {
    mantissa: i128,
    scale: u32,
}

impl DecimalValue {
    #[verifier::type_invariant]
    closed spec fn inv(self) -> bool {
        decimal_parts_valid(self.mantissa, self.scale)
    }

    pub closed spec fn spec_mantissa(&self) -> i128 {
        self.mantissa
    }

    pub closed spec fn spec_scale(&self) -> u32 {
        self.scale
    }

    /// The decimal with these parts, when `rust_decimal` can represent it.
    pub fn new(mantissa: i128, scale: u32) -> (r: Option<Self>)
        ensures
            match r {
                Some(d) => decimal_parts_valid(mantissa, scale) && d.spec_mantissa() == mantissa
                    && d.spec_scale() == scale,
                None => !decimal_parts_valid(mantissa, scale),
            },
    {
        if scale <= 28 && -79228162514264337593543950335i128 <= mantissa
            && mantissa <= 79228162514264337593543950335i128 {
            Some(DecimalValue { mantissa, scale })
        } else {
            None
        }
    }

    pub fn mantissa(&self) -> (m: i128)
        ensures
            m == self.spec_mantissa(),
            decimal_parts_valid(self.spec_mantissa(), self.spec_scale()),
    {
        proof { use_type_invariant(self); }
        self.mantissa
    }

    pub fn scale(&self) -> (s: u32)
        ensures
            s == self.spec_scale(),
            decimal_parts_valid(self.spec_mantissa(), self.spec_scale()),
    {
        proof { use_type_invariant(self); }
        self.scale
    }
}

impl Clone for DecimalValue {
    fn clone(&self) -> (r: Self)
        ensures
            r == *self,
    {
        DecimalValue { mantissa: self.mantissa(), scale: self.scale() }
    }
}

/// A column value.
#[derive(Clone, Debug, PartialEq)]
pub enum Value {
    Null,
    SmallInt(i16),
    Integer(i64),
    Real(RealNumber),
    Numeric(DecimalValue),
    Text(String),
    /// A fixed-length character value.
    Char(String),
    Boolean(bool),
    /// A calendar date, as its day number counted from 0001-01-01 (day 1).
    Date(i32),
    /// A time without zone, as seconds and nanoseconds after 1970-01-01 00:00:00.
    Timestamp(i64, u32),
    /// A UTC time, as seconds and nanoseconds after 1970-01-01 00:00:00 UTC.
    TimestampTz(i64, u32),
    /// A UUID, as its 128-bit value.
    Uuid(u128),
    /// A JSON document as text.
    Json(String),
    Bytea(Vec<u8>),
    /// A value of an enumerated type: (type name, label).
    Enum(String, String),
}

/// Value equality: fields equal, doubles compared as IEEE numbers, decimals by numeric value.
pub open spec fn value_eq(a: Value, b: Value) -> bool {
    match (a, b) {
        (Value::Null, Value::Null) => true,
        (Value::SmallInt(x), Value::SmallInt(y)) => x == y,
        (Value::Integer(x), Value::Integer(y)) => x == y,
        (Value::Real(x), Value::Real(y)) => real_eq(x.bits, y.bits),
        (Value::Numeric(x), Value::Numeric(y)) =>
            x.spec_mantissa() * pow10(y.spec_scale() as nat) == y.spec_mantissa() * pow10(x.spec_scale() as nat),
        (Value::Text(x), Value::Text(y)) => x@ == y@,
        (Value::Char(x), Value::Char(y)) => x@ == y@,
        (Value::Boolean(x), Value::Boolean(y)) => x == y,
        (Value::Date(x), Value::Date(y)) => x == y,
        (Value::Timestamp(s1, n1), Value::Timestamp(s2, n2)) => s1 == s2 && n1 == n2,
        (Value::TimestampTz(s1, n1), Value::TimestampTz(s2, n2)) => s1 == s2 && n1 == n2,
        (Value::Uuid(x), Value::Uuid(y)) => x == y,
        (Value::Json(x), Value::Json(y)) => x@ == y@,
        (Value::Bytea(x), Value::Bytea(y)) => x@ == y@,
        (Value::Enum(t1, l1), Value::Enum(t2, l2)) => t1@ == t2@ && l1@ == l2@,
        _ => false,
    }
}

/// Two values are the same value: equal fields, byte strings compared by content.
pub open spec fn identical(a: Value, b: Value) -> bool {
    match (a, b) {
        (Value::Bytea(x), Value::Bytea(y)) => x@ == y@,
        _ => a == b,
    }
}

/// The text of "true" or "false".
pub open spec fn bool_text(b: bool) -> Seq<char> {
    if b { "true"@ } else { "false"@ }
}

/// The `Display` rendering of a value.
pub open spec fn display_of(v: Value) -> Seq<char> {
    match v {
        Value::Null => "NULL"@,
        Value::SmallInt(i) => signed_decimal(i as int),
        Value::Integer(i) => signed_decimal(i as int),
        Value::Real(r) => r.display@,
        Value::Numeric(d) => decimal_text_of(d.spec_mantissa(), d.spec_scale()),
        Value::Text(s) => s@,
        Value::Char(s) => s@,
        Value::Boolean(b) => bool_text(b),
        Value::Date(d) => date_text_of(d),
        Value::Timestamp(s, n) => timestamp_text_of(s, n),
        Value::TimestampTz(s, n) => timestamptz_text_of(s, n),
        Value::Uuid(u) => uuid_text_of(u),
        Value::Json(s) => s@,
        Value::Bytea(b) => "\\x"@ + lower_hex(b@),
        Value::Enum(_, label) => label@,
    }
}

/// The elements of `b` in decimal, separated by ", ".
pub open spec fn bytes_list(b: Seq<u8>) -> Seq<char>
    decreases b.len(),
{
    if b.len() == 0 {
        Seq::empty()
    } else if b.len() == 1 {
        decimal(b[0] as nat)
    } else {
        bytes_list(b.drop_last()) + ", "@ + decimal(b.last() as nat)
    }
}

/// `name(inner)`.
pub open spec fn wrapped(name: Seq<char>, inner: Seq<char>) -> Seq<char> {
    name + "("@ + inner + ")"@
}

/// The derived `Debug` rendering of a value.
pub open spec fn debug_of(v: Value) -> Seq<char> {
    match v {
        Value::Null => "Null"@,
        Value::SmallInt(i) => wrapped("SmallInt"@, signed_decimal(i as int)),
        Value::Integer(i) => wrapped("Integer"@, signed_decimal(i as int)),
        Value::Real(r) => wrapped("Real"@, r.debug@),
        Value::Numeric(d) => wrapped("Numeric"@, decimal_text_of(d.spec_mantissa(), d.spec_scale())),
        Value::Text(s) => wrapped("Text"@, str_debug_of(s@)),
        Value::Char(s) => wrapped("Char"@, str_debug_of(s@)),
        Value::Boolean(b) => wrapped("Boolean"@, bool_text(b)),
        Value::Date(d) => wrapped("Date"@, date_debug_of(d)),
        Value::Timestamp(s, n) => wrapped("Timestamp"@, timestamp_debug_of(s, n)),
        Value::TimestampTz(s, n) => wrapped("TimestampTz"@, timestamptz_debug_of(s, n)),
        Value::Uuid(u) => wrapped("Uuid"@, uuid_debug_of(u)),
        Value::Json(s) => wrapped("Json"@, str_debug_of(s@)),
        Value::Bytea(b) => wrapped("Bytea"@, "["@ + bytes_list(b@) + "]"@),
        Value::Enum(t, l) => wrapped("Enum"@, str_debug_of(t@) + ", "@ + str_debug_of(l@)),
    }
}

/// Whether two byte sequences are equal.
pub fn bytes_equal(a: &Vec<u8>, b: &Vec<u8>) -> (r: bool)
    ensures
        r == (a@ == b@),
{
    if a.len() != b.len() {
        return false;
    }
    let mut i: usize = 0;
    while i < a.len()
        invariant
            a@.len() == b@.len(),
            i <= a@.len(),
            forall|j: int| 0 <= j < i ==> a@[j] == b@[j],
        decreases a@.len() - i,
    {
        if a[i] != b[i] {
            return false;
        }
        i = i + 1;
    }
    assert(a@ =~= b@);
    true
}

/// Appends the rendering of `b` as a list of decimal numbers.
fn push_bytes_list(out: &mut Vec<char>, b: &Vec<u8>)
    ensures
        final(out)@ == old(out)@ + bytes_list(b@),
{
    let mut i: usize = 0;
    while i < b.len()
        invariant
            i <= b@.len(),
            out@ == old(out)@ + bytes_list(b@.subrange(0, i as int)),
        decreases b@.len() - i,
    {
        let ghost before = out@;
        if i > 0 {
            push_str(out, ", ");
        }
        let d = decimal_chars(b[i] as u128);
        push_chars(out, &d);
        i = i + 1;
        proof {
            let s = b@.subrange(0, i as int);
            assert(s.drop_last() =~= b@.subrange(0, i - 1));
            if i == 1 {
                assert(bytes_list(b@.subrange(0, 0)) =~= Seq::<char>::empty());
                assert(out@ =~= old(out)@ + bytes_list(s));
            } else {
                assert(out@ =~= old(out)@ + bytes_list(s));
            }
        }
    }
    assert(b@.subrange(0, b@.len() as int) =~= b@);
}

impl Value {
    /// A copy of the value.
    pub fn duplicate(&self) -> (r: Value)
        ensures
            identical(r, *self),
    {
        match self {
            Value::Null => Value::Null,
            Value::SmallInt(i) => Value::SmallInt(*i),
            Value::Integer(i) => Value::Integer(*i),
            Value::Real(r) => Value::Real(RealNumber {
                bits: r.bits,
                display: r.display.clone(),
                debug: r.debug.clone(),
                padded: r.padded.clone(),
            }),
            Value::Numeric(d) => Value::Numeric(d.clone()),
            Value::Text(s) => Value::Text(s.clone()),
            Value::Char(s) => Value::Char(s.clone()),
            Value::Boolean(b) => Value::Boolean(*b),
            Value::Date(d) => Value::Date(*d),
            Value::Timestamp(s, n) => Value::Timestamp(*s, *n),
            Value::TimestampTz(s, n) => Value::TimestampTz(*s, *n),
            Value::Uuid(u) => Value::Uuid(*u),
            Value::Json(s) => Value::Json(s.clone()),
            Value::Bytea(b) => {
                let c = b.clone();
                proof {
                    assert forall|i: int| 0 <= i < c@.len() implies c@[i] == b@[i] by {
                        assert(cloned::<u8>(b[i], c[i]));
                    }
                    assert(c@ =~= b@);
                }
                Value::Bytea(c)
            },
            Value::Enum(t, l) => Value::Enum(t.clone(), l.clone()),
        }
    }

    /// Value equality, as `==` on values computes it.
    pub fn equals(&self, other: &Value) -> (r: bool)
        ensures
            r == value_eq(*self, *other),
    {
        match (self, other) {
            (Value::Null, Value::Null) => true,
            (Value::SmallInt(x), Value::SmallInt(y)) => *x == *y,
            (Value::Integer(x), Value::Integer(y)) => *x == *y,
            (Value::Real(x), Value::Real(y)) => real_equal(x.bits, y.bits),
            (Value::Numeric(x), Value::Numeric(y)) => decimal_eq(x.mantissa(), x.scale(), y.mantissa(), y.scale()),
            (Value::Text(x), Value::Text(y)) => *x == *y,
            (Value::Char(x), Value::Char(y)) => *x == *y,
            (Value::Boolean(x), Value::Boolean(y)) => *x == *y,
            (Value::Date(x), Value::Date(y)) => *x == *y,
            (Value::Timestamp(s1, n1), Value::Timestamp(s2, n2)) => *s1 == *s2 && *n1 == *n2,
            (Value::TimestampTz(s1, n1), Value::TimestampTz(s2, n2)) => *s1 == *s2 && *n1 == *n2,
            (Value::Uuid(x), Value::Uuid(y)) => *x == *y,
            (Value::Json(x), Value::Json(y)) => *x == *y,
            (Value::Bytea(x), Value::Bytea(y)) => bytes_equal(x, y),
            (Value::Enum(t1, l1), Value::Enum(t2, l2)) => *t1 == *t2 && *l1 == *l2,
            _ => false,
        }
    }

    /// Appends the `Display` rendering of the value.
    pub fn push_display(&self, out: &mut Vec<char>)
        ensures
            final(out)@ == old(out)@ + display_of(*self),
    {
        match self {
            Value::Null => push_str(out, "NULL"),
            Value::SmallInt(i) => {
                let d = signed_decimal_chars(*i as i128);
                push_chars(out, &d);
            },
            Value::Integer(i) => {
                let d = signed_decimal_chars(*i as i128);
                push_chars(out, &d);
            },
            Value::Real(r) => push_str(out, r.display.as_str()),
            Value::Numeric(d) => {
                let t = decimal_text(d.mantissa(), d.scale());
                push_str(out, t.as_str());
            },
            Value::Text(s) => push_str(out, s.as_str()),
            Value::Char(s) => push_str(out, s.as_str()),
            Value::Boolean(b) => {
                if *b { push_str(out, "true") } else { push_str(out, "false") }
            },
            Value::Date(d) => {
                let t = date_text(*d);
                push_str(out, t.as_str());
            },
            Value::Timestamp(s, n) => {
                let t = timestamp_text(*s, *n);
                push_str(out, t.as_str());
            },
            Value::TimestampTz(s, n) => {
                let t = timestamptz_text(*s, *n);
                push_str(out, t.as_str());
            },
            Value::Uuid(u) => {
                let t = uuid_text(*u);
                push_str(out, t.as_str());
            },
            Value::Json(s) => push_str(out, s.as_str()),
            Value::Bytea(b) => {
                let ghost before = out@;
                push_str(out, "\\x");
                push_lower_hex(out, b.as_slice());
                assert(out@ =~= before + ("\\x"@ + lower_hex(b@)));
            },
            Value::Enum(_, label) => push_str(out, label.as_str()),
        }
    }

    /// The `Display` rendering of the value.
    pub fn to_display_string(&self) -> (s: String)
        ensures
            s@ == display_of(*self),
    {
        let mut out: Vec<char> = Vec::new();
        self.push_display(&mut out);
        assert(out@ =~= display_of(*self));
        string_of(&out)
    }

    /// The variant name and the rendering of the contents, as `Debug` prints them.
    fn debug_parts(&self) -> (r: (&'static str, Vec<char>))
        ensures
            !(*self is Null) ==> debug_of(*self) == wrapped(r.0@, r.1@),
            *self is Null ==> debug_of(*self) == r.0@,
    {
        let mut inner: Vec<char> = Vec::new();
        match self {
            Value::Null => ("Null", inner),
            Value::SmallInt(i) => ("SmallInt", signed_decimal_chars(*i as i128)),
            Value::Integer(i) => ("Integer", signed_decimal_chars(*i as i128)),
            Value::Real(r) => {
                push_str(&mut inner, r.debug.as_str());
                ("Real", inner)
            },
            Value::Numeric(d) => {
                let t = decimal_text(d.mantissa(), d.scale());
                push_str(&mut inner, t.as_str());
                ("Numeric", inner)
            },
            Value::Text(s) => {
                let t = str_debug(s.as_str());
                push_str(&mut inner, t.as_str());
                ("Text", inner)
            },
            Value::Char(s) => {
                let t = str_debug(s.as_str());
                push_str(&mut inner, t.as_str());
                ("Char", inner)
            },
            Value::Boolean(b) => {
                if *b { push_str(&mut inner, "true") } else { push_str(&mut inner, "false") }
                ("Boolean", inner)
            },
            Value::Date(d) => {
                let t = date_debug(*d);
                push_str(&mut inner, t.as_str());
                ("Date", inner)
            },
            Value::Timestamp(s, n) => {
                let t = timestamp_debug(*s, *n);
                push_str(&mut inner, t.as_str());
                ("Timestamp", inner)
            },
            Value::TimestampTz(s, n) => {
                let t = timestamptz_debug(*s, *n);
                push_str(&mut inner, t.as_str());
                ("TimestampTz", inner)
            },
            Value::Uuid(u) => {
                let t = uuid_debug(*u);
                push_str(&mut inner, t.as_str());
                ("Uuid", inner)
            },
            Value::Json(s) => {
                let t = str_debug(s.as_str());
                push_str(&mut inner, t.as_str());
                ("Json", inner)
            },
            Value::Bytea(b) => {
                push_str(&mut inner, "[");
                push_bytes_list(&mut inner, b);
                push_str(&mut inner, "]");
                ("Bytea", inner)
            },
            Value::Enum(t, l) => {
                let a = str_debug(t.as_str());
                push_str(&mut inner, a.as_str());
                push_str(&mut inner, ", ");
                let b = str_debug(l.as_str());
                push_str(&mut inner, b.as_str());
                ("Enum", inner)
            },
        }
    }

    /// Appends the derived `Debug` rendering of the value.
    pub fn push_debug(&self, out: &mut Vec<char>)
        ensures
            final(out)@ == old(out)@ + debug_of(*self),
    {
        let (name, inner) = self.debug_parts();
        push_str(out, name);
        match self {
            Value::Null => {},
            _ => {
                let ghost mid = out@;
                push_str(out, "(");
                push_chars(out, &inner);
                push_str(out, ")");
                assert(out@ =~= old(out)@ + wrapped(name@, inner@));
            },
        }
    }

    /// The derived `Debug` rendering of the value.
    pub fn to_debug_string(&self) -> (s: String)
        ensures
            s@ == debug_of(*self),
    {
        let mut out: Vec<char> = Vec::new();
        self.push_debug(&mut out);
        assert(out@ =~= debug_of(*self));
        string_of(&out)
    }

    /// The integer held by an `Integer` value.
    pub fn as_int(&self) -> (r: Option<i64>)
        ensures
            r == match *self {
                Value::Integer(i) => Some(i),
                _ => None::<i64>,
            },
    {
        match self {
            Value::Integer(i) => Some(*i),
            _ => None,
        }
    }

    /// The text held by a `Text` value.
    pub fn as_text(&self) -> (r: Option<&str>)
        ensures
            match *self {
                Value::Text(s) => r.is_some() && r.unwrap()@ == s@,
                _ => r.is_none(),
            },
    {
        match self {
            Value::Text(s) => Some(s.as_str()),
            _ => None,
        }
    }

    /// The truth value held by a `Boolean` value.
    pub fn as_bool(&self) -> (r: Option<bool>)
        ensures
            r == match *self {
                Value::Boolean(b) => Some(b),
                _ => None::<bool>,
            },
    {
        match self {
            Value::Boolean(b) => Some(*b),
            _ => None,
        }
    }
}

} // verus!
