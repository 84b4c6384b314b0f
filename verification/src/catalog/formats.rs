//! Renderings that the date, UUID and decimal libraries compute.
//!
//! Each item here makes one call into an outside library (or std's `Debug`
//! for strings) and names its result; nothing more is claimed of it than what
//! the call's own definition fixes.

use vstd::prelude::*;

verus! {

/// `NaiveDate` with this day number, formatted as `%Y-%m-%d`.
pub uninterp spec fn date_text_of(days_from_ce: i32) -> Seq<char>;
/// `NaiveDate` with this day number, rendered by its `Debug`.
pub uninterp spec fn date_debug_of(days_from_ce: i32) -> Seq<char>;
/// The UTC time `secs`/`nanos` after the epoch, as a naive time formatted `%Y-%m-%d %H:%M:%S`.
pub uninterp spec fn timestamp_text_of(secs: i64, nanos: u32) -> Seq<char>;
/// The same naive time, rendered by its `Debug`.
pub uninterp spec fn timestamp_debug_of(secs: i64, nanos: u32) -> Seq<char>;
/// The UTC time `secs`/`nanos` after the epoch, formatted `%Y-%m-%d %H:%M:%S %Z`.
pub uninterp spec fn timestamptz_text_of(secs: i64, nanos: u32) -> Seq<char>;
/// The same UTC time, rendered by its `Debug`.
pub uninterp spec fn timestamptz_debug_of(secs: i64, nanos: u32) -> Seq<char>;
/// The same UTC time, formatted `%Y-%m-%d %H:%M:%S%:z`.
pub uninterp spec fn timestamptz_sql_of(secs: i64, nanos: u32) -> Seq<char>;
/// The UUID with this 128-bit value, rendered by its `Display`.
pub uninterp spec fn uuid_text_of(value: u128) -> Seq<char>;
/// The UUID with this 128-bit value, rendered by its `Debug`.
pub uninterp spec fn uuid_debug_of(value: u128) -> Seq<char>;
/// The decimal `mantissa` * 10^-`scale`, rendered by its `Display`.
pub uninterp spec fn decimal_text_of(mantissa: i128, scale: u32) -> Seq<char>;
/// A string literal as std's `Debug` for `str` renders it (quoted and escaped).
pub uninterp spec fn str_debug_of(s: Seq<char>) -> Seq<char>;

/// Trusted: `chrono::NaiveDate::from_num_days_from_ce_opt` then `format("%Y-%m-%d")`;
/// a day number outside chrono's range renders as the empty string.
#[verifier::external_body]
pub(crate) fn date_text(days_from_ce: i32) -> (r: String)
    ensures
        r@ == date_text_of(days_from_ce),
{
    match chrono::NaiveDate::from_num_days_from_ce_opt(days_from_ce) {
        Some(d) => d.format("%Y-%m-%d").to_string(),
        None => String::new(),
    }
}

/// Trusted: `chrono::NaiveDate::from_num_days_from_ce_opt` then its `Debug`;
/// a day number outside chrono's range renders as the empty string.
#[verifier::external_body]
pub(crate) fn date_debug(days_from_ce: i32) -> (r: String)
    ensures
        r@ == date_debug_of(days_from_ce),
{
    match chrono::NaiveDate::from_num_days_from_ce_opt(days_from_ce) {
        Some(d) => format!("{:?}", d),
        None => String::new(),
    }
}

/// Trusted: `chrono::DateTime::from_timestamp`, `naive_utc`, then `format("%Y-%m-%d %H:%M:%S")`;
/// a time outside chrono's range renders as the empty string.
#[verifier::external_body]
pub(crate) fn timestamp_text(secs: i64, nanos: u32) -> (r: String)
    ensures
        r@ == timestamp_text_of(secs, nanos),
{
    match chrono::DateTime::from_timestamp(secs, nanos) {
        Some(t) => t.naive_utc().format("%Y-%m-%d %H:%M:%S").to_string(),
        None => String::new(),
    }
}

/// Trusted: `chrono::DateTime::from_timestamp`, `naive_utc`, then its `Debug`;
/// a time outside chrono's range renders as the empty string.
#[verifier::external_body]
pub(crate) fn timestamp_debug(secs: i64, nanos: u32) -> (r: String)
    ensures
        r@ == timestamp_debug_of(secs, nanos),
{
    match chrono::DateTime::from_timestamp(secs, nanos) {
        Some(t) => format!("{:?}", t.naive_utc()),
        None => String::new(),
    }
}

/// Trusted: `chrono::DateTime::from_timestamp` then `format("%Y-%m-%d %H:%M:%S %Z")`;
/// a time outside chrono's range renders as the empty string.
#[verifier::external_body]
pub(crate) fn timestamptz_text(secs: i64, nanos: u32) -> (r: String)
    ensures
        r@ == timestamptz_text_of(secs, nanos),
{
    match chrono::DateTime::from_timestamp(secs, nanos) {
        Some(t) => t.format("%Y-%m-%d %H:%M:%S %Z").to_string(),
        None => String::new(),
    }
}

/// Trusted: `chrono::DateTime::from_timestamp` then its `Debug`;
/// a time outside chrono's range renders as the empty string.
#[verifier::external_body]
pub(crate) fn timestamptz_debug(secs: i64, nanos: u32) -> (r: String)
    ensures
        r@ == timestamptz_debug_of(secs, nanos),
{
    match chrono::DateTime::from_timestamp(secs, nanos) {
        Some(t) => format!("{:?}", t),
        None => String::new(),
    }
}

/// Trusted: `chrono::DateTime::from_timestamp` then `format("%Y-%m-%d %H:%M:%S%:z")`;
/// a time outside chrono's range renders as the empty string.
#[verifier::external_body]
pub(crate) fn timestamptz_sql(secs: i64, nanos: u32) -> (r: String)
    ensures
        r@ == timestamptz_sql_of(secs, nanos),
{
    match chrono::DateTime::from_timestamp(secs, nanos) {
        Some(t) => t.format("%Y-%m-%d %H:%M:%S%:z").to_string(),
        None => String::new(),
    }
}

/// Trusted: `uuid::Uuid::from_u128` then its `Display` (`to_string`).
#[verifier::external_body]
pub(crate) fn uuid_text(value: u128) -> (r: String)
    ensures
        r@ == uuid_text_of(value),
{
    uuid::Uuid::from_u128(value).to_string()
}

/// Trusted: `uuid::Uuid::from_u128` then its `Debug`.
#[verifier::external_body]
pub(crate) fn uuid_debug(value: u128) -> (r: String)
    ensures
        r@ == uuid_debug_of(value),
{
    format!("{:?}", uuid::Uuid::from_u128(value))
}

/// The largest magnitude a `rust_decimal::Decimal` mantissa can have (2^96 - 1).
pub open spec fn decimal_max_mantissa() -> int {
    79228162514264337593543950335
}

/// Whether `mantissa`/`scale` is the representation of some `rust_decimal::Decimal`.
pub open spec fn decimal_parts_valid(mantissa: i128, scale: u32) -> bool {
    &&& scale <= 28
    &&& -decimal_max_mantissa() <= mantissa <= decimal_max_mantissa()
}

/// Trusted: `rust_decimal::Decimal::from_i128_with_scale` then its `Display`
/// (`to_string`). The parts are those of a decimal, so the constructor does not panic.
#[verifier::external_body]
pub(crate) fn decimal_text(mantissa: i128, scale: u32) -> (r: String)
    requires
        decimal_parts_valid(mantissa, scale),
    ensures
        r@ == decimal_text_of(mantissa, scale),
{
    rust_decimal::Decimal::from_i128_with_scale(mantissa, scale).to_string()
}

/// 10 to the power `e`.
pub open spec fn pow10(e: nat) -> int
    decreases e,
{
    if e == 0 { 1 } else { 10 * pow10((e - 1) as nat) }
}

/// Trusted: `rust_decimal::Decimal::from_i128_with_scale` on both sides, then
/// `PartialEq::eq`, which compares the numeric values: `m1 / 10^s1 == m2 / 10^s2`.
#[verifier::external_body]
pub(crate) fn decimal_eq(m1: i128, s1: u32, m2: i128, s2: u32) -> (r: bool)
    requires
        decimal_parts_valid(m1, s1),
        decimal_parts_valid(m2, s2),
    ensures
        r == (m1 * pow10(s2 as nat) == m2 * pow10(s1 as nat)),
{
    rust_decimal::Decimal::from_i128_with_scale(m1, s1) == rust_decimal::Decimal::from_i128_with_scale(m2, s2)
}

/// Trusted: std's `Debug` for `str` (`format!("{:?}", s)`): the string quoted and escaped.
#[verifier::external_body]
pub(crate) fn str_debug(s: &str) -> (r: String)
    ensures
        r@ == str_debug_of(s@),
{
    format!("{:?}", s)
}

} // verus!
