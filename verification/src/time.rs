//! Instants and calendar days as plain integers. An instant is a count of
//! microseconds since 1970-01-01T00:00:00Z; a day is a count of days since
//! 1970-01-01 (UTC). Parsing Jira's textual timestamps is chrono's work.

use vstd::prelude::*;

use vstd::string::StringSliceAdditionalSpecFns;

verus! {

pub const MICROS_PER_DAY: i64 = 86_400_000_000i64;

pub const MICROS_PER_HOUR: i64 = 3_600_000_000i64;

/// Days representable by a calendar date (chrono's range is narrower).
pub open spec fn valid_day(d: int) -> bool {
    -100_000_000 <= d <= 100_000_000
}

/// The UTC calendar day of an instant.
pub open spec fn day_of(t: int) -> int {
    t / (MICROS_PER_DAY as int)
}

/// The first instant of a UTC calendar day.
pub open spec fn start_of_day_spec(d: int) -> int {
    d * (MICROS_PER_DAY as int)
}

/// The UTC calendar day of an instant (`DateTime::date_naive`).
pub fn date_of(t: i64) -> (d: i64)
    ensures
        d as int == day_of(t as int),
{
    if t >= 0 {
        t / MICROS_PER_DAY
    } else {
        let u: i64 = -(t + 1);
        let q: i64 = u / MICROS_PER_DAY;
        proof {
            let dd: int = 86_400_000_000;
            let k: int = (t as int) / dd;
            let r: int = (t as int) % dd;
            assert(t == dd * k + r && 0 <= r < dd) by (nonlinear_arith)
                requires
                    k == (t as int) / dd,
                    r == (t as int) % dd,
                    dd == 86_400_000_000,
            ;
            assert((u as int) == dd * (-k - 1) + (dd - r - 1)) by (nonlinear_arith)
                requires
                    t == dd * k + r,
                    u == -(t + 1),
            ;
            assert((u as int) / dd == -k - 1) by (nonlinear_arith)
                requires
                    (u as int) == dd * (-k - 1) + (dd - r - 1),
                    0 <= dd - r - 1 < dd,
                    dd > 0,
            ;
        }
        -q - 1
    }
}

/// Midnight (UTC) at the start of a calendar day.
pub fn start_of_day(d: i64) -> (t: i64)
    requires
        valid_day(d as int),
    ensures
        t as int == start_of_day_spec(d as int),
        day_of(t as int) == d,
{
    assert(-100_000_000 * 86_400_000_000 <= d * 86_400_000_000 <= 100_000_000 * 86_400_000_000) by (nonlinear_arith)
        requires
            -100_000_000 <= d <= 100_000_000,
    ;
    let t = d * MICROS_PER_DAY;
    assert((d * 86_400_000_000) / 86_400_000_000int == d) by (nonlinear_arith);
    t
}

// ---------------------------------------------------------------------------
// chrono parsing
// ---------------------------------------------------------------------------

/// The instant that chrono's `DateTime::parse_from_str` reads from a text in
/// Jira's `%Y-%m-%dT%H:%M:%S%.f%z` form (`None` when it does not parse).
pub uninterp spec fn jira_offset_instant(s: Seq<char>) -> Option<i64>;

/// The instant that chrono's `DateTime::parse_from_rfc3339` reads.
pub uninterp spec fn rfc3339_instant(s: Seq<char>) -> Option<i64>;

/// The day that chrono's `NaiveDate::parse_from_str(s, "%Y-%m-%d")` reads.
pub uninterp spec fn ymd_day(s: Seq<char>) -> Option<i64>;

/// `chrono::DateTime::parse_from_str(s, "%Y-%m-%dT%H:%M:%S%.f%z")`, as the
/// parsed instant's microsecond timestamp. The result is named, not stated.
#[verifier::external_body]
fn parse_offset_datetime(s: &str) -> (r: Option<i64>)
    ensures
        r == jira_offset_instant(s@),
{
    chrono::DateTime::parse_from_str(s, "%Y-%m-%dT%H:%M:%S%.f%z").ok().map(|d| d.timestamp_micros())
}

/// `chrono::DateTime::parse_from_rfc3339(s)`, as the parsed instant's
/// microsecond timestamp. The result is named, not stated.
#[verifier::external_body]
pub(crate) fn parse_rfc3339(s: &str) -> (r: Option<i64>)
    ensures
        r == rfc3339_instant(s@),
{
    chrono::DateTime::parse_from_rfc3339(s).ok().map(|d| d.timestamp_micros())
}

/// `chrono::NaiveDate::parse_from_str(s, "%Y-%m-%d")`, as days since the Unix
/// epoch (`NaiveDate::to_epoch_days`). The result is named; the stated fact
/// is chrono's documented date range, which `to_epoch_days` cannot leave.
#[verifier::external_body]
pub(crate) fn parse_ymd(s: &str) -> (r: Option<i64>)
    ensures
        r == ymd_day(s@),
        r matches Some(d) ==> valid_day(d as int),
{
    chrono::NaiveDate::parse_from_str(s, "%Y-%m-%d").ok().map(|d| d.to_epoch_days() as i64)
}

/// The instant a Jira timestamp denotes: Jira's own form (no colon in the
/// offset), else RFC 3339, else a bare date at midnight UTC.
pub open spec fn jira_datetime_spec(s: Seq<char>) -> Option<i64> {
    match jira_offset_instant(s) {
        Some(t) => Some(t),
        None => match rfc3339_instant(s) {
            Some(t) => Some(t),
            None => match ymd_day(s) {
                Some(d) => Some((d * MICROS_PER_DAY) as i64),
                None => None,
            },
        },
    }
}

pub fn parse_jira_datetime(s: &str) -> (r: Option<i64>)
    ensures
        r == jira_datetime_spec(s@),
{
    if let Some(t) = parse_offset_datetime(s) {
        return Some(t);
    }
    if let Some(t) = parse_rfc3339(s) {
        return Some(t);
    }
    match parse_ymd(s) {
        Some(d) => Some(start_of_day(d)),
        None => None,
    }
}

/// The text that `parse_jira_date` reads: the first ten bytes when the text
/// has a character boundary there, else (the text being shorter) all of it.
pub open spec fn date_head(s: Seq<char>) -> Seq<char> {
    if vstd::utf8::is_char_boundary(vstd::utf8::encode_utf8(s), 10) {
        vstd::utf8::decode_utf8(vstd::utf8::encode_utf8(s).subrange(0, 10))
    } else {
        s
    }
}

/// `&s[..10]` panics when the text is ten bytes or longer and byte 10 splits
/// a character; every other text can be read.
pub open spec fn date_head_ok(s: Seq<char>) -> bool {
    vstd::utf8::is_char_boundary(vstd::utf8::encode_utf8(s), 10) || (vstd::utf8::encode_utf8(s).len() as usize) < 10
}

/// A calendar date from the first ten bytes of a Jira date or timestamp.
pub fn parse_jira_date(s: &str) -> (r: Option<i64>)
    requires
        date_head_ok(s@),
    ensures
        r == ymd_day(date_head(s@)),
{
    if s.is_char_boundary(10) {
        let (head, _) = s.split_at(10);
        proof {
            vstd::utf8::encode_utf8_decode_utf8(head@);
        }
        parse_ymd(head)
    } else {
        parse_ymd(s)
    }
}

/// Whether `parse_jira_date` may read a text (see `date_head_ok`).
pub fn date_head_readable(s: &str) -> (r: bool)
    ensures
        r == date_head_ok(s@),
{
    s.is_char_boundary(10) || s.len() < 10
}

/// chrono's latest representable instant, in microseconds (the end of
/// +262142-12-31); adding to an instant past it panics.
pub const MAX_INSTANT: i64 = 8_210_266_876_799_999_999i64;

} // verus!
