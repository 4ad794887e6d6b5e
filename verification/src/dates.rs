//! Calendar values from text and from the clock.
use vstd::prelude::*;

verus! {

/// Microseconds since 1970-01-01T00:00:00 of the date-time that `s` denotes
/// in the strftime format `fmt`, as `chrono::NaiveDateTime::parse_from_str`
/// reads it; none when it does not parse.
pub uninterp spec fn naive_datetime_micros(s: Seq<char>, fmt: Seq<char>) -> Option<i64>;

/// Days since 1970-01-01 of the date that `s` denotes in the strftime format
/// `fmt`, as `chrono::NaiveDate::parse_from_str` reads it; none when it does
/// not parse.
pub uninterp spec fn naive_date_days(s: Seq<char>, fmt: Seq<char>) -> Option<i32>;

/// Calls `chrono::NaiveDateTime::parse_from_str` and converts the result to
/// microseconds since the epoch. The pattern is limited to date and
/// time-of-day specifiers: with `%s` and `%S` together chrono can overflow
/// and panic on a leap second at the edge of its range.
#[verifier::external_body]
pub(crate) fn parse_datetime_micros(s: &str, fmt: &str) -> (r: Option<i64>)
    requires
        pattern_uses_only(fmt@, datetime_specifiers()),
    ensures
        r == naive_datetime_micros(s@, fmt@),
{
    match chrono::NaiveDateTime::parse_from_str(s, fmt) {
        Ok(dt) => Some(dt.and_utc().timestamp_micros()),
        Err(_) => None,
    }
}

/// Calls `chrono::NaiveDate::parse_from_str` and converts the result to days
/// since 1970-01-01.
#[verifier::external_body]
pub(crate) fn parse_date_days(s: &str, fmt: &str) -> (r: Option<i32>)
    ensures
        r == naive_date_days(s@, fmt@),
{
    match chrono::NaiveDate::parse_from_str(s, fmt) {
        Ok(d) => Some(d.to_epoch_days()),
        Err(_) => None,
    }
}

/// Calls `chrono::Local::now`: today's date in the local time zone, as days
/// since 1970-01-01. Nothing is promised of the value.
#[verifier::external_body]
pub(crate) fn today_days() -> i32 {
    chrono::Local::now().naive_local().date().to_epoch_days()
}

/// Calls `chrono::Local::now`: the local date-time, as microseconds since
/// the epoch. Nothing is promised of the value.
#[verifier::external_body]
pub(crate) fn now_micros() -> i64 {
    chrono::Local::now().naive_local().and_utc().timestamp_micros()
}

/// Whether every `%` of the strftime pattern `fmt` starts one of the
/// specifiers in `allowed` (so the pattern holds no specifier that chrono
/// would refuse to write).
pub open spec fn pattern_uses_only(fmt: Seq<char>, allowed: Seq<char>) -> bool {
    forall|i: int|
        0 <= i < fmt.len() && #[trigger] fmt[i] == '%' ==> i + 1 < fmt.len() && allowed.contains(fmt[i + 1])
}

/// The specifiers a date can be written with: year, month, day.
pub open spec fn date_specifiers() -> Seq<char> {
    seq!['Y', 'm', 'd']
}

/// The specifiers a date-time can be written with: year, month, day, hour,
/// minute, second.
pub open spec fn datetime_specifiers() -> Seq<char> {
    seq!['Y', 'm', 'd', 'H', 'M', 'S']
}

/// The date `days` days after 1970-01-01 as `chrono::NaiveDate::format`
/// writes it with the strftime pattern `fmt`; none when
/// `chrono::NaiveDate::from_epoch_days` gives none (outside chrono's range).
pub uninterp spec fn date_text(days: i32, fmt: Seq<char>) -> Option<Seq<char>>;

/// Calls `chrono::NaiveDate::from_epoch_days` and writes the date with
/// `chrono::NaiveDate::format`. The pattern is limited to year, month and
/// day specifiers, with which chrono's writer does not fail.
#[verifier::external_body]
pub(crate) fn format_date(days: i32, fmt: &str) -> (r: Option<String>)
    requires
        pattern_uses_only(fmt@, date_specifiers()),
    ensures
        match date_text(days, fmt@) {
            Some(t) => r is Some && r->0@ == t,
            None => r is None,
        },
{
    match chrono::NaiveDate::from_epoch_days(days) {
        Some(d) => Some(d.format(fmt).to_string()),
        None => None,
    }
}

/// The UTC date-time `secs` seconds and `nsec` nanoseconds after the epoch,
/// as `chrono::DateTime::from_timestamp` builds it, written by
/// `chrono::NaiveDateTime::format` with the strftime pattern `fmt`; none when
/// `from_timestamp` gives none.
pub uninterp spec fn datetime_text(secs: i64, nsec: u32, fmt: Seq<char>) -> Option<Seq<char>>;

/// Calls `chrono::DateTime::from_timestamp` and writes the naive UTC
/// date-time with `chrono::NaiveDateTime::format`. The pattern is limited to
/// date and time-of-day specifiers, with which chrono's writer does not fail.
#[verifier::external_body]
pub(crate) fn format_datetime(secs: i64, nsec: u32, fmt: &str) -> (r: Option<String>)
    requires
        pattern_uses_only(fmt@, datetime_specifiers()),
    ensures
        match datetime_text(secs, nsec, fmt@) {
            Some(t) => r is Some && r->0@ == t,
            None => r is None,
        },
{
    match chrono::DateTime::from_timestamp(secs, nsec) {
        Some(dt) => Some(dt.naive_utc().format(fmt).to_string()),
        None => None,
    }
}

/// `%Y-%m-%d` uses only date specifiers.
pub(crate) proof fn lemma_date_pattern()
    ensures
        pattern_uses_only("%Y-%m-%d"@, date_specifiers()),
{
    reveal_strlit("%Y-%m-%d");
    let f = "%Y-%m-%d"@;
    let a = date_specifiers();
    assert(a[0] == 'Y' && a[1] == 'm' && a[2] == 'd');
    assert forall|i: int| 0 <= i < f.len() && #[trigger] f[i] == '%' implies i + 1 < f.len()
        && a.contains(f[i + 1]) by {
        if i == 0 {
            assert(a[0] == f[1]);
        } else if i == 3 {
            assert(a[1] == f[4]);
        } else {
            assert(i == 6);
            assert(a[2] == f[7]);
        }
    }
}

/// The two date-time patterns with a `T` or a space use only date and time
/// specifiers.
pub(crate) proof fn lemma_datetime_patterns()
    ensures
        pattern_uses_only("%Y-%m-%dT%H:%M:%S"@, datetime_specifiers()),
        pattern_uses_only("%Y-%m-%d %H:%M:%S"@, datetime_specifiers()),
{
    reveal_strlit("%Y-%m-%dT%H:%M:%S");
    let f = "%Y-%m-%dT%H:%M:%S"@;
    let a = datetime_specifiers();
    assert forall|i: int| 0 <= i < f.len() && #[trigger] f[i] == '%' implies i + 1 < f.len()
        && a.contains(f[i + 1]) by {
        if i == 0 {
            assert(a[0] == f[1]);
        } else if i == 3 {
            assert(a[1] == f[4]);
        } else if i == 6 {
            assert(a[2] == f[7]);
        } else if i == 9 {
            assert(a[3] == f[10]);
        } else if i == 12 {
            assert(a[4] == f[13]);
        } else {
            assert(i == 15);
            assert(a[5] == f[16]);
        }
    }
    reveal_strlit("%Y-%m-%d %H:%M:%S");
    let g = "%Y-%m-%d %H:%M:%S"@;
    let b = datetime_specifiers();
    assert forall|i: int| 0 <= i < g.len() && #[trigger] g[i] == '%' implies i + 1 < g.len()
        && b.contains(g[i + 1]) by {
        if i == 0 {
            assert(b[0] == g[1]);
        } else if i == 3 {
            assert(b[1] == g[4]);
        } else if i == 6 {
            assert(b[2] == g[7]);
        } else if i == 9 {
            assert(b[3] == g[10]);
        } else if i == 12 {
            assert(b[4] == g[13]);
        } else {
            assert(i == 15);
            assert(b[5] == g[16]);
        }
    }
}

} // verus!
