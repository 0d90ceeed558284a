//! Points in time, and their text forms as produced and read by `chrono`.
use vstd::prelude::*;

use crate::text::opt_text;

verus! {

/// A point in time: whole seconds since the Unix epoch (UTC) and the
/// nanoseconds past that second, as `chrono` reports them.
#[derive(Clone, Copy, Debug, PartialEq, Eq, Structural)]
pub struct Timestamp {
    pub secs: i64,
    pub nanos: u32,
}

/// `a` comes strictly before `b`.
pub open spec fn earlier(a: Timestamp, b: Timestamp) -> bool {
    a.secs < b.secs || (a.secs == b.secs && a.nanos < b.nanos)
}

/// Whether `a` comes strictly before `b`.
pub fn is_earlier(a: Timestamp, b: Timestamp) -> (r: bool)
    ensures
        r == earlier(a, b),
{
    a.secs < b.secs || (a.secs == b.secs && a.nanos < b.nanos)
}

/// What `DateTime::<Utc>::from_timestamp(secs, nanos)` followed by
/// `to_rfc3339` gives: `None` where `chrono` has no such instant.
pub uninterp spec fn chrono_rfc3339(secs: i64, nanos: u32) -> Option<Seq<char>>;

/// What `DateTime::parse_from_rfc3339(text)`, taken to UTC, gives as seconds
/// and nanoseconds: `None` where the text is not accepted.
pub uninterp spec fn chrono_parse_rfc3339(text: Seq<char>) -> Option<(i64, u32)>;

/// What `DateTime::<Utc>::from_timestamp(secs, nanos)` followed by
/// `format(pattern)` writes.
pub uninterp spec fn chrono_strftime(secs: i64, nanos: u32, pattern: Seq<char>) -> Option<Seq<char>>;

/// A character that `to_rfc3339` writes: digits, signs, separators and `T`.
pub open spec fn is_rfc3339_char(c: char) -> bool {
    ('0' <= c && c <= '9') || c == '-' || c == '+' || c == ':' || c == '.' || c == 'T'
}

/// The RFC 3339 text of a timestamp, empty where `chrono` has none.
pub open spec fn rfc3339_text(t: Timestamp) -> Seq<char> {
    match chrono_rfc3339(t.secs, t.nanos) {
        Some(s) => s,
        None => seq![],
    }
}

/// The timestamp that an RFC 3339 text denotes, if `chrono` accepts it.
pub open spec fn parsed_time(text: Seq<char>) -> Option<Timestamp> {
    match chrono_parse_rfc3339(text) {
        Some(p) => Some(Timestamp { secs: p.0, nanos: p.1 }),
        None => None,
    }
}

/// An instant in the years 0 to 9999, which `to_rfc3339` writes with a
/// four-digit year.
pub open spec fn in_four_digit_years(t: Timestamp) -> bool {
    -62167219200 <= t.secs <= 253402300799
}

/// An instant in the years 0 to 9999 that falls on no leap second, which
/// `from_timestamp` accepts.
pub open spec fn ordinary_time(t: Timestamp) -> bool {
    in_four_digit_years(t) && t.nanos < 1_000_000_000
}

/// `chrono` reads back, from the RFC 3339 text it writes for `t`, the instant `t`.
pub open spec fn rfc3339_reads_back(t: Timestamp) -> bool {
    match chrono_rfc3339(t.secs, t.nanos) {
        Some(s) => chrono_parse_rfc3339(s) == Some((t.secs, t.nanos)),
        None => true,
    }
}

/// A `strftime` pattern made of plain characters and the conversions
/// `%Y %m %d %H %M %S`, all of which `chrono` can write for any instant.
pub open spec fn is_simple_pattern(p: Seq<char>) -> bool {
    forall|i: int|
        0 <= i < p.len() && #[trigger] p[i] == '%' ==> i + 1 < p.len() && (p[i + 1] == 'Y' || p[i + 1] == 'm'
            || p[i + 1] == 'd' || p[i + 1] == 'H' || p[i + 1] == 'M' || p[i + 1] == 'S')
            && (i == 0 || p[i - 1] != '%')
}

/// The current time (`chrono::Utc::now`). Of the value, only what `now`'s
/// source gives is stated: it is built by `from_timestamp` from a duration
/// since the Unix epoch (seconds not negative, nanoseconds below one
/// second), and otherwise `now` panics.
#[verifier::external_body]
pub(crate) fn now() -> (t: Timestamp)
    ensures
        t.secs >= 0,
        t.nanos < 1_000_000_000,
{
    let d = chrono::Utc::now();
    Timestamp { secs: d.timestamp(), nanos: d.timestamp_subsec_nanos() }
}

/// `to_rfc3339` of the UTC instant `t` (`DateTime::from_timestamp`, then
/// `DateTime::to_rfc3339`). The text is `chrono`'s; the facts stated of it
/// are the set of characters that `chrono`'s writer (`write_rfc3339`) emits,
/// that there is one for an instant of the years 0 to 9999 off a leap
/// second (`from_timestamp` then finds its day and its time of day), and
/// that `parse_from_rfc3339` reads it back when the year has four digits:
/// the writer then puts a four-digit year, two-digit fields, a leap second
/// as second 60, a fraction of 3, 6 or 9 digits that holds every
/// nanosecond, and `+00:00`, all of which the reader takes back.
#[verifier::external_body]
pub(crate) fn format_rfc3339(t: Timestamp) -> (r: Option<String>)
    ensures
        opt_text(r) == chrono_rfc3339(t.secs, t.nanos),
        r matches Some(s) ==> forall|i: int| 0 <= i < s@.len() ==> is_rfc3339_char(#[trigger] s@[i]),
        ordinary_time(t) ==> r is Some,
        in_four_digit_years(t) ==> (r matches Some(s) ==> chrono_parse_rfc3339(s@) == Some(
            (t.secs, t.nanos),
        )),
{
    chrono::DateTime::from_timestamp(t.secs, t.nanos).map(|d| d.to_rfc3339())
}

/// `DateTime::parse_from_rfc3339(text)`, converted to UTC seconds and
/// nanoseconds (`with_timezone(&Utc)`, `timestamp`, `timestamp_subsec_nanos`).
#[verifier::external_body]
pub(crate) fn parse_rfc3339(text: &str) -> (r: Option<Timestamp>)
    ensures
        r == (match chrono_parse_rfc3339(text@) {
            Some(p) => Some(Timestamp { secs: p.0, nanos: p.1 }),
            None => None,
        }),
{
    match chrono::DateTime::parse_from_rfc3339(text) {
        Ok(d) => {
            let u = d.with_timezone(&chrono::Utc);
            Some(Timestamp { secs: u.timestamp(), nanos: u.timestamp_subsec_nanos() })
        },
        Err(_) => None,
    }
}

/// `DateTime::<Utc>::from_timestamp(secs, nanos)` formatted with
/// `DateTime::format(pattern)`; `None` where `chrono` has no such instant.
#[verifier::external_body]
pub(crate) fn format_pattern(t: Timestamp, pattern: &str) -> (r: Option<String>)
    requires
        is_simple_pattern(pattern@),
    ensures
        opt_text(r) == chrono_strftime(t.secs, t.nanos, pattern@),
{
    chrono::DateTime::from_timestamp(t.secs, t.nanos).map(|d| d.format(pattern).to_string())
}

} // verus!
