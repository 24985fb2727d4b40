//! Transaction timestamps: seconds since the Unix epoch, kept inside the
//! range the canonical text form covers (1970 through the year 9999).

use vstd::prelude::*;

verus! {

/// The largest timestamp the ledger stores: 9999-12-31T23:59:59Z.
pub const MAX_TIMESTAMP: i64 = 253_402_300_799;

/// Timestamps the ledger stores: non-negative seconds up to the end of the
/// year 9999, so the canonical text always has a four-digit year.
pub open spec fn time_in_range(t: i64) -> bool {
    0 <= t <= 253_402_300_799
}

/// The canonical timestamp text: RFC 3339 at second precision with a literal
/// `Z` offset; a function of the timestamp alone.
pub uninterp spec fn time_text_of(t: i64) -> Seq<char>;

/// Whether `c` can appear in canonical timestamp text.
pub open spec fn time_text_char(c: char) -> bool {
    ('0' <= c && c <= '9') || c == '-' || c == ':' || c == 'T' || c == 'Z'
}

/// Relies on `chrono::DateTime::<Utc>::from_timestamp` (total on the range
/// above) and `to_rfc3339_opts` at second precision with `use_z`: the text is
/// `YYYY-MM-DDTHH:MM:SSZ`, 20 characters of digits, `-`, `:`, `T` and `Z`.
#[verifier::external_body]
pub(crate) fn time_text(t: i64) -> (r: String)
    requires
        time_in_range(t),
    ensures
        r@ == time_text_of(t),
        r@.len() == 20,
        forall|i: int| 0 <= i < r@.len() ==> time_text_char(#[trigger] r@[i]),
{
    chrono::DateTime::<chrono::Utc>::from_timestamp(t, 0)
        .expect("timestamp is in range")
        .to_rfc3339_opts(chrono::SecondsFormat::Secs, true)
}

/// Relies on `chrono::DateTime::parse_from_rfc3339` and
/// `DateTime::timestamp`: chrono documents `from_timestamp` to round-trip
/// with `timestamp`, and `parse_from_rfc3339` accepts what
/// `to_rfc3339_opts` produced, so parsing the canonical text of an in-range
/// timestamp yields that timestamp back.
#[verifier::external_body]
pub(crate) fn time_parse(s: &str) -> (r: Option<i64>)
    ensures
        forall|t: i64| time_in_range(t) && s@ == time_text_of(t) ==> r == Some(t),
{
    match chrono::DateTime::parse_from_rfc3339(s) {
        Ok(d) => Some(d.timestamp()),
        Err(_) => None,
    }
}

/// The display text of a timestamp (`YYYY-MM-DD HH:MM:SS UTC`); a function
/// of the timestamp alone.
pub uninterp spec fn time_display_of(t: i64) -> Seq<char>;

/// Relies on the `Display` impl of `chrono::DateTime<Utc>`: date, space,
/// time, space, `UTC` — 23 characters for a four-digit year.
#[verifier::external_body]
pub(crate) fn time_display(t: i64) -> (r: String)
    requires
        time_in_range(t),
    ensures
        r@ == time_display_of(t),
        r@.len() == 23,
{
    chrono::DateTime::<chrono::Utc>::from_timestamp(t, 0)
        .expect("timestamp is in range")
        .to_string()
}

/// Relies on `chrono::Utc::now` and `DateTime::timestamp`: the clock's
/// seconds since the epoch.  Nothing is promised of the value; callers clamp
/// it into range.
#[verifier::external_body]
pub(crate) fn now_timestamp() -> i64 {
    chrono::Utc::now().timestamp()
}

} // verus!
