use vstd::prelude::*;

verus! {

/// The text `str::to_lowercase` gives for the characters `s` (Unicode default
/// case mapping; it depends on the characters alone).
pub uninterp spec fn lowercase_text(s: Seq<char>) -> Seq<char>;

/// Calls `str::to_lowercase`. Claimed: the result is `lowercase_text` of the
/// argument's characters; nothing more is claimed of it.
#[verifier::external_body]
pub(crate) fn to_lowercase(s: &str) -> (r: String)
    ensures
        r@ == lowercase_text(s@),
{
    s.to_lowercase()
}

/// Calls `String::from_iter` on the characters of `v`. Claimed: the string
/// holds exactly those characters, in order.
#[verifier::external_body]
pub(crate) fn string_from_chars(v: &Vec<char>) -> (r: String)
    ensures
        r@ == v@,
{
    String::from_iter(v.iter())
}


/// Whether chrono represents the UNIX time `secs` (seconds, no fraction) as
/// a `DateTime<Utc>`; chrono's calendar covers a bounded range of years.
pub uninterp spec fn utc_representable(secs: i64) -> bool;

/// The text chrono formats the UNIX time `secs` to with the pattern
/// `%Y-%m-%d %H:%M:%S UTC`.
pub uninterp spec fn utc_csv_text(secs: i64) -> Seq<char>;

/// Calls chrono's `Utc.timestamp_opt(secs, 0).single()`. Claimed: whether a
/// date comes back depends on `secs` alone (`utc_representable`).
#[verifier::external_body]
pub(crate) fn utc_timestamp_exists(secs: i64) -> (b: bool)
    ensures
        b == utc_representable(secs),
{
    chrono::TimeZone::timestamp_opt(&chrono::Utc, secs, 0).single().is_some()
}

/// Calls chrono's `format("%Y-%m-%d %H:%M:%S UTC")` on the date of `secs`.
/// Claimed: the text depends on `secs` alone (`utc_csv_text`). Only called
/// where chrono represents `secs`.
#[verifier::external_body]
pub(crate) fn utc_csv_format(secs: i64) -> (r: String)
    requires
        utc_representable(secs),
    ensures
        r@ == utc_csv_text(secs),
{
    match chrono::TimeZone::timestamp_opt(&chrono::Utc, secs, 0).single() {
        Some(d) => d.format("%Y-%m-%d %H:%M:%S UTC").to_string(),
        None => String::new(),
    }
}

} // verus!
