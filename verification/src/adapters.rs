use vstd::prelude::*;

verus! {

/// An instant as (seconds since the Unix epoch, nanoseconds into that second;
/// the latter may exceed 999_999_999 during a leap second).
pub type Instant = (i64, u32);

/// `a` is not later than `b`.
pub open spec fn at_or_before(a: Instant, b: Instant) -> bool {
    a.0 < b.0 || (a.0 == b.0 && a.1 <= b.1)
}

/// Exec form of `at_or_before`.
pub fn instant_at_or_before(a: Instant, b: Instant) -> (r: bool)
    ensures
        r == at_or_before(a, b),
{
    a.0 < b.0 || (a.0 == b.0 && a.1 <= b.1)
}

/// What `serde_json::from_str::<Vec<String>>` makes of a text: the list of
/// strings when the text is a JSON array of strings, `None` when it fails.
pub uninterp spec fn json_string_list(text: Seq<char>) -> Option<Seq<Seq<char>>>;

/// Parses a JSON array of strings with `serde_json::from_str::<Vec<String>>`.
/// Trusted: the result, `None` on a parse error, is claimed to equal
/// `json_string_list` of the text; nothing more is said of that function.
#[verifier::external_body]
pub(crate) fn parse_json_string_list(text: &str) -> (r: Option<Vec<String>>)
    ensures
        r.deep_view() == json_string_list(text@),
{
    serde_json::from_str::<Vec<String>>(text).ok()
}

/// The instant named by an RFC 3339 date-time text, as read by
/// `chrono::DateTime::parse_from_rfc3339`; `None` when it does not parse.
pub uninterp spec fn rfc3339_instant(text: Seq<char>) -> Option<Instant>;

/// Parses an RFC 3339 date-time with `chrono::DateTime::parse_from_rfc3339` and
/// returns its instant (`timestamp`, `timestamp_subsec_nanos`). Trusted: the
/// result is claimed to equal `rfc3339_instant` of the text.
#[verifier::external_body]
pub(crate) fn parse_rfc3339(text: &str) -> (r: Option<Instant>)
    ensures
        r == rfc3339_instant(text@),
{
    match chrono::DateTime::parse_from_rfc3339(text) {
        Ok(d) => Some((d.timestamp(), d.timestamp_subsec_nanos())),
        Err(_) => None,
    }
}

/// A reading of the system clock, held as the outside type.
#[verifier::external_type_specification]
#[verifier::external_body]
pub struct ExSystemTime(std::time::SystemTime);

/// Reads the system clock with `std::time::SystemTime::now`. Nothing is claimed
/// of the result: it depends on the clock.
#[verifier::external_body]
pub(crate) fn system_now() -> (r: std::time::SystemTime) {
    std::time::SystemTime::now()
}

/// The instant of a clock reading, from `SystemTime::duration_since` with
/// `UNIX_EPOCH` (seconds and nanoseconds); `None` when the reading is before
/// the epoch or its seconds do not fit in an `i64`. Nothing is claimed of the
/// result, which stands for an opaque clock reading.
#[verifier::external_body]
pub(crate) fn since_epoch(t: &std::time::SystemTime) -> (r: Option<Instant>) {
    match t.duration_since(std::time::UNIX_EPOCH) {
        Ok(d) => match i64::try_from(d.as_secs()) {
            Ok(secs) => Some((secs, d.subsec_nanos())),
            Err(_) => None,
        },
        Err(_) => None,
    }
}

/// The current instant, or `None` when the clock reads a time that an
/// `Instant` cannot hold (before the Unix epoch). Reading the clock never
/// panics: such a reading is reported to the caller, which returns the
/// library's `ClockOutOfRange` error instead of stopping the program.
pub(crate) fn utc_now() -> (r: Option<Instant>) {
    let t = system_now();
    since_epoch(&t)
}

/// What `str::to_lowercase` makes of a text (the Unicode lowercase mapping).
pub uninterp spec fn lowercase(text: Seq<char>) -> Seq<char>;

/// Lowercases a text with `str::to_lowercase`. Trusted: the result is claimed to
/// equal `lowercase` of the text.
#[verifier::external_body]
pub(crate) fn to_lowercase(text: &str) -> (r: String)
    ensures
        r@ == lowercase(text@),
{
    text.to_lowercase()
}

/// A JSON value, held as the outside type and carried through unread.
#[verifier::external_type_specification]
#[verifier::external_body]
pub struct ExJsonValue(serde_json::Value);

/// A copy of a JSON value, made with its derived `Clone`. Trusted: the copy is
/// claimed to be the same value.
#[verifier::external_body]
pub(crate) fn copy_json(v: &serde_json::Value) -> (r: serde_json::Value)
    ensures
        r == *v,
{
    v.clone()
}

} // verus!
