//! Time and fresh identifiers.

use crate::common::Timestamp;
use crate::text;
use vstd::prelude::*;

verus! {

/// The instant that an RFC 3339 text stands for: seconds since 1970 and nanoseconds.
pub uninterp spec fn instant_of(s: Seq<char>) -> Option<(i64, u32)>;

/// The RFC 3339 text of an instant given in seconds since 1970 and nanoseconds.
pub uninterp spec fn instant_text(seconds: i64, nanos: u32) -> Option<Seq<char>>;

/// What is known of an instant that the clock showed: it is not before 1970, its nanoseconds make
/// less than a second, and it can be written as text.
pub open spec fn is_clock_time(t: Timestamp) -> bool {
    &&& t.seconds >= 0
    &&& t.nanos < 1_000_000_000
    &&& instant_text(t.seconds, t.nanos) is Some
}

/// Whether a text has the shape of a hyphenated UUID: groups of small hexadecimal digits.
pub open spec fn is_uuid_text(s: Seq<char>) -> bool {
    &&& s.len() == 36
    &&& forall|i: int|
        0 <= i < 36 ==> if i == 8 || i == 13 || i == 18 || i == 23 {
            #[trigger] s[i] == '-'
        } else {
            ('0' <= s[i] && s[i] <= '9') || ('a' <= s[i] && s[i] <= 'f')
        }
}

/// `uuid::Uuid::new_v4` and its text. Which identifier it is depends on chance; claimed is only
/// its shape, that of the hyphenated form in small letters.
#[verifier::external_body]
pub(crate) fn fresh_id() -> (id: String)
    ensures
        is_uuid_text(id@),
{
    uuid::Uuid::new_v4().to_string()
}

/// `chrono::Utc::now`. Which instant it is depends on the clock; claimed is only that it is not
/// before 1970, that the nanoseconds make less than a second, and that it can be written as text.
#[verifier::external_body]
pub(crate) fn now() -> (t: Timestamp)
    ensures
        is_clock_time(t),
{
    let t = chrono::Utc::now();
    Timestamp { seconds: t.timestamp(), nanos: t.timestamp_subsec_nanos() }
}

/// `chrono::DateTime::parse_from_rfc3339`. The instant depends on the text alone and is called
/// `instant_of`.
#[verifier::external_body]
pub(crate) fn parse_instant(s: &str) -> (r: Option<(i64, u32)>)
    ensures
        r == instant_of(s@),
{
    chrono::DateTime::parse_from_rfc3339(s).ok().map(
        |t| (t.timestamp(), t.timestamp_subsec_nanos()),
    )
}

/// The JSON text that `serde_json::to_value` gives for a `chrono::DateTime` made by
/// `chrono::DateTime::from_timestamp`. The text depends on the instant alone and is called
/// `instant_text`; there is none where the instant is out of chrono's range.
#[verifier::external_body]
pub(crate) fn write_instant(seconds: i64, nanos: u32) -> (r: Option<String>)
    ensures
        text::optional_text(r) == instant_text(seconds, nanos),
{
    let t = chrono::DateTime::from_timestamp(seconds, nanos)?;
    serde_json::to_value(t).ok()?.as_str().map(|s| s.to_owned())
}

} // verus!
