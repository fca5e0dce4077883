//! Calendar formatting and parsing of Unix timestamps, done by `chrono`.
use vstd::prelude::*;

verus! {

/// The `strftime` pattern of a reply attribution line ("Thu, 2 Jul 2026 at 10:00").
pub const ATTRIBUTION_FORMAT: &'static str = "%a, %-d %b %Y at %H:%M";

/// The `strftime` pattern of a calendar day ("2025-07-01").
pub const DAY_FORMAT: &'static str = "%Y-%m-%d";

/// What `chrono` renders for the UTC instant `epoch` seconds after the Unix
/// epoch under a `strftime` pattern; `None` where `chrono` has no such instant.
pub uninterp spec fn formatted_utc(epoch: int, pattern: Seq<char>) -> Option<Seq<char>>;

/// The Unix timestamp that `chrono` reads from an RFC 3339 text, if it parses.
pub uninterp spec fn rfc3339_epoch(text: Seq<char>) -> Option<int>;

/// The RFC 3339 text (whole seconds, `Z` suffix) that `chrono` writes for an
/// epoch; `None` where `chrono` has no such instant.
pub uninterp spec fn rfc3339_text(epoch: int) -> Option<Seq<char>>;

/// `chrono::DateTime::from_timestamp(epoch, 0)` rendered with
/// `DateTime::format(pattern).to_string()`. The contract ties the result to
/// `formatted_utc` of the two arguments; what `chrono` renders is not restated.
/// `to_string` panics on a malformed pattern, so only the crate's own two
/// patterns are admitted.
#[verifier::external_body]
pub(crate) fn format_utc(epoch: i64, pattern: &str) -> (r: Option<String>)
    requires
        pattern@ == ATTRIBUTION_FORMAT@ || pattern@ == DAY_FORMAT@,
    ensures
        match r {
            Some(s) => formatted_utc(epoch as int, pattern@) == Some(s@),
            None => formatted_utc(epoch as int, pattern@) is None,
        },
{
    match chrono::DateTime::from_timestamp(epoch, 0) {
        Some(d) => Some(d.format(pattern).to_string()),
        None => None,
    }
}

/// `chrono::DateTime::parse_from_rfc3339(text)` and its `timestamp()`; the
/// result is `rfc3339_epoch` of the text.
#[verifier::external_body]
pub(crate) fn parse_rfc3339(text: &str) -> (r: Option<i64>)
    ensures
        match r {
            Some(e) => rfc3339_epoch(text@) == Some(e as int),
            None => rfc3339_epoch(text@) is None,
        },
{
    match chrono::DateTime::parse_from_rfc3339(text) {
        Ok(dt) => Some(dt.timestamp()),
        Err(_) => None,
    }
}

/// `chrono::DateTime::from_timestamp(epoch, 0)` written by
/// `to_rfc3339_opts(SecondsFormat::Secs, true)`; the result is
/// `rfc3339_text` of the epoch. `from_timestamp` gives `None` only for an
/// out-of-range number of seconds, and the Unix epoch itself is in range.
#[verifier::external_body]
pub(crate) fn to_rfc3339(epoch: i64) -> (r: Option<String>)
    ensures
        match r {
            Some(s) => rfc3339_text(epoch as int) == Some(s@),
            None => rfc3339_text(epoch as int) is None,
        },
        epoch == 0 ==> r is Some,
{
    match chrono::DateTime::from_timestamp(epoch, 0) {
        Some(d) => Some(d.to_rfc3339_opts(chrono::SecondsFormat::Secs, true)),
        None => None,
    }
}

/// The RFC 3339 text of an epoch, or of the Unix epoch itself where the
/// epoch is out of `chrono`'s range.
pub open spec fn rfc3339_or_unix_epoch(epoch: int) -> Seq<char> {
    match rfc3339_text(epoch) {
        Some(t) => t,
        None => rfc3339_text(0)->0,
    }
}

/// Write an epoch as RFC 3339 text (whole seconds, UTC); an out-of-range
/// epoch is written as the Unix epoch.
pub fn epoch_to_rfc3339(epoch: i64) -> (r: String)
    ensures
        r@ == rfc3339_or_unix_epoch(epoch as int),
{
    match to_rfc3339(epoch) {
        Some(t) => t,
        None => match to_rfc3339(0) {
            Some(t) => t,
            None => String::new(),
        },
    }
}

} // verus!
