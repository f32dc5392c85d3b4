//! Wall-clock readings and RFC 3339 rendering of timestamps (`time`, `std::time`).

use vstd::prelude::*;

verus! {

/// An instant, as nanoseconds since the Unix epoch, together with the UTC
/// offset (in seconds) it is displayed in.
#[derive(Clone, Copy, Debug, PartialEq, Eq)]
pub struct Timestamp {
    pub unix_nanos: i128,
    pub offset_seconds: i32,
}

/// `time::OffsetDateTime::now_utc`: the current instant, in UTC. The instant
/// itself depends on the clock; only its offset is stated.
#[verifier::external_body]
pub(crate) fn now_utc() -> (t: Timestamp)
    ensures
        t.offset_seconds == 0,
{
    let now = time::OffsetDateTime::now_utc();
    Timestamp { unix_nanos: now.unix_timestamp_nanos(), offset_seconds: 0 }
}

/// The RFC 3339 text of the instant `unix_nanos` shown at UTC offset
/// `offset_seconds`, or `None` where `time` cannot represent or format it.
pub uninterp spec fn rfc3339_text(unix_nanos: int, offset_seconds: int) -> Option<Seq<char>>;

/// `OffsetDateTime::format(&Rfc3339)` on the instant `t`, after building the
/// `OffsetDateTime` from its parts (`from_unix_timestamp_nanos`,
/// `UtcOffset::from_whole_seconds`, `checked_to_offset`); any failure along
/// the way gives `None`.
#[verifier::external_body]
pub(crate) fn format_rfc3339(t: Timestamp) -> (r: Option<String>)
    ensures
        r is Some == rfc3339_text(t.unix_nanos as int, t.offset_seconds as int) is Some,
        r matches Some(s) ==> rfc3339_text(t.unix_nanos as int, t.offset_seconds as int) == Some(s@),
{
    let dt = time::OffsetDateTime::from_unix_timestamp_nanos(t.unix_nanos).ok()?;
    let offset = time::UtcOffset::from_whole_seconds(t.offset_seconds).ok()?;
    let shown = dt.checked_to_offset(offset)?;
    shown.format(&time::format_description::well_known::Rfc3339).ok()
}

/// Whole seconds since the Unix epoch by the system clock
/// (`SystemTime::now().duration_since(UNIX_EPOCH)`), or `None` when the
/// clock reads before the epoch. The reading depends on the clock, so
/// nothing is said of it.
#[verifier::external_body]
pub(crate) fn unix_seconds_now() -> (r: Option<u64>) {
    let now = std::time::SystemTime::now();
    now.duration_since(std::time::UNIX_EPOCH).ok().map(|d| d.as_secs())
}

} // verus!
