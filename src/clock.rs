//! Instants as milliseconds since the Unix epoch, and their RFC 2822 text.
use vstd::prelude::*;
use chrono::{Datelike, Timelike};

verus! {

/// The first millisecond of year 0, the earliest instant that RFC 2822 text can show.
pub const MIN_RFC2822_MILLIS: i64 = -62167219200000;

/// The last millisecond of year 9999, the latest instant that RFC 2822 text can show.
pub const MAX_RFC2822_MILLIS: i64 = 253402300799999;

/// The instant an RFC 2822 date names, in milliseconds, or `None` where the text is not one.
pub uninterp spec fn rfc2822_millis(s: Seq<char>) -> Option<i64>;

/// The RFC 2822 text of an instant, in UTC.
pub uninterp spec fn rfc2822_text(millis: i64) -> Seq<char>;

/// The UTC calendar fields of an instant: year, month, day, hour, minute, second.
pub uninterp spec fn utc_fields(millis: i64) -> (i32, u32, u32, u32, u32, u32);

/// A date and time of day in UTC.
#[derive(Clone, Copy, Debug, PartialEq, Eq, Structural)]
pub struct CivilTime {
    pub year: i32,
    pub month: u32,
    pub day: u32,
    pub hour: u32,
    pub minute: u32,
    pub second: u32,
}

/// The date and time of some calendar fields.
pub open spec fn civil_of(f: (i32, u32, u32, u32, u32, u32)) -> CivilTime {
    CivilTime { year: f.0, month: f.1, day: f.2, hour: f.3, minute: f.4, second: f.5 }
}

impl CivilTime {
    pub open spec fn fields(self) -> (i32, u32, u32, u32, u32, u32) {
        (self.year, self.month, self.day, self.hour, self.minute, self.second)
    }

    /// The ranges every calendar date and time of day keeps to.
    pub open spec fn wf(self) -> bool {
        1 <= self.month <= 12 && 1 <= self.day <= 31 && self.hour <= 23 && self.minute <= 59
            && self.second <= 59
    }
}

/// Relies on chrono's `DateTime::parse_from_rfc2822` and `timestamp_millis`:
/// the instant named by the text, whatever its offset.
#[verifier::external_body]
pub(crate) fn parse_rfc2822(s: &str) -> (r: Option<i64>)
    ensures
        r == rfc2822_millis(s@),
{
    match chrono::DateTime::parse_from_rfc2822(s) {
        Ok(v) => Some(v.timestamp_millis()),
        Err(_) => None,
    }
}

/// Relies on chrono's `DateTime::<Utc>::to_rfc2822`, which panics outside
/// years 0 to 9999.
#[verifier::external_body]
pub(crate) fn format_rfc2822(millis: i64) -> (r: String)
    requires
        MIN_RFC2822_MILLIS <= millis <= MAX_RFC2822_MILLIS,
    ensures
        r@ == rfc2822_text(millis),
{
    chrono::DateTime::<chrono::Utc>::from_timestamp_millis(millis).unwrap_or_default().to_rfc2822()
}

/// Relies on chrono's `From<SystemTime>` for `DateTime<Utc>`, which also
/// takes times before the Unix epoch: the current instant, in milliseconds.
#[verifier::external_body]
pub(crate) fn now_millis() -> (r: i64) {
    chrono::DateTime::<chrono::Utc>::from(std::time::SystemTime::now()).timestamp_millis()
}

/// Relies on chrono's `Datelike` and `Timelike` accessors of a UTC instant.
#[verifier::external_body]
pub(crate) fn civil_time(millis: i64) -> (r: CivilTime)
    requires
        MIN_RFC2822_MILLIS <= millis <= MAX_RFC2822_MILLIS,
    ensures
        r.fields() == utc_fields(millis),
        r.wf(),
{
    let t = chrono::DateTime::<chrono::Utc>::from_timestamp_millis(millis).unwrap_or_default();
    CivilTime {
        year: t.year(),
        month: t.month(),
        day: t.day(),
        hour: t.hour(),
        minute: t.minute(),
        second: t.second(),
    }
}

} // verus!
