//! Instants, the synchronisation window, and RFC 3339 text.
use vstd::prelude::*;

verus! {

/// Seconds in one day.
pub const SECONDS_PER_DAY: i64 = 86400;

/// What `chrono` reads from an RFC 3339 text: the instant in whole seconds
/// since the Unix epoch, or `None` when the text is not RFC 3339.
pub uninterp spec fn rfc3339_instant(text: Seq<char>) -> Option<int>;

/// What `chrono` writes for an instant given in seconds since the Unix
/// epoch, or `None` when the instant is outside the dates it represents.
pub uninterp spec fn rfc3339_text(secs: int) -> Option<Seq<char>>;

/// Relies on `chrono::DateTime::parse_from_rfc3339` and `DateTime::timestamp`:
/// the text's instant in seconds, or `None` where parsing fails.
#[verifier::external_body]
pub(crate) fn parse_instant(text: &str) -> (r: Option<i64>)
    ensures
        match r {
            Some(t) => rfc3339_instant(text@) == Some(t as int),
            None => rfc3339_instant(text@).is_none(),
        },
{
    chrono::DateTime::parse_from_rfc3339(text).ok().map(|d| d.timestamp())
}

/// The first instant of year 0: 0000-01-01T00:00:00Z.
pub const FIRST_STORABLE: i64 = -62167219200;

/// The last instant of year 9999: 9999-12-31T23:59:59Z.
pub const LAST_STORABLE: i64 = 253402300799;

/// Relies on `chrono::DateTime::from_timestamp` and `DateTime::to_rfc3339`:
/// the RFC 3339 text of the instant, or `None` where it is out of range.
/// Within the years 0 to 9999 there is a text, written with four year
/// digits, and `DateTime::parse_from_rfc3339` reads it back as the same
/// instant.
#[verifier::external_body]
pub(crate) fn format_instant(secs: i64) -> (r: Option<String>)
    ensures
        match r {
            Some(s) => rfc3339_text(secs as int) == Some(s@),
            None => rfc3339_text(secs as int).is_none(),
        },
        FIRST_STORABLE <= secs <= LAST_STORABLE ==> r.is_some(),
        FIRST_STORABLE <= secs <= LAST_STORABLE ==> rfc3339_instant(r.unwrap()@) == Some(secs as int),
{
    chrono::DateTime::from_timestamp(secs, 0).map(|d| d.to_rfc3339())
}

/// The closed interval `[now - up_days, now + down_days]`, in seconds.
pub struct SyncWindow {
    pub now: i64,
    pub time_min: i64,
    pub time_max: i64,
}

impl SyncWindow {
    /// Lower bound of the window for `now` and `up_days`.
    pub open spec fn min_of(now: int, up_days: int) -> int {
        now - up_days * SECONDS_PER_DAY
    }

    /// Upper bound of the window for `now` and `down_days`.
    pub open spec fn max_of(now: int, down_days: int) -> int {
        now + down_days * SECONDS_PER_DAY
    }

    /// Whether both bounds are representable as `i64` seconds.
    pub open spec fn fits(now: int, up_days: int, down_days: int) -> bool {
        &&& i64::MIN <= Self::min_of(now, up_days)
        &&& Self::max_of(now, down_days) <= i64::MAX
    }

    /// A window is well formed when its bounds enclose `now`.
    pub open spec fn wf(&self) -> bool {
        self.time_min <= self.now <= self.time_max
    }

    /// Whether the instant `t` lies in the window.
    pub open spec fn holds(&self, t: i64) -> bool {
        self.time_min <= t <= self.time_max
    }

    /// The window around `now`; `None` when a bound does not fit in `i64`.
    pub fn new(now: i64, up_days: u8, down_days: u8) -> (r: Option<SyncWindow>)
        ensures
            r.is_some() == Self::fits(now as int, up_days as int, down_days as int),
            r matches Some(w) ==> {
                &&& w.now == now
                &&& w.time_min == Self::min_of(now as int, up_days as int)
                &&& w.time_max == Self::max_of(now as int, down_days as int)
                &&& w.wf()
            },
    {
        let up: i64 = up_days as i64 * SECONDS_PER_DAY;
        let down: i64 = down_days as i64 * SECONDS_PER_DAY;
        match (now.checked_sub(up), now.checked_add(down)) {
            (Some(lo), Some(hi)) => Some(SyncWindow { now, time_min: lo, time_max: hi }),
            _ => None,
        }
    }

    /// Whether the instant `t` lies in the window.
    pub fn contains(&self, t: i64) -> (r: bool)
        ensures
            r == self.holds(t),
    {
        self.time_min <= t && t <= self.time_max
    }
}

} // verus!
