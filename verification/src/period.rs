//! Statistics periods: the start of today (local midnight) and of this week
//! (Monday midnight) for an instant and the UTC offset in force there.

use chrono::{Datelike, Timelike};
use vstd::prelude::*;

verus! {

/// Seconds in a day.
pub const DAY_SECS: i64 = 86_400;

/// The earliest local time the calendar accepts, in seconds from the Unix
/// epoch: midnight starting 1 January of year -262143, chrono's first date.
pub const MIN_LOCAL_SECS: i64 = -8_334_601_228_800;

/// The latest local time the calendar accepts, in seconds from the Unix
/// epoch: the last second of 31 December of year 262142, chrono's last date.
pub const MAX_LOCAL_SECS: i64 = 8_210_266_876_799;

/// An instant (Unix seconds) together with the UTC offset (seconds east of
/// UTC) of the time zone at that instant.
#[derive(Clone, Copy, Debug, PartialEq, Eq, Structural)]
pub struct ZonedTime {
    /// Unix seconds.
    pub timestamp: i64,
    /// Offset of local time from UTC, in seconds.
    pub utc_offset: i32,
}

/// The local wall-clock reading of the instant, in seconds from the epoch.
pub open spec fn local_secs(t: ZonedTime) -> int {
    t.timestamp + t.utc_offset
}

/// The offset is less than a day and the local time within the calendar's range.
pub open spec fn zoned_ok(t: ZonedTime) -> bool {
    &&& -86_400 < t.utc_offset < 86_400
    &&& MIN_LOCAL_SECS <= local_secs(t) <= MAX_LOCAL_SECS
}

/// Seconds since local midnight.
pub open spec fn secs_from_midnight(local: int) -> int {
    local % 86_400
}

/// Days since the last Monday (the epoch day, 1970-01-01, was a Thursday).
pub open spec fn days_from_monday(local: int) -> int {
    (local / 86_400 + 3) % 7
}

/// Unix seconds of local midnight starting the instant's day.
pub open spec fn day_start_spec(t: ZonedTime) -> int {
    t.timestamp - secs_from_midnight(local_secs(t))
}

/// Unix seconds of local Monday midnight starting the instant's week.
pub open spec fn week_start_spec(t: ZonedTime) -> int {
    day_start_spec(t) - days_from_monday(local_secs(t)) * 86_400
}

/// Calls chrono's `DateTime::from_timestamp` on the local wall-clock seconds
/// and reads `num_seconds_from_midnight` and `weekday().num_days_from_monday()`.
/// Within the range required (chrono's dates run from year -262143 to
/// 262142, and `from_timestamp` gives `None` only beyond them), chrono gives a
/// date whose time of day is the seconds' Euclidean remainder by
/// a day, and whose weekday counts on from Thursday, the epoch's weekday.
#[verifier::external_body]
fn chrono_wall_clock(local: i64) -> (fields: (u32, u32))
    requires
        MIN_LOCAL_SECS <= local <= MAX_LOCAL_SECS,
    ensures
        fields.0 == secs_from_midnight(local as int),
        fields.1 == days_from_monday(local as int),
{
    let at = chrono::DateTime::from_timestamp(local, 0).unwrap();
    (at.num_seconds_from_midnight(), at.weekday().num_days_from_monday())
}

/// Unix seconds of local midnight starting today.
pub fn day_start_secs(now: &ZonedTime) -> (start: i64)
    requires
        zoned_ok(*now),
    ensures
        start == day_start_spec(*now),
        start <= now.timestamp < start + 86_400,
        (start + now.utc_offset) % 86_400 == 0,
{
    let local = now.timestamp + now.utc_offset as i64;
    let (from_midnight, _) = chrono_wall_clock(local);
    now.timestamp - from_midnight as i64
}

/// Unix seconds of local Monday midnight starting this week (a Sunday late
/// at night still belongs to the week that began the Monday before).
pub fn week_start_secs(now: &ZonedTime) -> (start: i64)
    requires
        zoned_ok(*now),
    ensures
        start == week_start_spec(*now),
        start <= day_start_spec(*now),
        start <= now.timestamp < start + 7 * 86_400,
        (start + now.utc_offset) % 86_400 == 0,
        days_from_monday(start + now.utc_offset) == 0,
{
    let local = now.timestamp + now.utc_offset as i64;
    let (from_midnight, from_monday) = chrono_wall_clock(local);
    let day_start = now.timestamp - from_midnight as i64;
    proof {
        let l = local as int;
        let d = l / 86_400;
        assert(l == d * 86_400 + l % 86_400);
        let w = (d + 3) % 7;
        let s = day_start - w * 86_400 + now.utc_offset;
        assert(s == (d - w) * 86_400) by (nonlinear_arith)
            requires
                s == day_start - w * 86_400 + now.utc_offset,
                day_start == now.timestamp - l % 86_400,
                l == now.timestamp + now.utc_offset,
                l == d * 86_400 + l % 86_400,
        ;
        assert(s % 86_400 == 0 && s / 86_400 == d - w) by (nonlinear_arith)
            requires
                s == (d - w) * 86_400,
        ;
        assert((d - w + 3) % 7 == 0) by (nonlinear_arith)
            requires
                w == (d + 3) % 7,
        ;
    }
    day_start - from_monday as i64 * 86_400
}

} // verus!
