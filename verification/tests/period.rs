use chrono::{FixedOffset, TimeZone};

use capsule_pulse::period::{day_start_secs, week_start_secs, ZonedTime, MAX_LOCAL_SECS, MIN_LOCAL_SECS};

fn tz() -> FixedOffset {
    FixedOffset::east_opt(8 * 3600).unwrap()
}

fn at(y: i32, m: u32, d: u32, h: u32, mi: u32, s: u32) -> chrono::DateTime<FixedOffset> {
    tz().with_ymd_and_hms(y, m, d, h, mi, s).unwrap()
}

fn zoned(t: &chrono::DateTime<FixedOffset>) -> ZonedTime {
    ZonedTime {
        timestamp: t.timestamp(),
        utc_offset: t.offset().local_minus_utc(),
    }
}

#[test]
fn day_start_is_local_midnight() {
    let before = at(2026, 9, 8, 23, 59, 59);
    let after = at(2026, 9, 9, 0, 0, 1);
    assert_eq!(day_start_secs(&zoned(&before)), at(2026, 9, 8, 0, 0, 0).timestamp());
    assert_eq!(day_start_secs(&zoned(&after)), at(2026, 9, 9, 0, 0, 0).timestamp());
}

#[test]
fn week_start_is_monday_midnight() {
    let monday = at(2026, 9, 7, 8, 0, 0);
    let wednesday = at(2026, 9, 9, 12, 0, 0);
    let sunday_late = at(2026, 9, 13, 23, 59, 59);
    let expected = at(2026, 9, 7, 0, 0, 0).timestamp();
    assert_eq!(week_start_secs(&zoned(&monday)), expected);
    assert_eq!(week_start_secs(&zoned(&wednesday)), expected);
    assert_eq!(week_start_secs(&zoned(&sunday_late)), expected);
}

#[test]
fn week_boundary_flips_at_monday_midnight() {
    let sun_last_tick = at(2026, 9, 13, 23, 59, 59);
    let mon_first_tick = at(2026, 9, 14, 0, 0, 0);
    assert_eq!(
        week_start_secs(&zoned(&sun_last_tick)),
        at(2026, 9, 7, 0, 0, 0).timestamp()
    );
    assert_eq!(
        week_start_secs(&zoned(&mon_first_tick)),
        at(2026, 9, 14, 0, 0, 0).timestamp()
    );
}

#[test]
fn day_start_at_exact_midnight() {
    let exact = at(2026, 9, 9, 0, 0, 0);
    assert_eq!(day_start_secs(&zoned(&exact)), exact.timestamp());
}

// ---- further cases: edges, laws and exact values ----

/// Before the epoch and west of UTC: midnight and Monday still land right.
#[test]
fn periods_before_epoch_and_west_of_utc() {
    let west = FixedOffset::west_opt(5 * 3600).unwrap();
    let t = west.with_ymd_and_hms(1969, 12, 31, 3, 0, 0).unwrap();
    let z = ZonedTime { timestamp: t.timestamp(), utc_offset: -5 * 3600 };
    assert_eq!(
        day_start_secs(&z),
        west.with_ymd_and_hms(1969, 12, 31, 0, 0, 0).unwrap().timestamp()
    );
    // 1969-12-31 was a Wednesday; its week began Monday 1969-12-29.
    assert_eq!(
        week_start_secs(&z),
        west.with_ymd_and_hms(1969, 12, 29, 0, 0, 0).unwrap().timestamp()
    );
}

#[test]
fn calendar_range_ends_are_accepted() {
    let last = ZonedTime { timestamp: MAX_LOCAL_SECS, utc_offset: 0 };
    assert_eq!(day_start_secs(&last), MAX_LOCAL_SECS - 86_399);
    let first = ZonedTime { timestamp: MIN_LOCAL_SECS, utc_offset: 0 };
    assert_eq!(day_start_secs(&first), MIN_LOCAL_SECS);
    assert!(week_start_secs(&first) <= MIN_LOCAL_SECS);
}
