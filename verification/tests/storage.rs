use chrono::{FixedOffset, TimeZone};

use capsule_pulse::period::{day_start_secs, ZonedTime};
use capsule_pulse::storage::{close_outcome, events_from_rows, Storage, StorageError};
use capsule_pulse::workday::EventKind;

fn tz() -> FixedOffset {
    FixedOffset::east_opt(8 * 3600).unwrap()
}

fn now() -> ZonedTime {
    let t = tz().with_ymd_and_hms(2026, 9, 9, 12, 0, 0).unwrap();
    ZonedTime {
        timestamp: t.timestamp(),
        utc_offset: 8 * 3600,
    }
}

fn ts(y: i32, m: u32, d: u32, h: u32) -> i64 {
    tz().with_ymd_and_hms(y, m, d, h, 0, 0).unwrap().timestamp()
}

#[test]
fn empty_storage_totals_are_zero() {
    let mut s = Storage::open_in_memory().unwrap();
    assert_eq!(s.today_total(&now()).unwrap(), 0);
    assert_eq!(s.week_total(&now()).unwrap(), 0);
    assert_eq!(s.all_total().unwrap(), 0);
}

#[test]
fn aggregates_respect_period_boundaries() {
    let mut s = Storage::open_in_memory().unwrap();
    s.add_session(ts(2026, 8, 31, 10), 100).unwrap();
    s.add_session(ts(2026, 9, 7, 9), 200).unwrap();
    s.add_session(ts(2026, 9, 8, 9), 400).unwrap();
    s.add_session(ts(2026, 9, 9, 8), 300).unwrap();

    assert_eq!(s.today_total(&now()).unwrap(), 300);
    assert_eq!(s.week_total(&now()).unwrap(), 900);
    assert_eq!(s.all_total().unwrap(), 1000);
}

#[test]
fn record_at_exact_boundary_is_included() {
    let mut s = Storage::open_in_memory().unwrap();
    let boundary = day_start_secs(&now());
    s.add_session(boundary, 60).unwrap();
    assert_eq!(s.today_total(&now()).unwrap(), 60);
}

#[test]
fn session_count_tracks_inserts() {
    let mut s = Storage::open_in_memory().unwrap();
    assert_eq!(s.session_count().unwrap(), 0);
    s.add_session(1_000, 30).unwrap();
    s.add_session(2_000, 45).unwrap();
    assert_eq!(s.session_count().unwrap(), 2);
}

#[test]
fn workday_open_close_latest_roundtrip() {
    let mut s = Storage::open_in_memory().unwrap();
    assert_eq!(s.workday_latest().unwrap(), None);
    let id = s.workday_open(1_000).unwrap();
    assert_eq!(id, 1);
    assert_eq!(s.workday_latest().unwrap(), Some((1, 1_000, None)));
    s.workday_close(id, 2_000).unwrap();
    assert_eq!(s.workday_latest().unwrap(), Some((1, 1_000, Some(2_000))));
}

#[test]
fn workday_latest_picks_newest_row() {
    let mut s = Storage::open_in_memory().unwrap();
    let first = s.workday_open(1_000).unwrap();
    s.workday_close(first, 2_000).unwrap();
    let second = s.workday_open(9_000).unwrap();
    assert_eq!(second, 2);
    assert_eq!(s.workday_latest().unwrap(), Some((2, 9_000, None)));
}

#[test]
fn workday_close_missing_id_errors() {
    let mut s = Storage::open_in_memory().unwrap();
    assert!(matches!(
        s.workday_close(99, 2_000),
        Err(StorageError::WorkdayMissing(99))
    ));
}

#[test]
fn events_roundtrip_typed_and_ordered() {
    let mut s = Storage::open_in_memory().unwrap();
    s.insert_event(3_000, EventKind::SegmentEnd).unwrap();
    s.insert_event(1_000, EventKind::ClockIn).unwrap();
    s.insert_event(2_000, EventKind::SegmentStart).unwrap();
    let rows = s.events_between(0, 9_000).unwrap();
    assert_eq!(
        rows,
        vec![
            (1_000, EventKind::ClockIn),
            (2_000, EventKind::SegmentStart),
            (3_000, EventKind::SegmentEnd),
        ]
    );
}

#[test]
fn events_between_half_open_bounds() {
    let mut s = Storage::open_in_memory().unwrap();
    for at in [100, 200, 300] {
        s.insert_event(at, EventKind::SegmentStart).unwrap();
    }
    assert_eq!(s.events_between(100, 300).unwrap().len(), 2, "右端点不含");
    assert_eq!(s.events_between(100, 301).unwrap().len(), 3, "左端点含");
    assert_eq!(s.events_between(301, 400).unwrap().len(), 0);
}

#[test]
fn events_unknown_kind_is_strict_error() {
    let mut s = Storage::open_in_memory().unwrap();
    s.insert_raw_event(1_000, "nonsense").unwrap();
    match s.events_between(0, 2_000) {
        Err(StorageError::UnknownEventKind(k)) => assert_eq!(k, "nonsense"),
        other => panic!("期望 UnknownEventKind，实际 {other:?}"),
    }
}

// ---- further cases: edges, laws and exact values ----

#[test]
fn close_outcome_maps_affected_rows() {
    assert!(matches!(close_outcome(5, 0), Err(StorageError::WorkdayMissing(5))));
    assert!(close_outcome(5, 1).is_ok());
}

#[test]
fn events_from_rows_stops_at_first_unknown() {
    let ok = events_from_rows(vec![(1, "clock_in".to_string()), (2, "segment_end".to_string())]).unwrap();
    assert_eq!(ok, vec![(1, EventKind::ClockIn), (2, EventKind::SegmentEnd)]);
    match events_from_rows(vec![
        (1, "clock_out".to_string()),
        (2, "bogus".to_string()),
        (3, "also_bogus".to_string()),
    ]) {
        Err(StorageError::UnknownEventKind(k)) => assert_eq!(k, "bogus"),
        other => panic!("unexpected {other:?}"),
    }
}

#[test]
fn same_instant_events_keep_recording_order() {
    let mut s = Storage::open_in_memory().unwrap();
    s.insert_event(500, EventKind::SegmentEnd).unwrap();
    s.insert_event(500, EventKind::ClockOut).unwrap();
    assert_eq!(
        s.events_between(0, 1_000).unwrap(),
        vec![(500, EventKind::SegmentEnd), (500, EventKind::ClockOut)]
    );
}

#[test]
fn paired_writes_commit_together_or_not_at_all() {
    let mut s = Storage::open_in_memory().unwrap();
    let id = s.workday_open_with_event(1_000).unwrap();
    assert_eq!(s.workday_latest().unwrap(), Some((id, 1_000, None)));
    assert_eq!(
        s.events_between(0, i64::MAX).unwrap(),
        vec![(1_000, EventKind::ClockIn)]
    );
    assert!(matches!(
        s.workday_close_with_event(id + 7, 2_000, EventKind::ClockOut),
        Err(StorageError::WorkdayMissing(missing)) if missing == id + 7
    ));
    assert_eq!(s.events_between(0, i64::MAX).unwrap().len(), 1, "no orphan clock-out");
    s.workday_close_with_event(id, 2_000, EventKind::ClockOut).unwrap();
    assert_eq!(s.workday_latest().unwrap(), Some((id, 1_000, Some(2_000))));
    s.record_session_with_event(Some((1_500, 60)), 1_560, EventKind::SegmentEnd).unwrap();
    s.record_session_with_event(None, 1_600, EventKind::SegmentEnd).unwrap();
    assert_eq!(s.session_count().unwrap(), 1);
    assert_eq!(s.all_total().unwrap(), 60);
    assert_eq!(s.events_between(1_500, 1_700).unwrap().len(), 2);
}
