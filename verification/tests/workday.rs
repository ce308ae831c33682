use capsule_pulse::workday::{
    auto_out_due, reduce_day, BlockKind, DutySpan, EventKind, WorkdayError, WorkdayState,
};

const DAY: i64 = 864_000;
const HOUR: i64 = 3_600;

fn ev(at: i64, kind: EventKind) -> (i64, EventKind) {
    (at, kind)
}

#[test]
fn clock_in_from_off_enters_on_duty() {
    let mut s = WorkdayState::Off;
    s.clock_in(1_000, 7).unwrap();
    assert_eq!(
        s,
        WorkdayState::OnDuty {
            clock_in_at: 1_000,
            id: 7
        }
    );
    assert!(s.is_on_duty());
}

#[test]
fn clock_in_while_on_duty_errors() {
    let mut s = WorkdayState::Off;
    s.clock_in(1_000, 7).unwrap();
    assert_eq!(s.clock_in(2_000, 8), Err(WorkdayError::AlreadyOnDuty));
    assert_eq!(
        s,
        WorkdayState::OnDuty {
            clock_in_at: 1_000,
            id: 7
        }
    );
}

#[test]
fn clock_out_returns_span_and_exits() {
    let mut s = WorkdayState::Off;
    s.clock_in(1_000, 7).unwrap();
    assert_eq!(
        s.clock_out(),
        Ok(DutySpan {
            clock_in_at: 1_000,
            id: 7
        })
    );
    assert_eq!(s, WorkdayState::Off);
    assert!(!s.is_on_duty());
}

#[test]
fn clock_out_while_off_errors() {
    let mut s = WorkdayState::Off;
    assert_eq!(s.clock_out(), Err(WorkdayError::NotOnDuty));
}

#[test]
fn from_latest_restores_open_duty() {
    assert_eq!(
        WorkdayState::from_latest(Some((7, 1_000, None))),
        WorkdayState::OnDuty {
            clock_in_at: 1_000,
            id: 7
        }
    );
    assert_eq!(
        WorkdayState::from_latest(Some((7, 1_000, Some(2_000)))),
        WorkdayState::Off
    );
    assert_eq!(WorkdayState::from_latest(None), WorkdayState::Off);
}

#[test]
fn event_kind_str_roundtrip() {
    let all = [
        EventKind::ClockIn,
        EventKind::ClockOut,
        EventKind::AutoClockOut,
        EventKind::SegmentStart,
        EventKind::SegmentEnd,
    ];
    for kind in all {
        assert_eq!(EventKind::parse(kind.as_str()), Some(kind));
    }
    assert_ne!(EventKind::ClockIn.as_str(), EventKind::ClockOut.as_str());
}

#[test]
fn parse_unknown_is_none() {
    assert_eq!(EventKind::parse("nonsense"), None);
    assert_eq!(EventKind::parse(""), None);
}

#[test]
fn auto_out_due_backfills_at_threshold() {
    let in_at = 10_000;
    assert_eq!(auto_out_due(in_at + 8 * HOUR - 1, in_at, 8), None);
    assert_eq!(
        auto_out_due(in_at + 8 * HOUR, in_at, 8),
        Some(in_at + 8 * HOUR)
    );
    assert_eq!(
        auto_out_due(in_at + 9 * HOUR, in_at, 8),
        Some(in_at + 8 * HOUR),
        "迟到发现仍回填至上班 + N"
    );
}

#[test]
fn empty_day_reduces_to_zero() {
    let sum = reduce_day(&[], DAY, DAY + 86_400, DAY + 12 * HOUR);
    assert_eq!(sum.duty_secs, 0);
    assert_eq!(sum.work_secs, 0);
    assert_eq!(sum.rest_secs, 0);
    assert!(sum.blocks.is_empty());
    assert_eq!(sum.duty_started_at, None);
    assert_eq!(sum.duty_ended_at, None);
}

#[test]
fn continuous_work_has_no_rest() {
    let events = [
        ev(DAY + 9 * HOUR, EventKind::ClockIn),
        ev(DAY + 9 * HOUR, EventKind::SegmentStart),
        ev(DAY + 17 * HOUR, EventKind::SegmentEnd),
        ev(DAY + 17 * HOUR, EventKind::ClockOut),
    ];
    let sum = reduce_day(&events, DAY, DAY + 86_400, DAY + 20 * HOUR);
    assert_eq!(sum.duty_secs, 8 * HOUR);
    assert_eq!(sum.work_secs, 8 * HOUR);
    assert_eq!(sum.rest_secs, 0);
    assert_eq!(sum.blocks.len(), 1);
    assert_eq!(sum.blocks[0].kind, BlockKind::Work);
    assert_eq!(sum.blocks[0].start, DAY + 9 * HOUR);
    assert_eq!(sum.blocks[0].end, DAY + 17 * HOUR);
    assert_eq!(sum.duty_started_at, Some(DAY + 9 * HOUR));
    assert_eq!(sum.duty_ended_at, Some(DAY + 17 * HOUR));
}

#[test]
fn duty_gap_becomes_rest_block() {
    let events = [
        ev(DAY + 9 * HOUR, EventKind::ClockIn),
        ev(DAY + 9 * HOUR, EventKind::SegmentStart),
        ev(DAY + 12 * HOUR, EventKind::SegmentEnd),
        ev(DAY + 17 * HOUR, EventKind::ClockOut),
    ];
    let sum = reduce_day(&events, DAY, DAY + 86_400, DAY + 20 * HOUR);
    assert_eq!(sum.duty_secs, 8 * HOUR);
    assert_eq!(sum.work_secs, 3 * HOUR);
    assert_eq!(sum.rest_secs, 5 * HOUR);
    assert_eq!(sum.blocks.len(), 2);
    assert_eq!(sum.blocks[0].kind, BlockKind::Work);
    assert_eq!(sum.blocks[1].kind, BlockKind::Rest);
    assert_eq!(sum.blocks[1].start, DAY + 12 * HOUR);
    assert_eq!(sum.blocks[1].end, DAY + 17 * HOUR);
}

#[test]
fn multiple_segments_alternate_blocks() {
    let events = [
        ev(DAY + 9 * HOUR, EventKind::ClockIn),
        ev(DAY + 9 * HOUR, EventKind::SegmentStart),
        ev(DAY + 10 * HOUR, EventKind::SegmentEnd),
        ev(DAY + 11 * HOUR, EventKind::SegmentStart),
        ev(DAY + 12 * HOUR, EventKind::SegmentEnd),
        ev(DAY + 17 * HOUR, EventKind::ClockOut),
    ];
    let sum = reduce_day(&events, DAY, DAY + 86_400, DAY + 20 * HOUR);
    assert_eq!(sum.duty_secs, 8 * HOUR);
    assert_eq!(sum.work_secs, 2 * HOUR);
    assert_eq!(sum.rest_secs, 6 * HOUR);
    let kinds: Vec<BlockKind> = sum.blocks.iter().map(|b| b.kind).collect();
    assert_eq!(
        kinds,
        [
            BlockKind::Work,
            BlockKind::Rest,
            BlockKind::Work,
            BlockKind::Rest
        ]
    );
}

#[test]
fn open_duty_closes_at_now() {
    let events = [
        ev(DAY + 9 * HOUR, EventKind::ClockIn),
        ev(DAY + 9 * HOUR, EventKind::SegmentStart),
    ];
    let sum = reduce_day(&events, DAY, DAY + 86_400, DAY + 10 * HOUR);
    assert_eq!(sum.duty_secs, HOUR);
    assert_eq!(sum.work_secs, HOUR);
    assert_eq!(sum.duty_ended_at, None);
    let sum = reduce_day(&events, DAY, DAY + 86_400, DAY + 40 * HOUR);
    assert_eq!(sum.duty_secs, 15 * HOUR);
    assert_eq!(sum.duty_ended_at, None);
}

#[test]
fn cross_midnight_splits_by_day() {
    let events = [
        ev(DAY + 23 * HOUR, EventKind::ClockIn),
        ev(DAY + 23 * HOUR, EventKind::SegmentStart),
        ev(DAY + 27 * HOUR, EventKind::SegmentEnd),
        ev(DAY + 31 * HOUR, EventKind::ClockOut),
    ];
    let day1 = reduce_day(&events, DAY, DAY + 86_400, DAY + 40 * HOUR);
    assert_eq!(day1.duty_secs, HOUR);
    assert_eq!(day1.work_secs, HOUR);
    assert_eq!(day1.rest_secs, 0);
    assert_eq!(day1.duty_started_at, Some(DAY + 23 * HOUR));
    assert_eq!(day1.duty_ended_at, Some(DAY + 86_400));
    let day2 = reduce_day(&events, DAY + 86_400, DAY + 2 * 86_400, DAY + 40 * HOUR);
    assert_eq!(day2.duty_secs, 7 * HOUR);
    assert_eq!(day2.work_secs, 3 * HOUR);
    assert_eq!(day2.rest_secs, 4 * HOUR);
    assert_eq!(day2.duty_started_at, Some(DAY + 86_400));
    assert_eq!(day2.duty_ended_at, Some(DAY + 31 * HOUR));
    let total = day1.duty_secs + day2.duty_secs;
    assert_eq!(total, 8 * HOUR);
    assert_eq!(day1.work_secs + day2.work_secs, 4 * HOUR);
}

#[test]
fn auto_out_backfill_clips_to_out_at() {
    let out_at = DAY + 17 * HOUR;
    let events = [
        ev(DAY + 9 * HOUR, EventKind::ClockIn),
        ev(DAY + 9 * HOUR, EventKind::SegmentStart),
        ev(out_at, EventKind::SegmentEnd),
        ev(out_at, EventKind::AutoClockOut),
    ];
    let sum = reduce_day(&events, DAY, DAY + 86_400, DAY + 40 * HOUR);
    assert_eq!(sum.duty_secs, 8 * HOUR);
    assert_eq!(sum.work_secs, 8 * HOUR);
    assert_eq!(sum.rest_secs, 0);
    assert_eq!(sum.blocks.last().unwrap().end, out_at);
    assert_eq!(sum.duty_ended_at, Some(out_at));
}

#[test]
fn zero_length_duty_is_dropped() {
    let events = [
        ev(DAY + 9 * HOUR, EventKind::ClockIn),
        ev(DAY + 9 * HOUR, EventKind::ClockOut),
    ];
    let sum = reduce_day(&events, DAY, DAY + 86_400, DAY + 20 * HOUR);
    assert_eq!(sum.duty_secs, 0);
    assert!(sum.blocks.is_empty());
    assert_eq!(sum.duty_started_at, None);
}

#[test]
fn duty_without_segments_is_all_rest() {
    let events = [
        ev(DAY + 9 * HOUR, EventKind::ClockIn),
        ev(DAY + 17 * HOUR, EventKind::ClockOut),
    ];
    let sum = reduce_day(&events, DAY, DAY + 86_400, DAY + 20 * HOUR);
    assert_eq!(sum.duty_secs, 8 * HOUR);
    assert_eq!(sum.work_secs, 0);
    assert_eq!(sum.rest_secs, 8 * HOUR);
    assert_eq!(sum.blocks.len(), 1);
    assert_eq!(sum.blocks[0].kind, BlockKind::Rest);
}

#[test]
fn multiple_duty_windows_per_day() {
    let events = [
        ev(DAY + 9 * HOUR, EventKind::ClockIn),
        ev(DAY + 10 * HOUR, EventKind::ClockOut),
        ev(DAY + 11 * HOUR, EventKind::ClockIn),
    ];
    let sum = reduce_day(&events, DAY, DAY + 86_400, DAY + 12 * HOUR);
    assert_eq!(sum.duty_secs, 2 * HOUR);
    assert_eq!(sum.rest_secs, 2 * HOUR);
    assert_eq!(sum.duty_started_at, Some(DAY + 9 * HOUR));
    assert_eq!(sum.duty_ended_at, None, "尚有未关窗口（在岗中）");
    assert_eq!(sum.blocks.len(), 2);
}

// ---- further cases: edges, laws and exact values ----

/// Overlapping and touching segments inside a duty window merge into one
/// work block; the blocks tile the window and alternate.
#[test]
fn overlapping_segments_merge_and_blocks_tile() {
    let events = [
        ev(DAY + 9 * HOUR, EventKind::ClockIn),
        ev(DAY + 9 * HOUR, EventKind::SegmentStart),
        ev(DAY + 10 * HOUR, EventKind::SegmentEnd),
        ev(DAY + 10 * HOUR, EventKind::SegmentStart),
        ev(DAY + 11 * HOUR, EventKind::SegmentEnd),
        ev(DAY + 13 * HOUR, EventKind::SegmentStart),
        ev(DAY + 14 * HOUR, EventKind::SegmentEnd),
        ev(DAY + 15 * HOUR, EventKind::ClockOut),
    ];
    let sum = reduce_day(&events, DAY, DAY + 86_400, DAY + 20 * HOUR);
    assert_eq!(sum.duty_secs, 6 * HOUR);
    assert_eq!(sum.work_secs, 3 * HOUR);
    assert_eq!(sum.rest_secs, 3 * HOUR);
    let shape: Vec<(i64, i64, BlockKind)> = sum.blocks.iter().map(|b| (b.start, b.end, b.kind)).collect();
    assert_eq!(
        shape,
        vec![
            (DAY + 9 * HOUR, DAY + 11 * HOUR, BlockKind::Work),
            (DAY + 11 * HOUR, DAY + 13 * HOUR, BlockKind::Rest),
            (DAY + 13 * HOUR, DAY + 14 * HOUR, BlockKind::Work),
            (DAY + 14 * HOUR, DAY + 15 * HOUR, BlockKind::Rest),
        ]
    );
    for pair in sum.blocks.windows(2) {
        assert_eq!(pair[0].end, pair[1].start);
        assert_ne!(pair[0].kind, pair[1].kind);
    }
}

/// An orphan clock-out (the shift began the day before) counts from the
/// day's start; a second clock-in while on duty changes nothing.
#[test]
fn orphan_clock_out_and_repeated_clock_in() {
    let events = [
        ev(DAY + 2 * HOUR, EventKind::ClockOut),
        ev(DAY + 9 * HOUR, EventKind::ClockIn),
        ev(DAY + 10 * HOUR, EventKind::ClockIn),
        ev(DAY + 12 * HOUR, EventKind::ClockOut),
    ];
    let sum = reduce_day(&events, DAY, DAY + 86_400, DAY + 20 * HOUR);
    assert_eq!(sum.duty_secs, 5 * HOUR);
    assert_eq!(sum.duty_started_at, Some(DAY));
    assert_eq!(sum.duty_ended_at, Some(DAY + 12 * HOUR));
    assert_eq!(sum.work_secs, 0);
}

/// A clock-in after now yields no open window and no blocks.
#[test]
fn clock_in_after_now_is_not_counted() {
    let events = [ev(DAY + 15 * HOUR, EventKind::ClockIn)];
    let sum = reduce_day(&events, DAY, DAY + 86_400, DAY + 12 * HOUR);
    assert_eq!(sum.duty_secs, 0);
    assert_eq!(sum.duty_started_at, None);
    assert_eq!(sum.duty_ended_at, None);
    assert!(sum.blocks.is_empty());
}

#[test]
fn reduce_day_over_a_huge_span() {
    let events = vec![(10, EventKind::ClockIn), (20, EventKind::ClockOut)];
    let sum = reduce_day(&events, 0, 1 << 62, 30);
    assert_eq!(sum.duty_secs, 10);
    assert_eq!(sum.rest_secs, 10);
    assert_eq!(sum.duty_started_at, Some(10));
    assert_eq!(sum.duty_ended_at, Some(20));
}

#[test]
fn overnight_shift_with_segment_splits_duty_work_and_rest() {
    let midnight = 2 * 86_400;
    let events = vec![
        (midnight - 3_600, EventKind::ClockIn),
        (midnight - 1_800, EventKind::SegmentStart),
        (midnight + 900, EventKind::SegmentEnd),
        (midnight + 3_600, EventKind::ClockOut),
    ];
    let first = reduce_day(&events, midnight - 86_400, midnight, midnight + 86_400);
    let second = reduce_day(&events, midnight, midnight + 86_400, midnight + 86_400);
    assert_eq!(first.duty_secs + second.duty_secs, 7_200);
    assert_eq!(first.work_secs + second.work_secs, 2_700);
    assert_eq!(first.rest_secs + second.rest_secs, 4_500);
    assert_eq!((first.work_secs, second.work_secs), (1_800, 900));
}

#[test]
fn split_days_add_up_for_a_longer_stream() {
    let m = 3 * 86_400;
    let events = vec![
        (m - 30_000, EventKind::ClockIn),
        (m - 29_000, EventKind::SegmentStart),
        (m - 20_000, EventKind::SegmentEnd),
        (m - 15_000, EventKind::ClockOut),
        (m - 9_000, EventKind::ClockIn),
        (m - 8_000, EventKind::SegmentStart),
        (m - 5_000, EventKind::SegmentEnd),
        (m - 4_000, EventKind::SegmentStart),
        (m + 2_000, EventKind::SegmentEnd),
        (m + 2_000, EventKind::SegmentStart),
        (m + 6_000, EventKind::SegmentEnd),
        (m + 7_000, EventKind::AutoClockOut),
    ];
    let now = m + 50_000;
    let first = reduce_day(&events, m - 86_400, m, now);
    let second = reduce_day(&events, m, m + 86_400, now);
    let whole = reduce_day(&events, m - 86_400, m + 86_400, now);
    assert_eq!(first.duty_secs + second.duty_secs, whole.duty_secs);
    assert_eq!(first.work_secs + second.work_secs, whole.work_secs);
    assert_eq!(first.rest_secs + second.rest_secs, whole.rest_secs);
    assert_eq!(whole.duty_secs, 15_000 + 16_000);
    assert_eq!(whole.work_secs, 9_000 + 3_000 + 10_000);
}

#[test]
fn split_days_add_up_when_now_precedes_later_events() {
    let m = 3 * 86_400;
    let events = vec![
        (m - 6_000, EventKind::ClockIn),
        (m - 5_000, EventKind::SegmentStart),
        (m - 1_000, EventKind::SegmentEnd),
        (m + 500, EventKind::SegmentStart),
        (m + 9_000, EventKind::SegmentEnd),
        (m + 9_500, EventKind::SegmentStart),
    ];
    // The duty is still open and is closed at `now`, before the later events.
    let now = m + 3_000;
    let first = reduce_day(&events, m - 86_400, m, now);
    let second = reduce_day(&events, m, m + 86_400, now);
    let whole = reduce_day(&events, m - 86_400, m + 86_400, now);
    assert_eq!((first.duty_secs, second.duty_secs, whole.duty_secs), (6_000, 3_000, 9_000));
    assert_eq!((first.work_secs, second.work_secs, whole.work_secs), (4_000, 2_500, 6_500));
    assert_eq!(first.rest_secs + second.rest_secs, whole.rest_secs);
    assert_eq!(whole.rest_secs, 2_500);
}
