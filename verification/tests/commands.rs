use std::cell::Cell;
use std::rc::Rc;

use chrono::{Local, Offset};

use capsule_pulse::commands::reminder::{commit_settings, get_settings_inner};
use capsule_pulse::commands::session::{
    pause_session, pause_session_at, persist_before_quit, persist_segment_at, restart_session,
    resume_session, segment_row_at, start_session, state_key, status_at, status_snapshot,
    toggle_session,
};
use capsule_pulse::commands::stats::stats_snapshot;
use capsule_pulse::commands::workday::{
    auto_clock_out_at, auto_out_deadline, checked_offset, clock_in_inner, clock_out_inner,
    close_running_segment, day_bounds, day_detail_from, day_detail_inner, day_fetch_start,
    require_on_duty, shifted_instant, try_auto_clock_out, week_detail_inner, MAX_DAY_OFFSET,
};
use capsule_pulse::commands::{wall_now_secs, AppContext, CommandError};
use capsule_pulse::duration::Duration;
use capsule_pulse::period::{day_start_secs, week_start_secs, ZonedTime};
use capsule_pulse::reminder::ReminderFire;
use capsule_pulse::session::{Clock, SessionError, SessionState, TimerAction, WorkSession};
use capsule_pulse::settings::{ReminderSettings, SettingsError};
use capsule_pulse::storage::Storage;
use capsule_pulse::workday::{EventKind, WorkdayError, WorkdayState};

#[derive(Clone)]
struct FakeClock {
    offset: Rc<Cell<Duration>>,
}

impl FakeClock {
    fn new() -> Self {
        Self {
            offset: Rc::new(Cell::new(Duration::zero())),
        }
    }

    fn advance(&self, d: Duration) {
        self.offset.set(self.offset.get().saturating_add(d));
    }
}

impl Clock for FakeClock {
    fn now(&self) -> Duration {
        self.offset.get()
    }
}

fn ctx(clock: FakeClock) -> AppContext<FakeClock> {
    AppContext {
        workday: WorkdayState::Off,
        session: WorkSession::new(clock),
        storage: Storage::open_in_memory().unwrap(),
        settings: ReminderSettings::default(),
        fire: ReminderFire::default(),
        settings_path: String::new(),
    }
}

fn begin_duty(ctx: &mut AppContext<FakeClock>) {
    clock_in_inner(ctx, 1_000).unwrap();
}

fn secs(n: u64) -> Duration {
    Duration::from_secs(n)
}

fn local_now() -> ZonedTime {
    let now = Local::now();
    ZonedTime {
        timestamp: now.timestamp(),
        utc_offset: now.offset().fix().local_minus_utc(),
    }
}

fn event_kinds(ctx: &mut AppContext<FakeClock>) -> Vec<EventKind> {
    ctx.storage
        .events_between(0, i64::MAX)
        .unwrap()
        .into_iter()
        .map(|(_, kind)| kind)
        .collect()
}

#[test]
fn commands_state_key_maps_three_states() {
    assert_eq!(state_key(&SessionState::Idle), "idle");
    assert_eq!(
        state_key(&SessionState::Running {
            start: Duration::zero()
        }),
        "running"
    );
    assert_eq!(
        state_key(&SessionState::Paused {
            elapsed: Duration::zero()
        }),
        "paused"
    );
}

#[test]
fn session_state_key_maps_three_states() {
    assert_eq!(state_key(&SessionState::Idle), "idle");
    assert_eq!(
        state_key(&SessionState::Running {
            start: Duration::zero()
        }),
        "running"
    );
    assert_eq!(
        state_key(&SessionState::Paused {
            elapsed: Duration::zero()
        }),
        "paused"
    );
}

#[test]
fn timer_actions_off_duty_are_rejected() {
    let mut ctx = ctx(FakeClock::new());
    assert!(matches!(
        start_session(&mut ctx),
        Err(CommandError::Workday(WorkdayError::NotOnDuty))
    ));
    assert!(matches!(
        restart_session(&mut ctx),
        Err(CommandError::Workday(WorkdayError::NotOnDuty))
    ));
    assert_eq!(ctx.storage.session_count().unwrap(), 0);
    assert_eq!(ctx.storage.events_between(0, i64::MAX).unwrap().len(), 0);
}

#[test]
fn status_reports_on_duty_flag() {
    let mut ctx = ctx(FakeClock::new());
    assert!(!status_snapshot(&mut ctx).0.on_duty);
    begin_duty(&mut ctx);
    assert!(status_snapshot(&mut ctx).0.on_duty);
}

#[test]
fn timer_actions_mark_segment_events() {
    let clock = FakeClock::new();
    let mut ctx = ctx(clock.clone());
    begin_duty(&mut ctx);
    start_session(&mut ctx).unwrap();
    clock.advance(secs(30));
    pause_session(&mut ctx).unwrap();
    resume_session(&mut ctx).unwrap();
    assert_eq!(
        event_kinds(&mut ctx),
        [
            EventKind::ClockIn,
            EventKind::SegmentStart,
            EventKind::SegmentEnd,
            EventKind::SegmentStart
        ],
        "begin_duty 的 clock_in + 段起止留痕"
    );
}

#[test]
fn session_start_pause_persists_and_reports() {
    let clock = FakeClock::new();
    let mut ctx = ctx(clock.clone());
    begin_duty(&mut ctx);
    start_session(&mut ctx).unwrap();
    clock.advance(secs(100));
    pause_session(&mut ctx).unwrap();

    assert_eq!(ctx.storage.session_count().unwrap(), 1);
    assert_eq!(ctx.storage.all_total().unwrap(), 100);
    assert_eq!(status_snapshot(&mut ctx).0.state, "paused");
}

#[test]
fn session_zero_segment_skips_persist() {
    let mut ctx = ctx(FakeClock::new());
    begin_duty(&mut ctx);
    start_session(&mut ctx).unwrap();
    pause_session(&mut ctx).unwrap();
    assert_eq!(ctx.storage.session_count().unwrap(), 0);
}

#[test]
fn session_invalid_forwarding_errors() {
    let mut ctx = ctx(FakeClock::new());
    begin_duty(&mut ctx);
    assert!(matches!(
        pause_session(&mut ctx),
        Err(CommandError::Session(SessionError::NotRunning))
    ));
    assert!(matches!(
        resume_session(&mut ctx),
        Err(CommandError::Session(SessionError::NotPaused))
    ));
    start_session(&mut ctx).unwrap();
    assert!(matches!(
        start_session(&mut ctx),
        Err(CommandError::Session(SessionError::NotIdle))
    ));
    assert!(pause_session(&mut ctx).is_ok());
    assert!(matches!(
        start_session(&mut ctx),
        Err(CommandError::Session(SessionError::NotIdle))
    ));
    assert!(resume_session(&mut ctx).is_ok());
}

#[test]
fn session_restart_from_running_persists_segment() {
    let clock = FakeClock::new();
    let mut ctx = ctx(clock.clone());
    begin_duty(&mut ctx);
    start_session(&mut ctx).unwrap();
    clock.advance(secs(100));
    restart_session(&mut ctx).unwrap();

    assert_eq!(ctx.storage.session_count().unwrap(), 1);
    assert_eq!(ctx.storage.all_total().unwrap(), 100);
    let s = status_snapshot(&mut ctx).0;
    assert_eq!(s.state, "running");
    assert_eq!(s.total_ms, 0);
}

#[test]
fn session_restart_from_paused_does_not_duplicate() {
    let clock = FakeClock::new();
    let mut ctx = ctx(clock.clone());
    begin_duty(&mut ctx);
    start_session(&mut ctx).unwrap();
    clock.advance(secs(50));
    pause_session(&mut ctx).unwrap();
    restart_session(&mut ctx).unwrap();

    assert_eq!(ctx.storage.session_count().unwrap(), 1);
    assert_eq!(ctx.storage.all_total().unwrap(), 50);
    assert_eq!(status_snapshot(&mut ctx).0.state, "running");
}

#[test]
fn session_reminder_decision_fires_and_resets() {
    let clock = FakeClock::new();
    let mut ctx = ctx(clock.clone());
    begin_duty(&mut ctx);
    start_session(&mut ctx).unwrap();
    clock.advance(secs(49 * 60));
    let (_, d) = status_snapshot(&mut ctx);
    assert!(!d.fire);

    clock.advance(secs(60));
    let (_, d) = status_snapshot(&mut ctx);
    assert!(d.fire);

    let (_, d) = status_snapshot(&mut ctx);
    assert!(!d.fire);

    pause_session(&mut ctx).unwrap();
    resume_session(&mut ctx).unwrap();
    let (_, d) = status_snapshot(&mut ctx);
    assert!(!d.fire);

    clock.advance(secs(50 * 60));
    let (_, d) = status_snapshot(&mut ctx);
    assert!(d.fire);
    assert_eq!(d.threshold_min, 50);
}

#[test]
fn toggle_session_cycles_three_states() {
    let clock = FakeClock::new();
    let mut ctx = ctx(clock.clone());
    begin_duty(&mut ctx);
    assert_eq!(toggle_session(&mut ctx).unwrap(), TimerAction::Start);
    assert_eq!(status_snapshot(&mut ctx).0.state, "running");
    clock.advance(secs(10));
    assert_eq!(toggle_session(&mut ctx).unwrap(), TimerAction::Pause);
    assert_eq!(status_snapshot(&mut ctx).0.state, "paused");
    assert_eq!(toggle_session(&mut ctx).unwrap(), TimerAction::Resume);
    assert_eq!(status_snapshot(&mut ctx).0.state, "running");
}

#[test]
fn persist_before_quit_persists_running_segment() {
    let clock = FakeClock::new();
    let mut ctx = ctx(clock.clone());
    begin_duty(&mut ctx);
    persist_before_quit(&mut ctx).unwrap();
    assert_eq!(ctx.storage.session_count().unwrap(), 0);
    start_session(&mut ctx).unwrap();
    clock.advance(secs(30));
    persist_before_quit(&mut ctx).unwrap();
    assert_eq!(ctx.storage.all_total().unwrap(), 30);
    persist_before_quit(&mut ctx).unwrap();
    assert_eq!(ctx.storage.all_total().unwrap(), 30);
}

#[test]
fn stats_stats_forwarding_aggregates_periods() {
    let mut ctx = ctx(FakeClock::new());
    let now = local_now();
    let today = day_start_secs(&now);
    let week = week_start_secs(&now);
    ctx.storage.add_session(today + 3600, 100).unwrap();
    ctx.storage.add_session(week + 7200, 200).unwrap();
    ctx.storage.add_session(0, 400).unwrap();

    let s = stats_snapshot(&mut ctx, &now).unwrap();
    assert_eq!(s.today_secs, 100);
    assert_eq!(s.week_secs, 300);
    assert_eq!(s.all_secs, 700);
}

#[test]
fn clock_in_opens_workday_and_unlocks_timer() {
    let mut ctx = ctx(FakeClock::new());
    clock_in_inner(&mut ctx, 1_000).unwrap();
    assert_eq!(ctx.storage.workday_latest().unwrap(), Some((1, 1_000, None)));
    assert!(event_kinds(&mut ctx).contains(&EventKind::ClockIn));
    assert_eq!(
        ctx.workday,
        WorkdayState::OnDuty {
            clock_in_at: 1_000,
            id: 1
        }
    );
    assert!(start_session(&mut ctx).is_ok(), "上班后计时放行");
}

#[test]
fn double_clock_in_and_ungated_start_error() {
    let mut duty = ctx(FakeClock::new());
    clock_in_inner(&mut duty, 1_000).unwrap();
    assert!(matches!(
        clock_in_inner(&mut duty, 2_000),
        Err(CommandError::Workday(WorkdayError::AlreadyOnDuty))
    ));
    assert_eq!(
        duty.storage.workday_latest().unwrap(),
        Some((1, 1_000, None)),
        "拒绝的上班不开新行"
    );

    let mut fresh = ctx(FakeClock::new());
    assert!(matches!(
        start_session(&mut fresh),
        Err(CommandError::Workday(WorkdayError::NotOnDuty))
    ));
    assert_eq!(fresh.storage.session_count().unwrap(), 0);
}

#[test]
fn clock_out_closes_segment_and_workday() {
    let clock = FakeClock::new();
    let mut ctx = ctx(clock.clone());
    begin_duty(&mut ctx);
    start_session(&mut ctx).unwrap();
    clock.advance(secs(60));
    clock_out_inner(&mut ctx, 2_000, EventKind::ClockOut).unwrap();

    assert_eq!(ctx.storage.all_total().unwrap(), 60, "运行段先落库");
    assert_eq!(
        ctx.storage.workday_latest().unwrap(),
        Some((1, 1_000, Some(2_000)))
    );
    let kinds = event_kinds(&mut ctx);
    assert!(kinds.contains(&EventKind::SegmentStart));
    assert!(kinds.contains(&EventKind::SegmentEnd));
    assert!(kinds.contains(&EventKind::ClockOut));
    assert_eq!(ctx.workday, WorkdayState::Off);
    assert_eq!(status_snapshot(&mut ctx).0.state, "idle");
}

#[test]
fn clock_out_off_duty_errors() {
    let mut ctx = ctx(FakeClock::new());
    assert!(matches!(
        clock_out_inner(&mut ctx, 2_000, EventKind::ClockOut),
        Err(CommandError::Workday(WorkdayError::NotOnDuty))
    ));
}

#[test]
fn day_detail_reduces_seeded_events() {
    let mut ctx = ctx(FakeClock::new());
    let now = local_now();
    let day_start = day_start_secs(&now);
    ctx.storage.insert_event(day_start + 9 * 3_600, EventKind::ClockIn).unwrap();
    ctx.storage.insert_event(day_start + 9 * 3_600, EventKind::SegmentStart).unwrap();
    ctx.storage.insert_event(day_start + 12 * 3_600, EventKind::SegmentEnd).unwrap();
    ctx.storage.insert_event(day_start + 17 * 3_600, EventKind::ClockOut).unwrap();
    let sum = day_detail_inner(&mut ctx, &now, now.timestamp).unwrap();
    assert_eq!(sum.duty_secs, 8 * 3_600);
    assert_eq!(sum.work_secs, 3 * 3_600);
    assert_eq!(sum.rest_secs, 5 * 3_600);
    assert_eq!(sum.blocks.len(), 2);
    assert_eq!(sum.duty_started_at, Some(day_start + 9 * 3_600));
    assert_eq!(sum.duty_ended_at, Some(day_start + 17 * 3_600));
}

#[test]
fn day_detail_offset_browses_days() {
    let mut ctx = ctx(FakeClock::new());
    let now = local_now();
    let day_start = day_start_secs(&now);
    let yesterday_in = day_start - 86_400 + 9 * 3_600;
    ctx.storage.insert_event(yesterday_in, EventKind::ClockIn).unwrap();
    ctx.storage.insert_event(yesterday_in + 3_600, EventKind::ClockOut).unwrap();
    assert_eq!(day_detail_inner(&mut ctx, &now, now.timestamp).unwrap().duty_secs, 0);
    let yesterday = ZonedTime {
        timestamp: shifted_instant(-1, now.timestamp).unwrap(),
        utc_offset: now.utc_offset,
    };
    assert_eq!(
        day_detail_inner(&mut ctx, &yesterday, now.timestamp).unwrap().duty_secs,
        3_600
    );
}

#[test]
fn auto_clock_out_backfills_at_threshold() {
    let mut ctx = ctx(FakeClock::new());
    let in_at = wall_now_secs().unwrap() - 9 * 3_600;
    clock_in_inner(&mut ctx, in_at).unwrap();
    assert_eq!(try_auto_clock_out(&mut ctx).unwrap(), Some(in_at + 8 * 3_600));
    assert_eq!(
        ctx.storage.workday_latest().unwrap(),
        Some((1, in_at, Some(in_at + 8 * 3_600))),
        "记账时刻 = 上班 + 8h，与发现时刻无关"
    );
    assert_eq!(ctx.workday, WorkdayState::Off);

    let second_in = wall_now_secs().unwrap() - 3_600;
    clock_in_inner(&mut ctx, second_in).unwrap();
    assert_eq!(try_auto_clock_out(&mut ctx).unwrap(), None);
    assert_eq!(
        ctx.storage.workday_latest().unwrap(),
        Some((2, second_in, None))
    );

    clock_out_inner(&mut ctx, wall_now_secs().unwrap(), EventKind::ClockOut).unwrap();
    assert_eq!(try_auto_clock_out(&mut ctx).unwrap(), None);
}

// ---- further cases: edges, laws and exact values ----

#[test]
fn settings_commit_validates() {
    let mut ctx = ctx(FakeClock::new());
    let s = ReminderSettings {
        threshold_min: 30,
        sound_enabled: false,
        notify_enabled: true,
        workday_auto_out_hours: 9,
    };
    commit_settings(&mut ctx, &s).unwrap();
    assert_eq!(get_settings_inner(&ctx), s);
    let bad = ReminderSettings {
        threshold_min: 0,
        ..s
    };
    assert!(matches!(
        commit_settings(&mut ctx, &bad),
        Err(CommandError::Settings(SettingsError::InvalidThreshold(0)))
    ));
    assert_eq!(get_settings_inner(&ctx), s, "refused settings leave the old ones");
}

#[test]
fn gate_and_deadline_helpers() {
    let mut ctx = ctx(FakeClock::new());
    assert!(matches!(
        require_on_duty(&ctx),
        Err(CommandError::Workday(WorkdayError::NotOnDuty))
    ));
    begin_duty(&mut ctx);
    assert!(require_on_duty(&ctx).is_ok());
    let on = WorkdayState::OnDuty { clock_in_at: 1_000, id: 1 };
    assert_eq!(auto_out_deadline(on, 8, 1_000 + 8 * 3_600), Some(1_000 + 8 * 3_600));
    assert_eq!(auto_out_deadline(on, 8, 1_000 + 8 * 3_600 - 1), None);
    assert_eq!(auto_out_deadline(WorkdayState::Off, 8, i64::MAX), None);
    let late = WorkdayState::OnDuty { clock_in_at: i64::MAX - 10, id: 1 };
    assert_eq!(auto_out_deadline(late, 1, i64::MAX), None);
    assert_eq!(shifted_instant(-2, 200_000), Some(200_000 - 2 * 86_400));
    assert_eq!(shifted_instant(i64::MAX, 0), None);
    let day = ZonedTime { timestamp: 86_400 + 5, utc_offset: 0 };
    assert_eq!(day_bounds(&day), (86_400, 2 * 86_400));
}

#[test]
fn restart_clears_reminder_point() {
    let clock = FakeClock::new();
    let mut ctx = ctx(clock.clone());
    begin_duty(&mut ctx);
    start_session(&mut ctx).unwrap();
    clock.advance(secs(50 * 60));
    assert!(status_snapshot(&mut ctx).1.fire);
    restart_session(&mut ctx).unwrap();
    assert_eq!(ctx.fire.last_fired(), None);
    assert_eq!(ctx.session.total(), Duration::zero());
    clock.advance(secs(50 * 60));
    assert!(status_snapshot(&mut ctx).1.fire, "a new segment reminds again at the threshold");
}

#[test]
fn status_at_reads_running_total_and_segment() {
    let clock = FakeClock::new();
    let mut ctx = ctx(clock.clone());
    begin_duty(&mut ctx);
    start_session(&mut ctx).unwrap();
    let (status, decision) = status_at(&mut ctx, secs(49 * 60));
    assert_eq!(status.state, "running");
    assert_eq!(status.total_ms, 49 * 60 * 1_000);
    assert!(status.on_duty);
    assert!(!decision.fire);
    let (_, decision) = status_at(&mut ctx, secs(50 * 60));
    assert!(decision.fire);
    assert_eq!(decision.threshold_min, 50);
    assert_eq!(ctx.fire.last_fired(), Some(secs(50 * 60)));
    let (_, decision) = status_at(&mut ctx, secs(54 * 60));
    assert!(!decision.fire, "no repeat within five minutes");
    let (_, decision) = status_at(&mut ctx, secs(55 * 60));
    assert!(decision.fire);
}

#[test]
fn pause_at_stores_segment_ending_there() {
    let clock = FakeClock::new();
    let mut ctx = ctx(clock.clone());
    begin_duty(&mut ctx);
    start_session(&mut ctx).unwrap();
    clock.advance(secs(90));
    pause_session_at(&mut ctx, 5_000).unwrap();
    assert_eq!(ctx.storage.total_since(4_910).unwrap(), 90);
    assert_eq!(ctx.storage.total_since(4_911).unwrap(), 0);
    let events = ctx.storage.events_between(0, i64::MAX).unwrap();
    assert!(events.contains(&(5_000, EventKind::SegmentEnd)));
    assert!(matches!(
        pause_session_at(&mut ctx, 6_000),
        Err(CommandError::Session(SessionError::NotRunning))
    ));
}

#[test]
fn close_running_segment_leaves_paused_alone() {
    let clock = FakeClock::new();
    let mut ctx = ctx(clock.clone());
    begin_duty(&mut ctx);
    close_running_segment(&mut ctx, 2_000).unwrap();
    assert_eq!(ctx.storage.session_count().unwrap(), 0);
    start_session(&mut ctx).unwrap();
    clock.advance(secs(30));
    close_running_segment(&mut ctx, 2_000).unwrap();
    assert!(matches!(ctx.session.state(), SessionState::Paused { .. }));
    assert_eq!(ctx.storage.session_count().unwrap(), 1);
}

#[test]
fn auto_clock_out_at_books_at_deadline() {
    let clock = FakeClock::new();
    let mut ctx = ctx(clock.clone());
    begin_duty(&mut ctx);
    let deadline = 1_000 + 8 * 3_600;
    assert_eq!(auto_clock_out_at(&mut ctx, deadline - 1).unwrap(), None);
    assert!(ctx.workday.is_on_duty());
    start_session(&mut ctx).unwrap();
    clock.advance(secs(60));
    assert_eq!(auto_clock_out_at(&mut ctx, deadline + 5_000).unwrap(), Some(deadline));
    assert_eq!(ctx.workday, WorkdayState::Off);
    assert_eq!(ctx.storage.workday_latest().unwrap(), Some((1, 1_000, Some(deadline))));
    let events = ctx.storage.events_between(0, i64::MAX).unwrap();
    assert!(events.contains(&(deadline, EventKind::SegmentEnd)), "segment end at the deadline");
    assert!(events.contains(&(deadline, EventKind::AutoClockOut)));
    assert_eq!(ctx.storage.total_since(deadline + 5_000 - 60).unwrap(), 60, "row ends at the reading");
    assert_eq!(ctx.storage.total_since(deadline + 5_000 - 59).unwrap(), 0);
    assert_eq!(auto_clock_out_at(&mut ctx, deadline + 10_000).unwrap(), None);
}

#[test]
fn checked_offset_bounds() {
    assert_eq!(checked_offset(0).unwrap(), 0);
    assert_eq!(checked_offset(MAX_DAY_OFFSET).unwrap(), 366);
    assert_eq!(checked_offset(-366).unwrap(), -366);
    assert!(matches!(checked_offset(367), Err(CommandError::InvalidOffset(367))));
    assert!(matches!(checked_offset(-367), Err(CommandError::InvalidOffset(-367))));
    assert!(matches!(checked_offset(1_000_000), Err(CommandError::InvalidOffset(1_000_000))));
}

#[test]
fn day_fetch_start_reaches_back_to_open_shift() {
    let on = WorkdayState::OnDuty { clock_in_at: 500, id: 1 };
    assert_eq!(day_fetch_start(on, 1_000), 500);
    assert_eq!(day_fetch_start(on, 400), 400);
    assert_eq!(day_fetch_start(WorkdayState::Off, 1_000), 1_000);
}

#[test]
fn day_detail_from_reduces_given_events() {
    let day = ZonedTime { timestamp: 86_400 + 10, utc_offset: 0 };
    let events = vec![
        (86_400 + 3_600, EventKind::ClockIn),
        (86_400 + 3_600, EventKind::SegmentStart),
        (86_400 + 5_400, EventKind::SegmentEnd),
        (86_400 + 7_200, EventKind::ClockOut),
    ];
    let sum = day_detail_from(&events, &day, 3 * 86_400).unwrap();
    assert_eq!(sum.duty_secs, 3_600);
    assert_eq!(sum.work_secs, 1_800);
    assert_eq!(sum.rest_secs, 1_800);
    let empty = day_detail_from(&[], &day, 3 * 86_400).unwrap();
    assert_eq!(empty.duty_secs, 0);
    assert!(empty.blocks.is_empty());
}

#[test]
fn segment_rows_start_their_whole_seconds_before() {
    assert_eq!(segment_row_at(Duration::zero(), 100).unwrap(), None);
    assert_eq!(segment_row_at(Duration::new(90, 500), 1_000).unwrap(), Some((910, 90)));
    assert!(matches!(segment_row_at(secs(10), i64::MIN + 5), Err(CommandError::Clock)));
    let mut storage = Storage::open_in_memory().unwrap();
    persist_segment_at(&mut storage, secs(40), 1_040).unwrap();
    persist_segment_at(&mut storage, Duration::zero(), 2_000).unwrap();
    assert_eq!(storage.session_count().unwrap(), 1);
    assert_eq!(storage.total_since(1_000).unwrap(), 40);
}

#[test]
fn week_detail_reads_each_day() {
    let mut ctx = ctx(FakeClock::new());
    let monday = 4 * 86_400;
    ctx.storage.insert_event(monday + 3_600, EventKind::ClockIn).unwrap();
    ctx.storage.insert_event(monday + 3_600, EventKind::SegmentStart).unwrap();
    ctx.storage.insert_event(monday + 5_400, EventKind::SegmentEnd).unwrap();
    ctx.storage.insert_event(monday + 7_200, EventKind::ClockOut).unwrap();
    ctx.storage.insert_event(monday + 2 * 86_400 + 100, EventKind::ClockIn).unwrap();
    ctx.storage.insert_event(monday + 2 * 86_400 + 700, EventKind::ClockOut).unwrap();
    let days: Vec<ZonedTime> = (0..7)
        .map(|k| ZonedTime { timestamp: monday + k * 86_400 + 60, utc_offset: 0 })
        .collect();
    let week = week_detail_inner(&mut ctx, &days, monday + 10 * 86_400).unwrap();
    assert_eq!(week.len(), 7);
    assert_eq!(week[0].day_start, monday);
    assert_eq!((week[0].duty_secs, week[0].work_secs), (3_600, 1_800));
    assert_eq!((week[1].duty_secs, week[1].work_secs), (0, 0));
    assert_eq!((week[2].duty_secs, week[2].work_secs), (600, 0));
    assert_eq!(week[6].day_start, monday + 6 * 86_400);
    assert!(week[3..].iter().all(|d| d.duty_secs == 0));
}
