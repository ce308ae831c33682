//! Workday operations: clock-in, clock-out (manual or automatic), the
//! timing gate, and one day's detail. The database is written first, each
//! pair of writes in one transaction, and the in-memory state changed after,
//! so a failure leaves the state as it was.

use vstd::prelude::*;

use super::session::{pause_requests, pause_requests_at, pause_session_marked};
use super::{kept, only_storage_changed, wall_now_secs, AppContext, CommandError};
use crate::duration::Duration;
use crate::period::{day_start_secs, day_start_spec, zoned_ok, ZonedTime};
use crate::session::{segment_spec, Clock, SessionState};
use crate::storage::{close_request, event_request, events_request, Request, StorageError};
use crate::workday::{
    auto_out_at, auto_out_due, blocks_inside, day_blocks, day_duty, day_reduction, day_windows,
    lemma_day_duty_bound, length_total, reduce_day, work_total, DaySummary, DutySpan, EventKind,
    WorkdayError, WorkdayState,
};

verus! {

/// The timing gate: refused unless on duty.
pub fn require_on_duty<C: Clock>(ctx: &AppContext<C>) -> (r: Result<(), CommandError>)
    ensures
        ctx.workday is OnDuty ==> r is Ok,
        ctx.workday is Off ==> r == Err::<(), CommandError>(CommandError::Workday(WorkdayError::NotOnDuty)),
{
    if !ctx.workday.is_on_duty() {
        return Err(CommandError::Workday(WorkdayError::NotOnDuty));
    }
    Ok(())
}

/// Clock in at `at`: refused while on duty. The workday row is opened and
/// the clock-in recorded in one transaction; then the session is reset (a
/// new day of timing starts from zero; what came before is stored) and the
/// state goes on duty. Returns the row id.
pub fn clock_in_inner<C: Clock>(ctx: &mut AppContext<C>, at: i64) -> (r: Result<i64, CommandError>)
    ensures
        final(ctx).settings == old(ctx).settings,
        final(ctx).fire == old(ctx).fire,
        old(ctx).workday is OnDuty ==> r == Err::<i64, CommandError>(
            CommandError::Workday(WorkdayError::AlreadyOnDuty),
        ),
        old(ctx).workday is Off ==> (r is Ok || r matches Err(CommandError::Storage(StorageError::Sqlite(_)))),
        r is Err ==> kept(*old(ctx), *final(ctx)),
        r matches Ok(id) ==> final(ctx).workday == (WorkdayState::OnDuty { clock_in_at: at, id })
            && final(ctx).session.state_of() is Idle
            && final(ctx).session.banked()@ == 0
            && final(ctx).session.clock_of() == old(ctx).session.clock_of()
            && final(ctx).storage.requests() == old(ctx).storage.requests().push(
            Request::WorkdayOpen { clock_in_at: at, id },
        ).push(event_request(at, EventKind::ClockIn)),
{
    if ctx.workday.is_on_duty() {
        return Err(CommandError::Workday(WorkdayError::AlreadyOnDuty));
    }
    let id = match ctx.storage.workday_open_with_event(at) {
        Ok(id) => id,
        Err(e) => return Err(CommandError::Storage(e)),
    };
    ctx.session.reset();
    match ctx.workday.clock_in(at, id) {
        Ok(()) => Ok(id),
        Err(e) => Err(CommandError::Workday(e)),
    }
}

/// A running segment is paused at the session clock reading `now`, its row
/// stored as ending at `row_end` and its end event recorded at `mark_at`;
/// paused and idle are left alone.
pub fn close_running_segment_marked<C: Clock>(ctx: &mut AppContext<C>, row_end: i64, mark_at: i64, now: Duration) -> (r: Result<(), CommandError>)
    ensures
        final(ctx).workday == old(ctx).workday,
        final(ctx).settings == old(ctx).settings,
        !(old(ctx).session.state_of() is Running) ==> r is Ok && *final(ctx) == *old(ctx),
        r is Ok || r matches Err(CommandError::Clock) || r matches Err(CommandError::Storage(StorageError::Sqlite(_))),
        r is Err ==> kept(*old(ctx), *final(ctx)),
        r is Ok && old(ctx).session.state_of() is Running ==> final(ctx).session.state_of() == (SessionState::Paused {
            elapsed: final(ctx).session.banked(),
        }) && final(ctx).fire.fired_at() is None && final(ctx).session.clock_of() == old(ctx).session.clock_of()
            && exists|segment: Duration|
            segment@ == segment_spec(old(ctx).session.state_of(), now) && final(ctx).session.banked()@
                == crate::duration::capped(old(ctx).session.banked()@ + segment@)
                && final(ctx).storage.requests() == old(ctx).storage.requests() + #[trigger] pause_requests_at(
                segment,
                row_end,
                mark_at,
            ),
{
    if let SessionState::Running { .. } = ctx.session.state() {
        pause_session_marked(ctx, row_end, mark_at, now)
    } else {
        Ok(())
    }
}

/// A running segment is paused with its end at `at` and stored; paused and
/// idle are left alone.
pub fn close_running_segment<C: Clock>(ctx: &mut AppContext<C>, at: i64) -> (r: Result<(), CommandError>)
    ensures
        final(ctx).workday == old(ctx).workday,
        final(ctx).settings == old(ctx).settings,
        !(old(ctx).session.state_of() is Running) ==> r is Ok && *final(ctx) == *old(ctx),
        r is Ok || r matches Err(CommandError::Clock) || r matches Err(CommandError::Storage(StorageError::Sqlite(_))),
        r is Err ==> kept(*old(ctx), *final(ctx)),
        r is Ok && old(ctx).session.state_of() is Running ==> final(ctx).session.state_of() == (SessionState::Paused {
            elapsed: final(ctx).session.banked(),
        }) && final(ctx).fire.fired_at() is None && final(ctx).session.clock_of() == old(ctx).session.clock_of()
            && exists|segment: Duration|
            final(ctx).session.banked()@ == crate::duration::capped(old(ctx).session.banked()@ + segment@)
                && final(ctx).storage.requests() == old(ctx).storage.requests() + #[trigger] pause_requests(
                segment,
                at,
            ),
{
    let now = ctx.session.clock_now();
    let r = close_running_segment_marked(ctx, at, at, now);
    proof {
        if r is Ok && old(ctx).session.state_of() is Running {
            let segment = choose|segment: Duration|
                segment@ == segment_spec(old(ctx).session.state_of(), now) && ctx.session.banked()@
                    == crate::duration::capped(old(ctx).session.banked()@ + segment@)
                    && ctx.storage.requests() == old(ctx).storage.requests() + #[trigger] pause_requests_at(
                    segment,
                    at,
                    at,
                );
            assert(pause_requests(segment, at) == pause_requests_at(segment, at, at));
        }
    }
    r
}

/// `after` is `before` with, in order: the writes `w` of a closed segment,
/// the close of workday `id` at `at` (changing `changed` rows), and the
/// event `(at, kind)`.
pub open spec fn closes_with(
    before: Seq<Request>,
    w: Seq<Request>,
    id: i64,
    at: i64,
    changed: usize,
    kind: EventKind,
    after: Seq<Request>,
) -> bool {
    changed > 0 && after == (before + w).push(close_request(id, at, changed)).push(
        event_request(at, kind),
    )
}

/// `w` is what pausing a segment `segment` long writes: its row ending at
/// `row_end` and its end event at `at`.
pub open spec fn stores_segment(w: Seq<Request>, segment: Duration, row_end: i64, at: i64) -> bool {
    w == pause_requests_at(segment, row_end, at)
}

/// What a clock-out of workday `id` at `at` with event `kind` writes after
/// `before`: the running segment (when `running`) paused, its row ending at
/// `row_end` and its end event at `at`; then the workday closed at `at` and
/// the event recorded.
pub open spec fn clock_out_written_at(
    before: Seq<Request>,
    running: bool,
    id: i64,
    at: i64,
    row_end: i64,
    kind: EventKind,
    after: Seq<Request>,
) -> bool {
    exists|w: Seq<Request>, changed: usize|
        #[trigger] closes_with(before, w, id, at, changed, kind, after) && (running ==> exists|segment: Duration|
            #[trigger] stores_segment(w, segment, row_end, at)) && (!running ==> w == Seq::<Request>::empty())
}

/// What a clock-out at `at` writes, the running segment's row ending at `at` too.
pub open spec fn clock_out_written(
    before: Seq<Request>,
    running: bool,
    id: i64,
    at: i64,
    kind: EventKind,
    after: Seq<Request>,
) -> bool {
    clock_out_written_at(before, running, id, at, at, kind, after)
}

/// Clock out at `at` with the event `kind`: refused while off duty. A
/// running segment is paused at the session clock reading `now` (only that
/// segment, from its start to `now`, is stored: what earlier pauses banked
/// was stored by them), its row stored as ending at `row_end` and its end
/// event recorded at `at`; then the row is closed at `at` and the clock-out
/// recorded in one transaction; then the state goes off duty and the
/// session is reset. Returns the duty's clock-in and row id.
pub fn clock_out_marked<C: Clock>(ctx: &mut AppContext<C>, at: i64, row_end: i64, kind: EventKind, now: Duration) -> (r: Result<DutySpan, CommandError>)
    ensures
        final(ctx).settings == old(ctx).settings,
        old(ctx).workday is Off ==> r == Err::<DutySpan, CommandError>(
            CommandError::Workday(WorkdayError::NotOnDuty),
        ) && *final(ctx) == *old(ctx),
        old(ctx).workday is OnDuty ==> (r is Ok || r matches Err(CommandError::Clock) || r matches Err(
            CommandError::Storage(StorageError::Sqlite(_)),
        ) || r matches Err(CommandError::Storage(StorageError::WorkdayMissing(_)))),
        old(ctx).workday matches WorkdayState::OnDuty { clock_in_at, id } ==> (r is Ok ==> r == Ok::<
            DutySpan,
            CommandError,
        >(DutySpan { clock_in_at, id }) && clock_out_written_at(
            old(ctx).storage.requests(),
            old(ctx).session.state_of() is Running,
            id,
            at,
            row_end,
            kind,
            final(ctx).storage.requests(),
        )),
        r is Ok && old(ctx).session.state_of() is Running ==> exists|segment: Duration|
            segment@ == segment_spec(old(ctx).session.state_of(), now) && (old(ctx).storage.requests()
                + #[trigger] pause_requests_at(segment, row_end, at)).is_prefix_of(final(ctx).storage.requests()),
        r is Ok ==> final(ctx).workday == WorkdayState::Off && final(ctx).session.state_of() is Idle
            && final(ctx).session.banked()@ == 0,
        r is Err ==> final(ctx).workday == old(ctx).workday,
        r is Err && !(old(ctx).session.state_of() is Running) ==> kept(*old(ctx), *final(ctx)),
{
    let (clock_in_at, id) = match ctx.workday {
        WorkdayState::OnDuty { clock_in_at, id } => (clock_in_at, id),
        WorkdayState::Off => return Err(CommandError::Workday(WorkdayError::NotOnDuty)),
    };
    let ghost was_running = ctx.session.state_of() is Running;
    if let Err(e) = close_running_segment_marked(ctx, row_end, at, now) {
        return Err(e);
    }
    let ghost mid = ctx.storage.requests();
    let ghost w: Seq<Request> = mid.subrange(old(ctx).storage.requests().len() as int, mid.len() as int);
    let ghost closed: Duration = vstd::pervasive::arbitrary();
    proof {
        if was_running {
            let segment = choose|segment: Duration|
                segment@ == segment_spec(old(ctx).session.state_of(), now) && ctx.session.banked()@
                    == crate::duration::capped(old(ctx).session.banked()@ + segment@)
                    && mid == old(ctx).storage.requests() + #[trigger] pause_requests_at(segment, row_end, at);
            closed = segment;
            assert(w =~= pause_requests_at(segment, row_end, at));
            assert(stores_segment(w, segment, row_end, at));
        } else {
            assert(w =~= Seq::<Request>::empty());
        }
        assert(mid =~= old(ctx).storage.requests() + w);
    }
    if let Err(e) = ctx.storage.workday_close_with_event(id, at, kind) {
        return Err(CommandError::Storage(e));
    }
    proof {
        let changed = choose|changed: usize|
            changed > 0 && ctx.storage.requests() == mid.push(
                #[trigger] close_request(id, at, changed),
            ).push(event_request(at, kind));
        assert(closes_with(old(ctx).storage.requests(), w, id, at, changed, kind, ctx.storage.requests()));
        if was_running {
            assert(mid.is_prefix_of(ctx.storage.requests()));
            assert(old(ctx).storage.requests() + pause_requests_at(closed, row_end, at) == mid);
        }
    }
    if let Err(e) = ctx.workday.clock_out() {
        return Err(CommandError::Workday(e));
    }
    ctx.session.reset();
    Ok(DutySpan { clock_in_at, id })
}

/// Clock out at `at` with the event `kind` (a manual clock-out now): the
/// running segment's row and end event are at `at` too (see `clock_out_marked`).
pub fn clock_out_inner<C: Clock>(ctx: &mut AppContext<C>, at: i64, kind: EventKind) -> (r: Result<DutySpan, CommandError>)
    ensures
        final(ctx).settings == old(ctx).settings,
        old(ctx).workday is Off ==> r == Err::<DutySpan, CommandError>(
            CommandError::Workday(WorkdayError::NotOnDuty),
        ) && *final(ctx) == *old(ctx),
        old(ctx).workday is OnDuty ==> (r is Ok || r matches Err(CommandError::Clock) || r matches Err(
            CommandError::Storage(StorageError::Sqlite(_)),
        ) || r matches Err(CommandError::Storage(StorageError::WorkdayMissing(_)))),
        old(ctx).workday matches WorkdayState::OnDuty { clock_in_at, id } ==> (r is Ok ==> r == Ok::<
            DutySpan,
            CommandError,
        >(DutySpan { clock_in_at, id }) && clock_out_written(
            old(ctx).storage.requests(),
            old(ctx).session.state_of() is Running,
            id,
            at,
            kind,
            final(ctx).storage.requests(),
        )),
        r is Ok ==> final(ctx).workday == WorkdayState::Off && final(ctx).session.state_of() is Idle
            && final(ctx).session.banked()@ == 0,
        r is Err ==> final(ctx).workday == old(ctx).workday,
        r is Err && !(old(ctx).session.state_of() is Running) ==> kept(*old(ctx), *final(ctx)),
{
    let now = ctx.session.clock_now();
    clock_out_marked(ctx, at, at, kind, now)
}

/// The instant `day_offset` days from `now_secs` (0 today, -1 yesterday);
/// `None` when it does not fit.
pub fn shifted_instant(day_offset: i64, now_secs: i64) -> (at: Option<i64>)
    ensures
        at matches Some(t) ==> t == now_secs + day_offset * 86_400,
        i64::MIN <= day_offset * 86_400 <= i64::MAX && i64::MIN <= now_secs + day_offset * 86_400 <= i64::MAX
            ==> at is Some,
{
    match day_offset.checked_mul(86_400) {
        Some(shift) => now_secs.checked_add(shift),
        None => None,
    }
}

/// The furthest a day view may move from today, in days either way.
pub const MAX_DAY_OFFSET: i64 = 366;

/// A day offset is accepted within a year either way; beyond it is refused.
pub fn checked_offset(day_offset: i64) -> (r: Result<i64, CommandError>)
    ensures
        -MAX_DAY_OFFSET <= day_offset <= MAX_DAY_OFFSET ==> r == Ok::<i64, CommandError>(day_offset),
        !(-MAX_DAY_OFFSET <= day_offset <= MAX_DAY_OFFSET) ==> r == Err::<i64, CommandError>(
            CommandError::InvalidOffset(day_offset),
        ),
{
    if -MAX_DAY_OFFSET <= day_offset && day_offset <= MAX_DAY_OFFSET {
        Ok(day_offset)
    } else {
        Err(CommandError::InvalidOffset(day_offset))
    }
}

/// The local day holding `day`: from its midnight to the next, 86,400 seconds on.
pub fn day_bounds(day: &ZonedTime) -> (bounds: (i64, i64))
    requires
        zoned_ok(*day),
    ensures
        bounds.0 == day_start_spec(*day),
        bounds.1 == bounds.0 + 86_400,
{
    let start = day_start_secs(day);
    (start, start + 86_400)
}

/// Where a day's events are read from: the day's midnight, or the clock-in
/// of a shift still open that began earlier.
pub open spec fn fetch_start_spec(workday: WorkdayState, day_start: i64) -> i64 {
    match workday {
        WorkdayState::OnDuty { clock_in_at, .. } => if clock_in_at < day_start {
            clock_in_at
        } else {
            day_start
        },
        WorkdayState::Off => day_start,
    }
}

/// Where a day's events are read from (see `fetch_start_spec`).
pub fn day_fetch_start(workday: WorkdayState, day_start: i64) -> (start: i64)
    ensures
        start == fetch_start_spec(workday, day_start),
{
    match workday {
        WorkdayState::OnDuty { clock_in_at, .. } => if clock_in_at < day_start {
            clock_in_at
        } else {
            day_start
        },
        WorkdayState::Off => day_start,
    }
}

/// The most events one day's reduction takes: far more than any machine
/// holds, and few enough that the day's totals cannot overflow.
pub const DAY_EVENTS_LIMIT: u64 = 100_000_000_000_000;

/// One day's detail from the events read for it: the day holding `day`,
/// reduced with an open duty closed at `now_secs`.
pub fn day_detail_from(events: &[(i64, EventKind)], day: &ZonedTime, now_secs: i64) -> (r: Result<DaySummary, CommandError>)
    requires
        zoned_ok(*day),
    ensures
        events@.len() > DAY_EVENTS_LIMIT ==> (r matches Err(CommandError::TooManyEvents(n)) && n
            == events@.len()),
        events@.len() <= DAY_EVENTS_LIMIT ==> r is Ok,
        r matches Ok(summary) ==> day_reduction(
            events@,
            day_start_spec(*day) as i64,
            (day_start_spec(*day) + 86_400) as i64,
            now_secs,
            summary,
        ) && summary.work_secs + summary.rest_secs == summary.duty_secs
            && 0 <= summary.work_secs <= summary.duty_secs
            && summary.work_secs == work_total(summary.blocks@)
            && length_total(summary.blocks@) == summary.duty_secs
            && blocks_inside(summary.blocks@, day_start_spec(*day), day_start_spec(*day) + 86_400),
{
    let (day_start, day_end) = day_bounds(day);
    if events.len() as u64 > DAY_EVENTS_LIMIT {
        return Err(CommandError::TooManyEvents(events.len()));
    }
    proof {
        let n = events@.len();
        lemma_day_duty_bound(events@, day_start, day_end, now_secs);
        assert(n * (day_end - day_start) <= i64::MAX) by (nonlinear_arith)
            requires
                n <= 100_000_000_000_000,
                day_end - day_start == 86_400,
        ;
    }
    let summary = reduce_day(events, day_start, day_end, now_secs);
    proof {
        assert(day_start == day_start_spec(*day) as i64);
        assert(day_end == (day_start_spec(*day) + 86_400) as i64);
    }
    Ok(summary)
}

/// One day's detail: the events of the day holding `day` are read from
/// `fetch_start_spec` (an open shift that began earlier is read from its
/// clock-in) to the next midnight, and reduced by `day_detail_from`.
pub fn day_detail_inner<C: Clock>(ctx: &mut AppContext<C>, day: &ZonedTime, now_secs: i64) -> (r: Result<DaySummary, CommandError>)
    requires
        zoned_ok(*day),
    ensures
        r is Ok || r matches Err(CommandError::Storage(StorageError::Sqlite(_))) || r matches Err(CommandError::Storage(StorageError::UnknownEventKind(_))) || r matches Err(CommandError::TooManyEvents(_)),
        only_storage_changed(*old(ctx), *final(ctx)),
        r matches Err(CommandError::Storage(_)) ==> kept(*old(ctx), *final(ctx)),
        !(r matches Err(CommandError::Storage(_))) ==> exists|events: Seq<(i64, EventKind)>|
            final(ctx).storage.requests() == old(ctx).storage.requests().push(
                #[trigger] events_request(
                    fetch_start_spec(old(ctx).workday, day_start_spec(*day) as i64),
                    (day_start_spec(*day) + 86_400) as i64,
                    events,
                ),
            ) && (events.len() > DAY_EVENTS_LIMIT ==> (r matches Err(CommandError::TooManyEvents(n)) && n
                == events.len())) && (events.len() <= DAY_EVENTS_LIMIT ==> (r matches Ok(summary) && day_reduction(
                events,
                day_start_spec(*day) as i64,
                (day_start_spec(*day) + 86_400) as i64,
                now_secs,
                summary,
            ))),
        r matches Ok(summary) ==> summary.work_secs + summary.rest_secs == summary.duty_secs
            && 0 <= summary.work_secs <= summary.duty_secs
            && summary.work_secs == work_total(summary.blocks@)
            && length_total(summary.blocks@) == summary.duty_secs
            && blocks_inside(summary.blocks@, day_start_spec(*day), day_start_spec(*day) + 86_400),
        r matches Err(CommandError::TooManyEvents(n)) ==> n > DAY_EVENTS_LIMIT,
{
    let (day_start, day_end) = day_bounds(day);
    let fetch_start = day_fetch_start(ctx.workday, day_start);
    let events = match ctx.storage.events_between(fetch_start, day_end) {
        Ok(events) => events,
        Err(e) => return Err(CommandError::Storage(e)),
    };
    let r = day_detail_from(events.as_slice(), day, now_secs);
    proof {
        assert(day_start == day_start_spec(*day) as i64);
        assert(day_end == (day_start_spec(*day) + 86_400) as i64);
        let ev = events@;
        assert(ctx.storage.requests() == old(ctx).storage.requests().push(
            events_request(
                fetch_start_spec(old(ctx).workday, day_start_spec(*day) as i64),
                (day_start_spec(*day) + 86_400) as i64,
                ev,
            ),
        ));
    }
    r
}

/// The automatic clock-out decision at `now_secs`: on duty and `hours`
/// after the clock-in reached, the deadline is due (a deadline beyond the
/// representable range never is).
pub fn auto_out_deadline(workday: WorkdayState, hours: u32, now_secs: i64) -> (due: Option<i64>)
    ensures
        workday is Off ==> due is None,
        workday matches WorkdayState::OnDuty { clock_in_at, .. } ==> (due == (if auto_out_at(clock_in_at, hours)
            <= i64::MAX && now_secs >= auto_out_at(clock_in_at, hours) {
            Some(auto_out_at(clock_in_at, hours) as i64)
        } else {
            None
        })),
{
    match workday {
        WorkdayState::OnDuty { clock_in_at, .. } => {
            if clock_in_at > i64::MAX - hours as i64 * 3600 {
                None
            } else {
                auto_out_due(now_secs, clock_in_at, hours)
            }
        },
        WorkdayState::Off => None,
    }
}

/// The automatic clock-out at the wall-clock reading `now_secs`: off duty,
/// or before the configured hours after clock-in, nothing happens; once they
/// are reached the workday is clocked out (`AutoClockOut`) at the deadline
/// itself, however late it is noticed. A running segment is stored as a row
/// ending at `now_secs`, its end event booked at the deadline. Returns the
/// deadline used.
pub fn auto_clock_out_at<C: Clock>(ctx: &mut AppContext<C>, now_secs: i64) -> (r: Result<Option<i64>, CommandError>)
    ensures
        final(ctx).settings == old(ctx).settings,
        r is Ok || r matches Err(CommandError::Clock) || r matches Err(CommandError::Storage(StorageError::Sqlite(_))) || r matches Err(CommandError::Storage(StorageError::WorkdayMissing(_))),
        r matches Ok(None) ==> *final(ctx) == *old(ctx),
        r is Err ==> final(ctx).workday == old(ctx).workday,
        old(ctx).workday is Off ==> r == Ok::<Option<i64>, CommandError>(None),
        old(ctx).workday matches WorkdayState::OnDuty { clock_in_at, id } ==> ({
            let deadline = auto_out_at(clock_in_at, old(ctx).settings.workday_auto_out_hours);
            &&& (deadline > i64::MAX || now_secs < deadline) ==> r == Ok::<Option<i64>, CommandError>(None)
            &&& (deadline <= i64::MAX && now_secs >= deadline) ==> (r is Ok ==> r == Ok::<
                Option<i64>,
                CommandError,
            >(Some(deadline as i64)) && final(ctx).workday == WorkdayState::Off
                && final(ctx).session.state_of() is Idle && final(ctx).session.banked()@ == 0
                && clock_out_written_at(
                old(ctx).storage.requests(),
                old(ctx).session.state_of() is Running,
                id,
                deadline as i64,
                now_secs,
                EventKind::AutoClockOut,
                final(ctx).storage.requests(),
            ))
        }),
{
    match auto_out_deadline(ctx.workday, ctx.settings.workday_auto_out_hours, now_secs) {
        Some(out_at) => match clock_out_marked(ctx, out_at, now_secs, EventKind::AutoClockOut, ctx.session.clock_now()) {
            Ok(_) => Ok(Some(out_at)),
            Err(e) => Err(e),
        },
        None => Ok(None),
    }
}

/// The automatic clock-out (checked on every status tick) at the current
/// wall-clock time (see `auto_clock_out_at`).
pub fn try_auto_clock_out<C: Clock>(ctx: &mut AppContext<C>) -> (r: Result<Option<i64>, CommandError>)
    ensures
        final(ctx).settings == old(ctx).settings,
        r is Ok || r matches Err(CommandError::Clock) || r matches Err(CommandError::Storage(StorageError::Sqlite(_))) || r matches Err(CommandError::Storage(StorageError::WorkdayMissing(_))),
        old(ctx).workday is Off ==> r == Ok::<Option<i64>, CommandError>(None) && *final(ctx) == *old(ctx),
        r matches Ok(None) ==> *final(ctx) == *old(ctx),
        r is Err ==> final(ctx).workday == old(ctx).workday,
        r matches Ok(Some(t)) ==> (old(ctx).workday matches WorkdayState::OnDuty { clock_in_at, id } && t
            == auto_out_at(clock_in_at, old(ctx).settings.workday_auto_out_hours) && final(ctx).workday
            == WorkdayState::Off && final(ctx).session.state_of() is Idle && final(ctx).session.banked()@ == 0
            && exists|now: i64|
            #[trigger] clock_out_written_at(
                old(ctx).storage.requests(),
                old(ctx).session.state_of() is Running,
                id,
                t,
                now,
                EventKind::AutoClockOut,
                final(ctx).storage.requests(),
            )),
{
    if !ctx.workday.is_on_duty() {
        return Ok(None);
    }
    let now = match wall_now_secs() {
        Ok(now) => now,
        Err(e) => return Err(e),
    };
    auto_clock_out_at(ctx, now)
}

/// One day of the week view: the day's local midnight and its work and
/// duty seconds.
#[derive(Clone, Copy, Debug, PartialEq, Eq, Structural)]
pub struct WeekDay {
    /// Unix seconds of the day's local midnight.
    pub day_start: i64,
    /// Seconds worked.
    pub work_secs: i64,
    /// Seconds on duty.
    pub duty_secs: i64,
}

/// `wd` is the day holding `day` reduced from `events` with an open duty
/// closed at `now`: its midnight, its duty time and the work in its blocks.
pub open spec fn week_day_of(events: Seq<(i64, EventKind)>, day: ZonedTime, now: i64, wd: WeekDay) -> bool {
    let ds = day_start_spec(day) as i64;
    let de = (day_start_spec(day) + 86_400) as i64;
    let (duty, work, _) = day_windows(events, ds, de, now);
    &&& wd.day_start == ds
    &&& wd.duty_secs == day_duty(events, ds, de, now)
    &&& wd.work_secs == work_total(day_blocks(duty, work, duty.len()))
}

/// The request that read day `day`'s events, answered with `events`.
pub open spec fn day_read<C: Clock>(ctx: AppContext<C>, day: ZonedTime, events: Seq<(i64, EventKind)>) -> Request {
    events_request(
        fetch_start_spec(ctx.workday, day_start_spec(day) as i64),
        (day_start_spec(day) + 86_400) as i64,
        events,
    )
}

/// Request `k` of `requests` read the day holding `day` (as `ctx` fixes
/// where reading starts), and `wd` is that day reduced from what it answered.
pub open spec fn reads_day<C: Clock>(
    requests: Seq<Request>,
    k: int,
    ctx: AppContext<C>,
    day: ZonedTime,
    now: i64,
    wd: WeekDay,
) -> bool {
    exists|events: Seq<(i64, EventKind)>|
        requests[k] == #[trigger] day_read(ctx, day, events) && week_day_of(events, day, now, wd)
}

/// The week view: for each of `days` in order (the app passes the seven
/// days ending today), the day's work and duty seconds, each day read and
/// reduced as in `day_detail_inner`.
pub fn week_detail_inner<C: Clock>(ctx: &mut AppContext<C>, days: &[ZonedTime], now_secs: i64) -> (r: Result<Vec<WeekDay>, CommandError>)
    requires
        forall|i: int| 0 <= i < days@.len() ==> zoned_ok(#[trigger] days@[i]),
    ensures
        r is Ok || r matches Err(CommandError::Storage(StorageError::Sqlite(_))) || r matches Err(CommandError::Storage(StorageError::UnknownEventKind(_))) || r matches Err(CommandError::TooManyEvents(_)),
        only_storage_changed(*old(ctx), *final(ctx)),
        r matches Ok(week) ==> week@.len() == days@.len() && final(ctx).storage.requests().len()
            == old(ctx).storage.requests().len() + days@.len() && final(ctx).storage.requests().take(
            old(ctx).storage.requests().len() as int,
        ) == old(ctx).storage.requests() && forall|i: int|
            0 <= i < days@.len() ==> #[trigger] reads_day(
                final(ctx).storage.requests(),
                old(ctx).storage.requests().len() + i,
                *old(ctx),
                days@[i],
                now_secs,
                week@[i],
            ),
        r matches Ok(week) ==> forall|i: int|
            0 <= i < week@.len() ==> 0 <= #[trigger] week@[i].work_secs <= week@[i].duty_secs,
{
    let ghost start = *ctx;
    let ghost base = ctx.storage.requests().len();
    let mut week: Vec<WeekDay> = Vec::new();
    let mut i: usize = 0;
    while i < days.len()
        invariant
            i <= days@.len(),
            week@.len() == i,
            forall|j: int| 0 <= j < days@.len() ==> zoned_ok(#[trigger] days@[j]),
            start == *old(ctx),
            base == start.storage.requests().len(),
            only_storage_changed(start, *ctx),
            ctx.storage.requests().len() == base + i,
            ctx.storage.requests().take(base as int) == start.storage.requests(),
            forall|j: int|
                0 <= j < i ==> #[trigger] reads_day(ctx.storage.requests(), base + j, start, days@[j], now_secs, week@[j]),
            forall|j: int| 0 <= j < i ==> 0 <= #[trigger] week@[j].work_secs <= week@[j].duty_secs,
        decreases days@.len() - i,
    {
        let day = &days[i];
        let ghost before = ctx.storage.requests();
        let summary = match day_detail_inner(ctx, day, now_secs) {
            Ok(summary) => summary,
            Err(e) => return Err(e),
        };
        let (day_start, _) = day_bounds(day);
        let wd = WeekDay { day_start, work_secs: summary.work_secs, duty_secs: summary.duty_secs };
        let ghost prev = week@;
        proof {
            let events = choose|events: Seq<(i64, EventKind)>|
                ctx.storage.requests() == before.push(
                    #[trigger] events_request(
                        fetch_start_spec(start.workday, day_start_spec(*day) as i64),
                        (day_start_spec(*day) + 86_400) as i64,
                        events,
                    ),
                ) && events.len() <= DAY_EVENTS_LIMIT && day_reduction(
                    events,
                    day_start_spec(*day) as i64,
                    (day_start_spec(*day) + 86_400) as i64,
                    now_secs,
                    summary,
                );
            assert(ctx.storage.requests()[base + i] == day_read(start, days@[i as int], events));
            assert(week_day_of(events, days@[i as int], now_secs, wd));
            assert(reads_day(ctx.storage.requests(), base + i, start, days@[i as int], now_secs, wd));
            assert forall|j: int| 0 <= j < i implies #[trigger] reads_day(
                ctx.storage.requests(),
                base + j,
                start,
                days@[j],
                now_secs,
                prev[j],
            ) by {
                assert(reads_day(before, base + j, start, days@[j], now_secs, prev[j]));
                let ev = choose|ev: Seq<(i64, EventKind)>|
                    before[base + j] == #[trigger] day_read(start, days@[j], ev) && week_day_of(
                        ev,
                        days@[j],
                        now_secs,
                        prev[j],
                    );
                assert(ctx.storage.requests()[base + j] == before[base + j]);
            }
            assert(ctx.storage.requests().take(base as int) =~= before.take(base as int));
        }
        week.push(wd);
        proof {
            assert forall|j: int| 0 <= j < i + 1 implies #[trigger] reads_day(
                ctx.storage.requests(),
                base + j,
                start,
                days@[j],
                now_secs,
                week@[j],
            ) by {
                if j < i {
                    assert(week@[j] == prev[j]);
                } else {
                    assert(week@[j] == wd);
                }
            }
        }
        i += 1;
    }
    Ok(week)
}

} // verus!
