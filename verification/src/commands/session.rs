//! Timer operations: start, pause, resume, toggle, restart and the status
//! snapshot. Timing needs the workday on duty; segment boundaries are
//! recorded as events, finished segments as rows, and a new segment clears
//! the reminder's firing point.

use vstd::prelude::*;

use super::workday::require_on_duty;
use super::{kept, only_storage_changed, wall_now_secs, AppContext, CommandError};
use crate::duration::{Duration, NANOS_PER_SEC};
use crate::reminder::{fire_due_for, ReminderConfig};
use crate::session::{
    lemma_session_ext, segment_spec, toggle_spec, total_spec, Clock, SessionError, SessionState, TimerAction,
};
use crate::storage::{event_request, row_requests, Request, Storage, StorageError};
use crate::workday::EventKind;

verus! {

/// The session snapshot shown to the window.
#[derive(Clone, Copy, Debug, PartialEq, Eq)]
pub struct SessionStatus {
    /// `idle`, `running` or `paused`.
    pub state: &'static str,
    /// Total worked, in milliseconds.
    pub total_ms: u64,
    /// Whether clocked in.
    pub on_duty: bool,
}

/// Whether to remind now, with what the reminder needs.
#[derive(Clone, Copy, Debug, PartialEq, Eq, Structural)]
pub struct ReminderDecision {
    /// Remind now.
    pub fire: bool,
    /// The threshold in minutes (for the message).
    pub threshold_min: u32,
    /// Whether to show a system notification.
    pub notify_enabled: bool,
}

/// The name of a state shown to the window.
pub open spec fn state_key_spec(state: SessionState) -> Seq<char> {
    match state {
        SessionState::Idle => "idle"@,
        SessionState::Running { .. } => "running"@,
        SessionState::Paused { .. } => "paused"@,
    }
}

/// The name of a state shown to the window (the timing fields stay inside).
pub fn state_key(state: &SessionState) -> (key: &'static str)
    ensures
        key@ == state_key_spec(*state),
{
    match state {
        SessionState::Idle => "idle",
        SessionState::Running { .. } => "running",
        SessionState::Paused { .. } => "paused",
    }
}

/// The row that stores a finished segment ending at `at`: none for an
/// empty segment, else its start (its whole seconds before `at`) and its
/// whole seconds.
pub open spec fn segment_row(segment: Duration, at: i64) -> Option<(i64, i64)> {
    if segment@ == 0 {
        None
    } else {
        let secs = (segment@ / (NANOS_PER_SEC as nat)) as u64 as i64;
        Some(((at - secs) as i64, secs))
    }
}

/// The segment's row can be formed: its start is representable.
pub open spec fn segment_row_fits(segment: Duration, at: i64) -> bool {
    segment@ == 0 || i64::MIN <= at - ((segment@ / (NANOS_PER_SEC as nat)) as u64 as i64) <= i64::MAX
}

/// What a pause writes, in one transaction: the segment's row as ending at
/// `row_end` (when not empty) and the segment-end event at `mark_at`.
pub open spec fn pause_requests_at(segment: Duration, row_end: i64, mark_at: i64) -> Seq<Request> {
    row_requests(segment_row(segment, row_end)).push(event_request(mark_at, EventKind::SegmentEnd))
}

/// What a pause at `at` writes: the row ending at `at` and the end event there.
pub open spec fn pause_requests(segment: Duration, at: i64) -> Seq<Request> {
    pause_requests_at(segment, at, at)
}

/// Law: the row a pause stores holds the growth of the banked time and
/// nothing else. When banking `segment` takes the session from `before` to
/// `after` (below the longest span), the row's seconds are the whole seconds
/// of `after - before` and it starts that many seconds before `at`; no row
/// is stored exactly when nothing was banked. So the stored rows add up to
/// what the pauses banked, and time banked earlier is never stored again.
pub proof fn lemma_pause_row_is_banked_growth(before: Duration, after: Duration, segment: Duration, at: i64)
    requires
        after@ == crate::duration::capped(before@ + segment@),
        before@ + segment@ <= crate::duration::MAX_NANOS,
        segment@ / (NANOS_PER_SEC as nat) <= i64::MAX,
    ensures
        segment_row(segment, at) matches Some((start, secs)) ==> secs as int == (after@ - before@) as int / (
        NANOS_PER_SEC as int) && start as int == (at - secs) as i64,
        segment_row(segment, at) is None <==> after@ == before@,
{
}

/// The row of a segment ending at `at`; a start below the representable
/// range is a clock error.
pub fn segment_row_at(segment: Duration, at: i64) -> (r: Result<Option<(i64, i64)>, CommandError>)
    ensures
        segment_row_fits(segment, at) ==> r == Ok::<Option<(i64, i64)>, CommandError>(segment_row(segment, at)),
        !segment_row_fits(segment, at) ==> r == Err::<Option<(i64, i64)>, CommandError>(CommandError::Clock),
{
    if segment.is_zero() {
        return Ok(None);
    }
    let whole = segment.as_secs();
    let secs = #[verifier::truncate] (whole as i64);
    proof {
        crate::duration::lemma_bounded(segment);
        assert(whole == (segment@ / (NANOS_PER_SEC as nat)) as u64);
        assert(secs == #[verifier::truncate] ((segment@ / (NANOS_PER_SEC as nat)) as u64 as i64));
    }
    match at.checked_sub(secs) {
        Some(started_at) => {
            assert(segment_row(segment, at) == Some::<(i64, i64)>((started_at, secs)));
            Ok(Some((started_at, secs)))
        },
        None => Err(CommandError::Clock),
    }
}

/// Store a finished segment that ended at `at` as a row: an empty one is
/// skipped; otherwise it is stored as having started its whole seconds before `at`.
pub fn persist_segment_at(storage: &mut Storage, segment: Duration, at: i64) -> (r: Result<(), CommandError>)
    ensures
        !segment_row_fits(segment, at) ==> r == Err::<(), CommandError>(CommandError::Clock),
        segment_row_fits(segment, at) ==> (r is Ok || r matches Err(CommandError::Storage(StorageError::Sqlite(_)))),
        segment@ == 0 ==> r is Ok,
        r is Ok ==> final(storage).requests() == old(storage).requests() + row_requests(segment_row(segment, at)),
        r is Err ==> final(storage).sent() == old(storage).sent() && final(storage).requests() == old(storage).requests(),
{
    let row = match segment_row_at(segment, at) {
        Ok(row) => row,
        Err(e) => return Err(e),
    };
    match row {
        None => {
            assert(row_requests(segment_row(segment, at)) =~= Seq::<Request>::empty());
            assert(old(storage).requests() + Seq::<Request>::empty() =~= old(storage).requests());
            Ok(())
        },
        Some((started_at, seconds)) => match storage.add_session(started_at, seconds) {
            Ok(()) => {
                assert(row_requests(segment_row(segment, at)) =~= seq![
                    Request::AddSession { started_at, seconds },
                ]);
                assert(old(storage).requests().push(Request::AddSession { started_at, seconds }) =~= old(
                    storage,
                ).requests() + row_requests(segment_row(segment, at)));
                Ok(())
            },
            Err(e) => Err(CommandError::Storage(e)),
        },
    }
}

/// Store a finished segment as ending now (see `persist_segment_at`).
pub fn persist_segment(storage: &mut Storage, segment: Duration) -> (r: Result<(), CommandError>)
    ensures
        segment@ == 0 ==> r is Ok && *final(storage) == *old(storage),
        r is Ok || r matches Err(CommandError::Clock) || r matches Err(CommandError::Storage(StorageError::Sqlite(_))),
        r is Ok ==> exists|at: i64|
            final(storage).requests() == old(storage).requests() + row_requests(#[trigger] segment_row(segment, at)),
        r is Err ==> final(storage).sent() == old(storage).sent() && final(storage).requests() == old(storage).requests(),
{
    if segment.is_zero() {
        assert(row_requests(segment_row(segment, 0)) =~= Seq::<Request>::empty());
        assert(old(storage).requests() + row_requests(segment_row(segment, 0)) =~= old(storage).requests());
        return Ok(());
    }
    let now = match wall_now_secs() {
        Ok(now) => now,
        Err(e) => return Err(e),
    };
    persist_segment_at(storage, segment, now)
}

/// Record the segment boundary `kind` at `at`; nothing but the storage changes.
pub fn mark_segment_at<C: Clock>(ctx: &mut AppContext<C>, kind: EventKind, at: i64) -> (r: Result<(), CommandError>)
    ensures
        r is Ok || r matches Err(CommandError::Storage(StorageError::Sqlite(_))),
        only_storage_changed(*old(ctx), *final(ctx)),
        r is Ok ==> final(ctx).storage.requests() == old(ctx).storage.requests().push(event_request(at, kind)),
        r is Err ==> kept(*old(ctx), *final(ctx)),
        final(ctx).storage.stamps() == old(ctx).storage.stamps(),
{
    match ctx.storage.insert_event(at, kind) {
        Ok(()) => Ok(()),
        Err(e) => Err(CommandError::Storage(e)),
    }
}

/// Record the segment boundary `kind` at the current time: the wall clock
/// is read (the reading kept as the storage's latest stamp) and the event
/// recorded at that reading.
pub fn mark_segment<C: Clock>(ctx: &mut AppContext<C>, kind: EventKind) -> (r: Result<(), CommandError>)
    ensures
        r is Ok || r matches Err(CommandError::Clock) || r matches Err(CommandError::Storage(StorageError::Sqlite(_))),
        only_storage_changed(*old(ctx), *final(ctx)),
        r is Ok ==> exists|at: i64|
            final(ctx).storage.stamps() == old(ctx).storage.stamps().push(at) && final(ctx).storage.requests()
                == old(ctx).storage.requests().push(#[trigger] event_request(at, kind)),
        r is Err ==> kept(*old(ctx), *final(ctx)),
{
    let at = match ctx.storage.stamp_now() {
        Some(at) => at,
        None => return Err(CommandError::Clock),
    };
    mark_segment_at(ctx, kind, at)
}

/// Start a new session: only on duty and only when idle. The segment start
/// is recorded first; only then does the session run and the reminder's
/// firing point clear, so a failure changes nothing.
pub fn start_session<C: Clock>(ctx: &mut AppContext<C>) -> (r: Result<(), CommandError>)
    ensures
        final(ctx).workday == old(ctx).workday,
        final(ctx).settings == old(ctx).settings,
        old(ctx).workday is Off ==> r == Err::<(), CommandError>(
            CommandError::Workday(crate::workday::WorkdayError::NotOnDuty),
        ),
        old(ctx).workday is OnDuty && !(old(ctx).session.state_of() is Idle) ==> r == Err::<
            (),
            CommandError,
        >(CommandError::Session(SessionError::NotIdle)),
        old(ctx).workday is OnDuty && old(ctx).session.state_of() is Idle ==> (r is Ok || r matches Err(
            CommandError::Clock,
        ) || r matches Err(CommandError::Storage(StorageError::Sqlite(_)))),
        r is Err ==> kept(*old(ctx), *final(ctx)),
        r is Ok ==> final(ctx).session.state_of() is Running && final(ctx).session.banked()
            == old(ctx).session.banked() && final(ctx).session.clock_of() == old(ctx).session.clock_of()
            && final(ctx).fire.fired_at() is None && exists|at: i64|
            final(ctx).storage.stamps() == old(ctx).storage.stamps().push(at) && final(ctx).storage.requests()
                == old(ctx).storage.requests().push(#[trigger] event_request(at, EventKind::SegmentStart)),
{
    if let Err(e) = require_on_duty(ctx) {
        return Err(e);
    }
    match ctx.session.state() {
        SessionState::Idle => {},
        _ => return Err(CommandError::Session(SessionError::NotIdle)),
    }
    if let Err(e) = mark_segment(ctx, EventKind::SegmentStart) {
        return Err(e);
    }
    let _ = ctx.session.start();
    ctx.fire.clear();
    Ok(())
}

/// Pause at the session clock reading `now`: only when running. The
/// segment closed, from its start to `now`, is banked; its row is stored as
/// ending at `row_end` (when not empty) and its end event recorded at
/// `mark_at`, in one transaction; if that fails the session goes back to
/// running as it was. On success the reminder's firing point is cleared.
pub fn pause_session_marked<C: Clock>(ctx: &mut AppContext<C>, row_end: i64, mark_at: i64, now: Duration) -> (r: Result<(), CommandError>)
    ensures
        final(ctx).storage.stamps() == old(ctx).storage.stamps(),
        final(ctx).workday == old(ctx).workday,
        final(ctx).settings == old(ctx).settings,
        !(old(ctx).session.state_of() is Running) ==> r == Err::<(), CommandError>(
            CommandError::Session(SessionError::NotRunning),
        ),
        old(ctx).session.state_of() is Running ==> (r is Ok || r matches Err(CommandError::Clock) || r matches Err(
            CommandError::Storage(StorageError::Sqlite(_)),
        )),
        r is Err ==> kept(*old(ctx), *final(ctx)),
        r is Ok ==> final(ctx).fire.fired_at() is None && final(ctx).session.clock_of() == old(
            ctx,
        ).session.clock_of() && final(ctx).session.state_of() == (SessionState::Paused {
            elapsed: final(ctx).session.banked(),
        }) && exists|segment: Duration|
            segment@ == segment_spec(old(ctx).session.state_of(), now) && final(ctx).session.banked()@
                == crate::duration::capped(old(ctx).session.banked()@ + segment@)
                && final(ctx).storage.requests() == old(ctx).storage.requests() + #[trigger] pause_requests_at(
                segment,
                row_end,
                mark_at,
            ),
{
    if !matches!(ctx.session.state(), SessionState::Running { .. }) {
        return Err(CommandError::Session(SessionError::NotRunning));
    }
    let before_state = *ctx.session.state();
    let before_banked = ctx.session.banked_time();
    let segment = match ctx.session.pause_at(now) {
        Ok(segment) => segment,
        Err(e) => return Err(CommandError::Session(e)),
    };
    let row = match segment_row_at(segment, row_end) {
        Ok(row) => row,
        Err(e) => {
            ctx.session.restore_state(before_state, before_banked);
            proof {
                lemma_session_ext(ctx.session, old(ctx).session);
            }
            return Err(e);
        },
    };
    if let Err(e) = ctx.storage.record_session_with_event(row, mark_at, EventKind::SegmentEnd) {
        ctx.session.restore_state(before_state, before_banked);
        proof {
            lemma_session_ext(ctx.session, old(ctx).session);
        }
        return Err(CommandError::Storage(e));
    }
    ctx.fire.clear();
    proof {
        assert(pause_requests_at(segment, row_end, mark_at) == row_requests(row).push(
            event_request(mark_at, EventKind::SegmentEnd),
        ));
    }
    Ok(())
}

/// Pause with the segment ending at `at`: its row ends there and its end
/// event is recorded there (see `pause_session_marked`).
pub fn pause_session_at<C: Clock>(ctx: &mut AppContext<C>, at: i64) -> (r: Result<(), CommandError>)
    ensures
        final(ctx).storage.stamps() == old(ctx).storage.stamps(),
        final(ctx).workday == old(ctx).workday,
        final(ctx).settings == old(ctx).settings,
        !(old(ctx).session.state_of() is Running) ==> r == Err::<(), CommandError>(
            CommandError::Session(SessionError::NotRunning),
        ),
        old(ctx).session.state_of() is Running ==> (r is Ok || r matches Err(CommandError::Clock) || r matches Err(
            CommandError::Storage(StorageError::Sqlite(_)),
        )),
        r is Err ==> kept(*old(ctx), *final(ctx)),
        r is Ok ==> final(ctx).fire.fired_at() is None && final(ctx).session.clock_of() == old(
            ctx,
        ).session.clock_of() && final(ctx).session.state_of() == (SessionState::Paused {
            elapsed: final(ctx).session.banked(),
        }) && exists|segment: Duration|
            final(ctx).session.banked()@ == crate::duration::capped(old(ctx).session.banked()@ + segment@)
                && final(ctx).storage.requests() == old(ctx).storage.requests() + #[trigger] pause_requests(
                segment,
                at,
            ),
{
    let now = ctx.session.clock_now();
    let r = pause_session_marked(ctx, at, at, now);
    proof {
        if r is Ok {
            let segment = choose|segment: Duration|
                segment@ == segment_spec(old(ctx).session.state_of(), now) && ctx.session.banked()@
                    == crate::duration::capped(old(ctx).session.banked()@ + segment@)
                    && ctx.storage.requests() == old(ctx).storage.requests() + #[trigger] pause_requests_at(
                    segment,
                    at,
                    at,
                );
            assert(pause_requests(segment, at) == pause_requests_at(segment, at, at));
        }
    }
    r
}

/// Pause with the segment ending now: the wall clock is read (the reading
/// kept as the storage's latest stamp) and the segment's row and end event
/// are at that reading (see `pause_session_at`).
pub fn pause_session<C: Clock>(ctx: &mut AppContext<C>) -> (r: Result<(), CommandError>)
    ensures
        final(ctx).workday == old(ctx).workday,
        final(ctx).settings == old(ctx).settings,
        !(old(ctx).session.state_of() is Running) ==> r == Err::<(), CommandError>(
            CommandError::Session(SessionError::NotRunning),
        ),
        old(ctx).session.state_of() is Running ==> (r is Ok || r matches Err(CommandError::Clock) || r matches Err(
            CommandError::Storage(StorageError::Sqlite(_)),
        )),
        r is Err ==> kept(*old(ctx), *final(ctx)),
        r is Ok ==> final(ctx).fire.fired_at() is None && final(ctx).session.clock_of() == old(
            ctx,
        ).session.clock_of() && final(ctx).session.state_of() == (SessionState::Paused {
            elapsed: final(ctx).session.banked(),
        }) && exists|segment: Duration, at: i64|
            final(ctx).storage.stamps() == old(ctx).storage.stamps().push(at) && final(ctx).session.banked()@
                == crate::duration::capped(old(ctx).session.banked()@ + segment@)
                && final(ctx).storage.requests() == old(ctx).storage.requests() + #[trigger] pause_requests(
                segment,
                at,
            ),
{
    if !matches!(ctx.session.state(), SessionState::Running { .. }) {
        return Err(CommandError::Session(SessionError::NotRunning));
    }
    let at = match ctx.storage.stamp_now() {
        Some(at) => at,
        None => return Err(CommandError::Clock),
    };
    pause_session_at(ctx, at)
}

/// Resume: only when paused; the banked time is kept. The segment start is
/// recorded first; only then does the session run and the reminder's
/// firing point clear, so a failure changes nothing.
pub fn resume_session<C: Clock>(ctx: &mut AppContext<C>) -> (r: Result<(), CommandError>)
    ensures
        final(ctx).workday == old(ctx).workday,
        final(ctx).settings == old(ctx).settings,
        !(old(ctx).session.state_of() is Paused) ==> r == Err::<(), CommandError>(
            CommandError::Session(SessionError::NotPaused),
        ),
        old(ctx).session.state_of() is Paused ==> (r is Ok || r matches Err(CommandError::Clock) || r matches Err(
            CommandError::Storage(StorageError::Sqlite(_)),
        )),
        r is Err ==> kept(*old(ctx), *final(ctx)),
        r is Ok ==> final(ctx).session.state_of() is Running && final(ctx).session.banked()
            == old(ctx).session.banked() && final(ctx).session.clock_of() == old(ctx).session.clock_of()
            && final(ctx).fire.fired_at() is None && exists|at: i64|
            final(ctx).storage.stamps() == old(ctx).storage.stamps().push(at) && final(ctx).storage.requests()
                == old(ctx).storage.requests().push(#[trigger] event_request(at, EventKind::SegmentStart)),
{
    if !matches!(ctx.session.state(), SessionState::Paused { .. }) {
        return Err(CommandError::Session(SessionError::NotPaused));
    }
    if let Err(e) = mark_segment(ctx, EventKind::SegmentStart) {
        return Err(e);
    }
    let _ = ctx.session.resume();
    ctx.fire.clear();
    Ok(())
}

/// Toggle the timer (tray menu and hotkey): idle starts, running pauses,
/// paused resumes. Returns the action taken; a failure changes nothing.
pub fn toggle_session<C: Clock>(ctx: &mut AppContext<C>) -> (r: Result<TimerAction, CommandError>)
    ensures
        final(ctx).workday == old(ctx).workday,
        r is Ok ==> r == Ok::<TimerAction, CommandError>(toggle_spec(old(ctx).session.state_of())),
        r is Err ==> kept(*old(ctx), *final(ctx)),
        r is Ok && old(ctx).session.state_of() is Idle ==> final(ctx).session.state_of() is Running,
        r is Ok && old(ctx).session.state_of() is Running ==> final(ctx).session.state_of() is Paused,
        r is Ok && old(ctx).session.state_of() is Paused ==> final(ctx).session.state_of() is Running,
        old(ctx).session.state_of() is Idle && old(ctx).workday is Off ==> r == Err::<TimerAction, CommandError>(
            CommandError::Workday(crate::workday::WorkdayError::NotOnDuty),
        ),
        !(old(ctx).session.state_of() is Idle && old(ctx).workday is Off) ==> (r is Ok || r matches Err(
            CommandError::Clock,
        ) || r matches Err(CommandError::Storage(StorageError::Sqlite(_)))),
{
    let action = ctx.session.state().toggle_action();
    let done = match action {
        TimerAction::Start => start_session(ctx),
        TimerAction::Pause => pause_session(ctx),
        TimerAction::Resume => resume_session(ctx),
    };
    match done {
        Ok(()) => Ok(action),
        Err(e) => Err(e),
    }
}

/// Before quitting: a running segment is paused (and so stored); a paused
/// one was stored at its pause, and idle has nothing to store.
pub fn persist_before_quit<C: Clock>(ctx: &mut AppContext<C>) -> (r: Result<(), CommandError>)
    ensures
        final(ctx).workday == old(ctx).workday,
        !(old(ctx).session.state_of() is Running) ==> r is Ok && *final(ctx) == *old(ctx),
        old(ctx).session.state_of() is Running ==> (r is Ok || r matches Err(CommandError::Clock) || r matches Err(
            CommandError::Storage(StorageError::Sqlite(_)),
        )),
        r is Err ==> kept(*old(ctx), *final(ctx)),
        r is Ok && old(ctx).session.state_of() is Running ==> final(ctx).session.state_of() == (SessionState::Paused {
            elapsed: final(ctx).session.banked(),
        }) && exists|segment: Duration, at: i64|
            final(ctx).storage.stamps() == old(ctx).storage.stamps().push(at) && final(ctx).session.banked()@
                == crate::duration::capped(old(ctx).session.banked()@ + segment@)
                && final(ctx).storage.requests() == old(ctx).storage.requests() + #[trigger] pause_requests(
                segment,
                at,
            ),
{
    if let SessionState::Running { .. } = ctx.session.state() {
        pause_session(ctx)
    } else {
        Ok(())
    }
}

/// Restart (on duty only): one reading of the session clock ends the
/// running segment and starts the new one. A running segment is paused and
/// stored first (only that segment: what earlier pauses banked was stored
/// by them), its row and end event at a wall-clock stamp;
/// if storing it fails, the session stays paused with the segment kept in
/// its banked time (nothing is stored, nothing lost). Then the session is
/// reset, the new segment's start recorded, and the session started from
/// zero with the reminder's firing point cleared. If recording the start
/// fails, the session stays idle: what came before is stored, nothing is
/// counted twice.
pub fn restart_session<C: Clock>(ctx: &mut AppContext<C>) -> (r: Result<(), CommandError>)
    ensures
        final(ctx).workday == old(ctx).workday,
        final(ctx).settings == old(ctx).settings,
        old(ctx).workday is Off ==> r == Err::<(), CommandError>(
            CommandError::Workday(crate::workday::WorkdayError::NotOnDuty),
        ) && *final(ctx) == *old(ctx),
        old(ctx).workday is OnDuty ==> (r is Ok || r matches Err(CommandError::Clock) || r matches Err(
            CommandError::Storage(StorageError::Sqlite(_)),
        )),
        r is Err && old(ctx).workday is OnDuty ==> (final(ctx).session.state_of() is Idle
            && final(ctx).session.banked()@ == 0) || (old(ctx).session.state_of() is Running
            && final(ctx).session.state_of() == (SessionState::Paused { elapsed: final(ctx).session.banked() })
            && final(ctx).session.banked()@ >= old(ctx).session.banked()@ && final(ctx).storage.requests()
            == old(ctx).storage.requests()),
        r is Ok ==> final(ctx).session.state_of() is Running && final(ctx).session.banked()@ == 0
            && final(ctx).fire.fired_at() is None,
        r is Ok && !(old(ctx).session.state_of() is Running) ==> exists|at: i64|
            final(ctx).storage.stamps() == old(ctx).storage.stamps().push(at) && final(ctx).storage.requests()
                == old(ctx).storage.requests().push(#[trigger] event_request(at, EventKind::SegmentStart)),
        r is Ok && old(ctx).session.state_of() is Running ==> exists|segment: Duration, end: i64, at: i64|
            final(ctx).storage.requests() == (old(ctx).storage.requests() + #[trigger] pause_requests(
                segment,
                end,
            )).push(#[trigger] event_request(at, EventKind::SegmentStart))
                && final(ctx).storage.stamps() == old(ctx).storage.stamps().push(end).push(at)
                && (final(ctx).session.state_of() matches SessionState::Running { start: restarted }
                && segment@ == segment_spec(old(ctx).session.state_of(), restarted)),
{
    if let Err(e) = require_on_duty(ctx) {
        return Err(e);
    }
    // One reading of the session clock ends the old segment and starts the new one.
    let now = ctx.session.clock_now();
    if let SessionState::Running { .. } = ctx.session.state() {
        let at = match ctx.storage.stamp_now() {
            Some(at) => at,
            None => {
                let _ = ctx.session.pause_at(now);
                proof {
                    crate::duration::lemma_bounded(old(ctx).session.banked());
                }
                return Err(CommandError::Clock);
            },
        };
        if let Err(e) = pause_session_marked(ctx, at, at, now) {
            let _ = ctx.session.pause_at(now);
            proof {
                crate::duration::lemma_bounded(old(ctx).session.banked());
            }
            return Err(e);
        }
        proof {
            let segment = choose|segment: Duration|
                segment@ == segment_spec(old(ctx).session.state_of(), now) && ctx.session.banked()@
                    == crate::duration::capped(old(ctx).session.banked()@ + segment@)
                    && ctx.storage.requests() == old(ctx).storage.requests() + #[trigger] pause_requests_at(
                    segment,
                    at,
                    at,
                );
            assert(pause_requests(segment, at) == pause_requests_at(segment, at, at));
        }
    }
    ctx.session.reset();
    if let Err(e) = mark_segment(ctx, EventKind::SegmentStart) {
        return Err(e);
    }
    let _ = ctx.session.start_at(now);
    ctx.fire.clear();
    Ok(())
}

/// The snapshot and reminder decision taken from `before` at the session
/// clock reading `now`, with `after` the state it leaves: the state's name,
/// the total in milliseconds, whether on duty; the reminder evaluated on the
/// running segment with the threshold in force and a five-minute repeat,
/// recording the firing point when it fires.
pub open spec fn status_holds<C: Clock>(
    before: AppContext<C>,
    after: AppContext<C>,
    out: (SessionStatus, ReminderDecision),
    now: Duration,
) -> bool {
    let state = before.session.state_of();
    let segment = segment_spec(state, now);
    &&& out.0.state@ == state_key_spec(state)
    &&& out.0.total_ms == (total_spec(state, before.session.banked(), now) / 1_000_000) as u64
    &&& out.0.on_duty == (before.workday is OnDuty)
    &&& out.1.fire == fire_due_for(
        before.fire.fired_at(),
        segment,
        (before.settings.threshold_min * 60 * NANOS_PER_SEC) as nat,
        (300 * NANOS_PER_SEC) as nat,
    )
    &&& out.1.threshold_min == before.settings.threshold_min
    &&& out.1.notify_enabled == before.settings.notify_enabled
    &&& (if out.1.fire {
        after.fire.fired_at() matches Some(d) && d@ == segment
    } else {
        after.fire.fired_at() == before.fire.fired_at()
    })
    &&& after.session == before.session
    &&& after.workday == before.workday
    &&& after.settings == before.settings
    &&& after.storage == before.storage
}

/// The session snapshot and the reminder decision at the session clock
/// reading `now` (see `status_holds`).
pub fn status_at<C: Clock>(ctx: &mut AppContext<C>, now: Duration) -> (out: (SessionStatus, ReminderDecision))
    ensures
        status_holds(*old(ctx), *final(ctx), out, now),
{
    let state = state_key(ctx.session.state());
    let total_ms = ctx.session.total_at(now).as_millis() as u64;
    let status = SessionStatus { state, total_ms, on_duty: ctx.workday.is_on_duty() };
    let segment = ctx.session.segment_at(now);
    let config = ReminderConfig::from_minutes(ctx.settings.threshold_min);
    let fire = ctx.fire.evaluate(segment, &config);
    let decision = ReminderDecision {
        fire,
        threshold_min: ctx.settings.threshold_min,
        notify_enabled: ctx.settings.notify_enabled,
    };
    (status, decision)
}

/// The session snapshot and the reminder decision at one reading of the
/// session's clock (see `status_at`).
pub fn status_snapshot<C: Clock>(ctx: &mut AppContext<C>) -> (out: (SessionStatus, ReminderDecision))
    ensures
        exists|now: Duration| #[trigger] status_holds(*old(ctx), *final(ctx), out, now),
        final(ctx).session == old(ctx).session,
        final(ctx).workday == old(ctx).workday,
        final(ctx).settings == old(ctx).settings,
        out.0.state@ == state_key_spec(old(ctx).session.state_of()),
        out.0.on_duty == (old(ctx).workday is OnDuty),
        old(ctx).session.state_of() is Idle ==> out.0.total_ms == 0,
        old(ctx).session.state_of() matches SessionState::Paused { elapsed } ==> out.0.total_ms == (elapsed@
            / 1_000_000) as u64,
        out.1.threshold_min == old(ctx).settings.threshold_min,
        out.1.notify_enabled == old(ctx).settings.notify_enabled,
        !(old(ctx).session.state_of() is Running) ==> out.1.fire == fire_due_for(
            old(ctx).fire.fired_at(),
            0,
            (old(ctx).settings.threshold_min * 60 * NANOS_PER_SEC) as nat,
            (300 * NANOS_PER_SEC) as nat,
        ),
        out.1.fire ==> final(ctx).fire.fired_at() is Some,
        !out.1.fire ==> final(ctx).fire.fired_at() == old(ctx).fire.fired_at(),
{
    let now = ctx.session.clock_now();
    let out = status_at(ctx, now);
    assert(status_holds(*old(ctx), *ctx, out, now));
    out
}

} // verus!
