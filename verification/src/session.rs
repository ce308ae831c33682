//! The work-session timer: a three-state machine (idle, running, paused)
//! over an injected monotonic clock. The time already banked by finished
//! segments is kept apart from the running segment's start, so a pause can
//! hand back the length of the segment it closes.

use vstd::prelude::*;

use crate::duration::{capped, lemma_bounded, Duration};

verus! {

#[verifier::external_type_specification]
#[verifier::external_body]
pub struct ExInstant(std::time::Instant);

/// A monotonic clock: `now` measures from an arbitrary origin and never goes back.
pub trait Clock {
    /// The current instant.
    fn now(&self) -> Duration;
}

/// The system's monotonic clock, measured from when it was made.
pub struct RealClock {
    epoch: std::time::Instant,
}

/// Calls `std::time::Instant::now`; nothing is promised of the instant.
#[verifier::external_body]
fn instant_now() -> std::time::Instant {
    std::time::Instant::now()
}

/// Calls `std::time::Instant::saturating_duration_since` and hands the span
/// back as whole seconds and the nanoseconds below a second, which std
/// documents as less than one billion (zero when `earlier` is not earlier).
/// Nothing is promised of the span itself.
#[verifier::external_body]
fn instant_since(later: &std::time::Instant, earlier: &std::time::Instant) -> (parts: (u64, u32))
    ensures
        parts.1 < 1_000_000_000,
{
    let span = later.saturating_duration_since(*earlier);
    (span.as_secs(), span.subsec_nanos())
}

impl RealClock {
    /// A clock whose origin is now.
    pub fn new() -> RealClock {
        RealClock { epoch: instant_now() }
    }
}

impl Clock for RealClock {
    fn now(&self) -> Duration {
        let now = instant_now();
        let (secs, nanos) = instant_since(&now, &self.epoch);
        Duration::new(secs, nanos)
    }
}

/// Where a session stands.
#[derive(Clone, Copy, Debug, PartialEq, Eq, Structural)]
pub enum SessionState {
    /// Not started; nothing banked.
    Idle,
    /// Running since the clock read `start`.
    Running {
        /// The clock reading when this segment began.
        start: Duration,
    },
    /// Paused with `elapsed` worked in all segments so far.
    Paused {
        /// The banked total.
        elapsed: Duration,
    },
}

/// A refused session operation.
#[derive(Clone, Copy, Debug, PartialEq, Eq, Structural)]
pub enum SessionError {
    /// `start` outside the idle state (restarting needs a reset first).
    NotIdle,
    /// `pause` outside the running state.
    NotRunning,
    /// `resume` outside the paused state.
    NotPaused,
}

/// What toggling the timer does in each state.
#[derive(Clone, Copy, Debug, PartialEq, Eq, Structural)]
pub enum TimerAction {
    /// Start a new session.
    Start,
    /// Pause the running session.
    Pause,
    /// Resume the paused session.
    Resume,
}

/// The action a toggle takes: idle starts, running pauses, paused resumes.
pub open spec fn toggle_spec(state: SessionState) -> TimerAction {
    match state {
        SessionState::Idle => TimerAction::Start,
        SessionState::Running { .. } => TimerAction::Pause,
        SessionState::Paused { .. } => TimerAction::Resume,
    }
}

impl SessionState {
    /// The action a toggle of the timer takes from this state.
    pub fn toggle_action(&self) -> (action: TimerAction)
        ensures
            action == toggle_spec(*self),
    {
        match self {
            SessionState::Idle => TimerAction::Start,
            SessionState::Running { .. } => TimerAction::Pause,
            SessionState::Paused { .. } => TimerAction::Resume,
        }
    }
}

/// Time from `start` to `now`; a reading before `start` counts as none.
pub open spec fn span_between(start: Duration, now: Duration) -> nat {
    if now@ >= start@ {
        (now@ - start@) as nat
    } else {
        0
    }
}

/// The running segment's length at `now`; zero unless running.
pub open spec fn segment_spec(state: SessionState, now: Duration) -> nat {
    match state {
        SessionState::Running { start } => span_between(start, now),
        _ => 0,
    }
}

/// The session's total at `now`: zero when idle, the banked time plus the
/// running segment when running, the banked time when paused.
pub open spec fn total_spec(state: SessionState, banked: Duration, now: Duration) -> nat {
    match state {
        SessionState::Idle => 0,
        SessionState::Running { start } => capped(banked@ + span_between(start, now)),
        SessionState::Paused { elapsed } => elapsed@,
    }
}

/// Idle sessions have banked nothing; a paused one shows what it banked.
pub open spec fn session_wf(state: SessionState, banked: Duration) -> bool {
    match state {
        SessionState::Idle => banked@ == 0,
        SessionState::Paused { elapsed } => elapsed == banked,
        SessionState::Running { .. } => true,
    }
}

/// A work session over clock `C`.
pub struct WorkSession<C: Clock = RealClock> {
    clock: C,
    state: SessionState,
    accumulated: Duration,
}

impl<C: Clock> WorkSession<C> {
    /// The session's state.
    pub closed spec fn state_of(&self) -> SessionState {
        self.state
    }

    /// The time banked by finished segments.
    pub closed spec fn banked(&self) -> Duration {
        self.accumulated
    }

    /// The session's clock.
    pub closed spec fn clock_of(&self) -> C {
        self.clock
    }

    /// The session is consistent: every session, at all times, is idle with
    /// nothing banked, running, or paused showing what it banked.
    #[verifier::type_invariant]
    pub open spec fn wf(&self) -> bool {
        session_wf(self.state_of(), self.banked())
    }

    /// An idle session over `clock`.
    pub fn new(clock: C) -> (s: Self)
        ensures
            s.state_of() == SessionState::Idle,
            s.banked()@ == 0,
            s.clock_of() == clock,
    {
        WorkSession { clock, state: SessionState::Idle, accumulated: Duration::zero() }
    }

    /// A reading of the session's clock.
    pub fn clock_now(&self) -> (now: Duration) {
        self.clock.now()
    }

    /// The time banked by finished segments.
    pub fn banked_time(&self) -> (d: Duration)
        ensures
            d == self.banked(),
    {
        self.accumulated
    }

    /// Put back a consistent state and banked time taken earlier (a failed
    /// operation undoes its transition this way); the clock stays.
    pub fn restore_state(&mut self, state: SessionState, banked: Duration)
        requires
            session_wf(state, banked),
        ensures
            final(self).state_of() == state,
            final(self).banked() == banked,
            final(self).clock_of() == old(self).clock_of(),
    {
        // Pass through a running state, consistent with any banked time, so
        // that the session is consistent after each step.
        self.state = SessionState::Running { start: Duration::zero() };
        self.accumulated = banked;
        self.state = state;
    }

    /// The current state.
    pub fn state(&self) -> (state: &SessionState)
        ensures
            *state == self.state_of(),
    {
        &self.state
    }

    /// Start with the clock reading `now`; only legal when idle.
    pub fn start_at(&mut self, now: Duration) -> (r: Result<(), SessionError>)
        ensures
            final(self).clock_of() == old(self).clock_of(),
            session_model(*final(self)) == model_step(session_model(*old(self)), TimerAction::Start, now).0,
            old(self).state_of() is Idle ==> r is Ok && final(self).state_of() == (SessionState::Running {
                start: now,
            }) && final(self).banked() == old(self).banked(),
            !(old(self).state_of() is Idle) ==> r == Err::<(), SessionError>(SessionError::NotIdle)
                && *final(self) == *old(self),
    {
        match self.state {
            SessionState::Idle => {
                self.state = SessionState::Running { start: now };
                Ok(())
            },
            _ => Err(SessionError::NotIdle),
        }
    }

    /// Start a new session; only legal when idle.
    pub fn start(&mut self) -> (r: Result<(), SessionError>)
        ensures
            exists|now: Duration| session_model(*final(self)) == #[trigger] model_step(
                session_model(*old(self)),
                TimerAction::Start,
                now,
            ).0,
            final(self).clock_of() == old(self).clock_of(),
            old(self).state_of() is Idle ==> r is Ok && final(self).state_of() is Running
                && final(self).banked() == old(self).banked(),
            !(old(self).state_of() is Idle) ==> r == Err::<(), SessionError>(SessionError::NotIdle)
                && *final(self) == *old(self),
    {
        match self.state {
            SessionState::Idle => {
                let now = self.clock.now();
                self.start_at(now)
            },
            _ => {
                proof {
                    let z = vstd::pervasive::arbitrary::<Duration>();
                    assert(session_model(*self) == model_step(session_model(*old(self)), TimerAction::Start, z).0);
                }
                Err(SessionError::NotIdle)
            },
        }
    }

    /// Pause with the clock reading `now`; only legal when running. The
    /// segment's length is banked and handed back.
    pub fn pause_at(&mut self, now: Duration) -> (r: Result<Duration, SessionError>)
        ensures
            session_model(*final(self)) == model_step(session_model(*old(self)), TimerAction::Pause, now).0,
            r matches Ok(segment) ==> model_step(session_model(*old(self)), TimerAction::Pause, now).1 == Some(
                segment@,
            ),
            final(self).clock_of() == old(self).clock_of(),
            match old(self).state_of() {
                SessionState::Running { start } => {
                    &&& r matches Ok(segment) && segment@ == span_between(start, now)
                    &&& final(self).banked()@ == capped(old(self).banked()@ + span_between(start, now))
                    &&& final(self).state_of() == (SessionState::Paused { elapsed: final(self).banked() })
                },
                _ => r == Err::<Duration, SessionError>(SessionError::NotRunning) && *final(self) == *old(
                    self,
                ),
            },
    {
        match self.state {
            SessionState::Running { start } => {
                let segment = now.saturating_sub(start);
                self.accumulated = self.accumulated.saturating_add(segment);
                self.state = SessionState::Paused { elapsed: self.accumulated };
                Ok(segment)
            },
            _ => Err(SessionError::NotRunning),
        }
    }

    /// Pause; only legal when running. The segment's length is banked and
    /// handed back (a clock reading before the segment's start counts as none).
    pub fn pause(&mut self) -> (r: Result<Duration, SessionError>)
        ensures
            exists|now: Duration| session_model(*final(self)) == #[trigger] model_step(
                session_model(*old(self)),
                TimerAction::Pause,
                now,
            ).0,
            final(self).clock_of() == old(self).clock_of(),
            old(self).state_of() is Running ==> (r matches Ok(segment) && final(self).banked()@ == capped(
                old(self).banked()@ + segment@,
            ) && final(self).state_of() == (SessionState::Paused { elapsed: final(self).banked() })),
            !(old(self).state_of() is Running) ==> r == Err::<Duration, SessionError>(
                SessionError::NotRunning,
            ) && *final(self) == *old(self),
    {
        match self.state {
            SessionState::Running { .. } => {
                let now = self.clock.now();
                self.pause_at(now)
            },
            _ => {
                proof {
                    let z = vstd::pervasive::arbitrary::<Duration>();
                    assert(session_model(*self) == model_step(session_model(*old(self)), TimerAction::Pause, z).0);
                }
                Err(SessionError::NotRunning)
            },
        }
    }

    /// Resume with the clock reading `now`; only legal when paused. The
    /// banked time is kept.
    pub fn resume_at(&mut self, now: Duration) -> (r: Result<(), SessionError>)
        ensures
            final(self).clock_of() == old(self).clock_of(),
            session_model(*final(self)) == model_step(session_model(*old(self)), TimerAction::Resume, now).0,
            old(self).state_of() is Paused ==> r is Ok && final(self).state_of() == (SessionState::Running {
                start: now,
            }) && final(self).banked() == old(self).banked(),
            !(old(self).state_of() is Paused) ==> r == Err::<(), SessionError>(SessionError::NotPaused)
                && *final(self) == *old(self),
    {
        match self.state {
            SessionState::Paused { .. } => {
                self.state = SessionState::Running { start: now };
                Ok(())
            },
            _ => Err(SessionError::NotPaused),
        }
    }

    /// Resume; only legal when paused. The banked time is kept.
    pub fn resume(&mut self) -> (r: Result<(), SessionError>)
        ensures
            exists|now: Duration| session_model(*final(self)) == #[trigger] model_step(
                session_model(*old(self)),
                TimerAction::Resume,
                now,
            ).0,
            final(self).clock_of() == old(self).clock_of(),
            old(self).state_of() is Paused ==> r is Ok && final(self).state_of() is Running
                && final(self).banked() == old(self).banked(),
            !(old(self).state_of() is Paused) ==> r == Err::<(), SessionError>(SessionError::NotPaused)
                && *final(self) == *old(self),
    {
        match self.state {
            SessionState::Paused { .. } => {
                let now = self.clock.now();
                self.resume_at(now)
            },
            _ => {
                proof {
                    let z = vstd::pervasive::arbitrary::<Duration>();
                    assert(session_model(*self) == model_step(session_model(*old(self)), TimerAction::Resume, z).0);
                }
                Err(SessionError::NotPaused)
            },
        }
    }

    /// Back to idle with nothing banked, from any state.
    pub fn reset(&mut self)
        ensures
            final(self).clock_of() == old(self).clock_of(),
            final(self).state_of() == SessionState::Idle,
            final(self).banked()@ == 0,
    {
        self.state = SessionState::Running { start: Duration::zero() };
        self.accumulated = Duration::zero();
        self.state = SessionState::Idle;
    }

    /// The running segment's length at the clock reading `now`; zero unless running.
    pub fn segment_at(&self, now: Duration) -> (d: Duration)
        ensures
            d@ == segment_spec(self.state_of(), now),
    {
        match self.state {
            SessionState::Running { start } => now.saturating_sub(start),
            _ => Duration::zero(),
        }
    }

    /// The running segment's length; zero when paused or idle.
    pub fn segment_secs(&self) -> (d: Duration)
        ensures
            !(self.state_of() is Running) ==> d@ == 0,
    {
        match self.state {
            SessionState::Running { .. } => {
                let now = self.clock.now();
                self.segment_at(now)
            },
            _ => Duration::zero(),
        }
    }

    /// The total worked at the clock reading `now`.
    pub fn total_at(&self, now: Duration) -> (d: Duration)
        ensures
            d@ == total_spec(self.state_of(), self.banked(), now),
    {
        match self.state {
            SessionState::Idle => Duration::zero(),
            SessionState::Running { start } => self.accumulated.saturating_add(now.saturating_sub(start)),
            SessionState::Paused { elapsed } => elapsed,
        }
    }

    /// The total worked: zero when idle, the banked time when paused, and
    /// at least the banked time when running.
    pub fn total(&self) -> (d: Duration)
        ensures
            self.state_of() is Idle ==> d@ == 0,
            self.state_of() matches SessionState::Paused { elapsed } ==> d == elapsed,
            self.state_of() is Running ==> d@ >= self.banked()@,
    {
        match self.state {
            SessionState::Running { .. } => {
                let now = self.clock.now();
                let d = self.total_at(now);
                proof {
                    lemma_bounded(self.accumulated);
                }
                d
            },
            SessionState::Idle => Duration::zero(),
            SessionState::Paused { elapsed } => elapsed,
        }
    }
}

/// Two sessions with the same state, banked time and clock are the same session.
pub proof fn lemma_session_ext<C: Clock>(a: WorkSession<C>, b: WorkSession<C>)
    requires
        a.state_of() == b.state_of(),
        a.banked() == b.banked(),
        a.clock_of() == b.clock_of(),
    ensures
        a == b,
{
}

impl Default for WorkSession<RealClock> {
    fn default() -> (s: Self)
        ensures
            s.state_of() == SessionState::Idle,
            s.banked()@ == 0,
    {
        WorkSession::new(RealClock::new())
    }
}

/// Law: while paused the total stays frozen, whatever the clock reads.
pub proof fn lemma_paused_total_frozen(elapsed: Duration, now: Duration, later: Duration)
    ensures
        total_spec(SessionState::Paused { elapsed }, elapsed, now) == total_spec(
            SessionState::Paused { elapsed },
            elapsed,
            later,
        ),
{
}

/// Law: pausing keeps the total (the segment is banked), and resuming keeps
/// it too (the new segment starts from nothing).
pub proof fn lemma_pause_resume_keep_total(start: Duration, banked: Duration, now: Duration, elapsed: Duration)
    requires
        elapsed@ == capped(banked@ + span_between(start, now)),
    ensures
        total_spec(SessionState::Paused { elapsed }, elapsed, now) == total_spec(
            SessionState::Running { start },
            banked,
            now,
        ),
        total_spec(SessionState::Running { start: now }, elapsed, now) == total_spec(
            SessionState::Paused { elapsed },
            elapsed,
            now,
        ),
{
    lemma_bounded(elapsed);
}

/// Law: while running, the total is the banked time plus the running
/// segment, and it never falls as the clock moves on.
pub proof fn lemma_running_total_grows(start: Duration, banked: Duration, now: Duration, later: Duration)
    requires
        now@ <= later@,
    ensures
        total_spec(SessionState::Running { start }, banked, now) == capped(
            banked@ + segment_spec(SessionState::Running { start }, now),
        ),
        total_spec(SessionState::Running { start }, banked, now) <= total_spec(
            SessionState::Running { start },
            banked,
            later,
        ),
        banked@ <= total_spec(SessionState::Running { start }, banked, now),
{
    lemma_bounded(banked);
}

/// Law: a toggle always names the one operation the state allows.
pub proof fn lemma_toggle_matches_state(state: SessionState)
    ensures
        toggle_spec(state) == TimerAction::Start <==> state is Idle,
        toggle_spec(state) == TimerAction::Pause <==> state is Running,
        toggle_spec(state) == TimerAction::Resume <==> state is Paused,
{
}

/// What a session is, for a run of timer operations: the running segment's
/// start (when running), whether started, and the banked time.
pub open spec fn session_model<C: Clock>(s: WorkSession<C>) -> (Option<Duration>, bool, nat) {
    (
        match s.state_of() {
            SessionState::Running { start } => Some(start),
            _ => None,
        },
        !(s.state_of() is Idle),
        s.banked()@,
    )
}

/// One timer operation `op` at clock reading `now` on a session standing at
/// `m`: where it then stands, and the segment it banked (a pause's). A start
/// acts only when not started, a pause only when running, a resume only when
/// paused; a refused operation changes nothing.
pub open spec fn model_step(m: (Option<Duration>, bool, nat), op: TimerAction, now: Duration) -> ((Option<Duration>, bool, nat), Option<nat>) {
    let (running, started, banked) = m;
    match op {
        TimerAction::Start => if !started {
            ((Some(now), true, banked), None)
        } else {
            (m, None)
        },
        TimerAction::Pause => match running {
            Some(start) => ((None, true, capped(banked + span_between(start, now))), Some(span_between(start, now))),
            None => (m, None),
        },
        TimerAction::Resume => if started && running is None {
            ((Some(now), true, banked), None)
        } else {
            (m, None)
        },
    }
}

/// The model of a run of timer operations, each with the clock reading it
/// was taken at, from a new session: where the session stands, and the
/// segments that the pauses banked, in order.
pub open spec fn replay(ops: Seq<(TimerAction, Duration)>) -> ((Option<Duration>, bool, nat), Seq<nat>)
    decreases ops.len(),
{
    if ops.len() == 0 {
        ((None, false, 0), Seq::empty())
    } else {
        let (m, segments) = replay(ops.drop_last());
        let (next, banked) = model_step(m, ops.last().0, ops.last().1);
        (
            next,
            match banked {
                Some(seg) => segments.push(seg),
                None => segments,
            },
        )
    }
}

/// The sum of the segment lengths.
pub open spec fn segments_sum(segments: Seq<nat>) -> nat
    decreases segments.len(),
{
    if segments.len() == 0 {
        0
    } else {
        segments_sum(segments.drop_last()) + segments.last()
    }
}

/// Banking a segment onto a capped total is banking it onto the uncapped one.
proof fn lemma_capped_add(x: nat, y: nat)
    ensures
        capped(capped(x) + y) == capped(x + y),
{
}

/// Law: after any run of start, pause and resume operations, the banked
/// time is the sum of the segments the pauses banked (capped at the longest
/// span), so time spent paused never counts and no segment counts twice.
pub proof fn lemma_banked_is_sum_of_segments(ops: Seq<(TimerAction, Duration)>)
    ensures
        replay(ops).0.2 == capped(segments_sum(replay(ops).1)),
    decreases ops.len(),
{
    if ops.len() > 0 {
        lemma_banked_is_sum_of_segments(ops.drop_last());
        let (m, segments) = replay(ops.drop_last());
        let (op, now) = ops.last();
        if op == TimerAction::Pause && m.0 is Some {
            let seg = span_between(m.0->0, now);
            assert(segments.push(seg).drop_last() =~= segments);
            lemma_capped_add(segments_sum(segments), seg);
        }
    }
}

/// Law: a run of real sessions, each the last after one of `ops` (as
/// `start_at`, `pause_at` and `resume_at` state their effect), starting from
/// a new session, stands where the model of the run does; so its banked time
/// is the capped sum of the segments its pauses banked.
pub proof fn lemma_run_follows_replay<C: Clock>(runs: Seq<WorkSession<C>>, ops: Seq<(TimerAction, Duration)>)
    requires
        runs.len() == ops.len() + 1,
        session_model(runs[0]) == (None::<Duration>, false, 0nat),
        forall|i: int|
            0 <= i < ops.len() ==> session_model(#[trigger] runs[i + 1]) == model_step(
                session_model(runs[i]),
                ops[i].0,
                ops[i].1,
            ).0,
    ensures
        session_model(runs.last()) == replay(ops).0,
        runs.last().banked()@ == capped(segments_sum(replay(ops).1)),
    decreases ops.len(),
{
    if ops.len() > 0 {
        let k = ops.len() - 1;
        let shorter = runs.take(runs.len() - 1);
        assert forall|i: int| 0 <= i < ops.drop_last().len() implies session_model(#[trigger] shorter[i + 1])
            == model_step(session_model(shorter[i]), ops.drop_last()[i].0, ops.drop_last()[i].1).0 by {
            assert(shorter[i + 1] == runs[i + 1]);
            assert(session_model(runs[i + 1]) == model_step(session_model(runs[i]), ops[i].0, ops[i].1).0);
        }
        lemma_run_follows_replay(shorter, ops.drop_last());
        assert(shorter.last() == runs[k]);
        assert(session_model(runs[k + 1]) == model_step(session_model(runs[k]), ops[k].0, ops[k].1).0);
    }
    lemma_banked_is_sum_of_segments(ops);
}

} // verus!
