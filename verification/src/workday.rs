//! The workday layer: the clock-in/clock-out state machine, the stored event
//! kinds, the automatic clock-out deadline, and the reduction of one day's
//! events into duty, work and rest time plus the blocks of the day's chart.
//! All instants are Unix seconds handed in by the caller.

use vstd::prelude::*;

verus! {

// ------------------------------------------------------------------
// Event kinds and their stored text
// ------------------------------------------------------------------

/// What an event records.
#[derive(Clone, Copy, Debug, PartialEq, Eq, Structural)]
pub enum EventKind {
    /// Clock-in.
    ClockIn,
    /// Manual clock-out.
    ClockOut,
    /// Automatic clock-out after the configured number of hours.
    AutoClockOut,
    /// A timed segment begins (start or resume).
    SegmentStart,
    /// A timed segment ends (pause, or closing at clock-out).
    SegmentEnd,
}

/// The text under which an event kind is stored.
pub open spec fn kind_text(kind: EventKind) -> Seq<char> {
    match kind {
        EventKind::ClockIn => "clock_in"@,
        EventKind::ClockOut => "clock_out"@,
        EventKind::AutoClockOut => "auto_clock_out"@,
        EventKind::SegmentStart => "segment_start"@,
        EventKind::SegmentEnd => "segment_end"@,
    }
}

/// The event kind stored under `text`, if any.
pub open spec fn kind_of_text(text: Seq<char>) -> Option<EventKind> {
    if text == kind_text(EventKind::ClockIn) {
        Some(EventKind::ClockIn)
    } else if text == kind_text(EventKind::ClockOut) {
        Some(EventKind::ClockOut)
    } else if text == kind_text(EventKind::AutoClockOut) {
        Some(EventKind::AutoClockOut)
    } else if text == kind_text(EventKind::SegmentStart) {
        Some(EventKind::SegmentStart)
    } else if text == kind_text(EventKind::SegmentEnd) {
        Some(EventKind::SegmentEnd)
    } else {
        None
    }
}

/// Whether two strings hold the same characters.
fn same_text(a: &str, b: &str) -> (same: bool)
    ensures
        same == (a@ == b@),
{
    let n = a.unicode_len();
    if n != b.unicode_len() {
        return false;
    }
    let mut i: usize = 0;
    while i < n
        invariant
            n == a@.len(),
            n == b@.len(),
            i <= n,
            forall|j: int| 0 <= j < i ==> a@[j] == b@[j],
        decreases n - i,
    {
        if a.get_char(i) != b.get_char(i) {
            return false;
        }
        i += 1;
    }
    assert(a@ =~= b@);
    true
}

impl EventKind {
    /// The stored text of this kind.
    pub fn as_str(&self) -> (text: &'static str)
        ensures
            text@ == kind_text(*self),
    {
        match self {
            EventKind::ClockIn => "clock_in",
            EventKind::ClockOut => "clock_out",
            EventKind::AutoClockOut => "auto_clock_out",
            EventKind::SegmentStart => "segment_start",
            EventKind::SegmentEnd => "segment_end",
        }
    }

    /// The kind stored under `text`; `None` for any other text.
    pub fn parse(text: &str) -> (kind: Option<EventKind>)
        ensures
            kind == kind_of_text(text@),
    {
        if same_text(text, "clock_in") {
            Some(EventKind::ClockIn)
        } else if same_text(text, "clock_out") {
            Some(EventKind::ClockOut)
        } else if same_text(text, "auto_clock_out") {
            Some(EventKind::AutoClockOut)
        } else if same_text(text, "segment_start") {
            Some(EventKind::SegmentStart)
        } else if same_text(text, "segment_end") {
            Some(EventKind::SegmentEnd)
        } else {
            None
        }
    }
}

/// Parsing the stored text of a kind gives that kind back, so no two kinds
/// share a text.
pub proof fn lemma_kind_text_roundtrip(kind: EventKind)
    ensures
        kind_of_text(kind_text(kind)) == Some(kind),
{
    reveal_strlit("clock_in");
    reveal_strlit("clock_out");
    reveal_strlit("auto_clock_out");
    reveal_strlit("segment_start");
    reveal_strlit("segment_end");
    assert("clock_in"@.len() == 8);
    assert("clock_out"@.len() == 9);
    assert("auto_clock_out"@.len() == 14);
    assert("segment_start"@.len() == 13);
    assert("segment_end"@.len() == 11);
}

// ------------------------------------------------------------------
// The clock-in / clock-out state machine
// ------------------------------------------------------------------

/// A refused workday transition.
#[derive(Clone, Copy, Debug, PartialEq, Eq, Structural)]
pub enum WorkdayError {
    /// Clock-in while already on duty.
    AlreadyOnDuty,
    /// A clock-out (or timing) while not on duty.
    NotOnDuty,
}

/// What a clock-out hands back: when the duty began and its stored row id.
#[derive(Clone, Copy, Debug, PartialEq, Eq, Structural)]
pub struct DutySpan {
    /// Clock-in instant (Unix seconds).
    pub clock_in_at: i64,
    /// Row id of the workday.
    pub id: i64,
}

/// Off duty, or on duty since `clock_in_at` under stored row `id`.
#[derive(Clone, Copy, Debug, PartialEq, Eq, Structural)]
pub enum WorkdayState {
    /// Not clocked in.
    Off,
    /// Clocked in.
    OnDuty {
        /// Clock-in instant (Unix seconds).
        clock_in_at: i64,
        /// Row id of the workday.
        id: i64,
    },
}

impl Default for WorkdayState {
    fn default() -> (state: WorkdayState)
        ensures
            state == WorkdayState::Off,
    {
        WorkdayState::Off
    }
}

/// The state a clock-in at `at` under row `id` leads to, with its answer.
pub open spec fn clock_in_spec(state: WorkdayState, at: i64, id: i64) -> (WorkdayState, Result<(), WorkdayError>) {
    match state {
        WorkdayState::Off => (WorkdayState::OnDuty { clock_in_at: at, id }, Ok(())),
        WorkdayState::OnDuty { .. } => (state, Err(WorkdayError::AlreadyOnDuty)),
    }
}

/// The state a clock-out leads to, with its answer.
pub open spec fn clock_out_spec(state: WorkdayState) -> (WorkdayState, Result<DutySpan, WorkdayError>) {
    match state {
        WorkdayState::Off => (state, Err(WorkdayError::NotOnDuty)),
        WorkdayState::OnDuty { clock_in_at, id } => (WorkdayState::Off, Ok(DutySpan { clock_in_at, id })),
    }
}

/// The state restored from the latest stored workday `(id, clock_in_at, clock_out_at)`.
pub open spec fn from_latest_spec(latest: Option<(i64, i64, Option<i64>)>) -> WorkdayState {
    match latest {
        Some((id, clock_in_at, None)) => WorkdayState::OnDuty { clock_in_at, id },
        _ => WorkdayState::Off,
    }
}

impl WorkdayState {
    /// Clock in at `at`; only legal while off duty.
    pub fn clock_in(&mut self, at: i64, id: i64) -> (r: Result<(), WorkdayError>)
        ensures
            (*final(self), r) == clock_in_spec(*old(self), at, id),
    {
        if self.is_on_duty() {
            return Err(WorkdayError::AlreadyOnDuty);
        }
        *self = WorkdayState::OnDuty { clock_in_at: at, id };
        Ok(())
    }

    /// Clock out; only legal while on duty. Returns the duty's clock-in and row id.
    pub fn clock_out(&mut self) -> (r: Result<DutySpan, WorkdayError>)
        ensures
            (*final(self), r) == clock_out_spec(*old(self)),
    {
        match *self {
            WorkdayState::OnDuty { clock_in_at, id } => {
                *self = WorkdayState::Off;
                Ok(DutySpan { clock_in_at, id })
            },
            WorkdayState::Off => Err(WorkdayError::NotOnDuty),
        }
    }

    /// Whether clocked in.
    pub fn is_on_duty(&self) -> (on: bool)
        ensures
            on == (*self is OnDuty),
    {
        match self {
            WorkdayState::OnDuty { .. } => true,
            WorkdayState::Off => false,
        }
    }

    /// Restore from the latest stored workday: an unclosed row means on duty.
    pub fn from_latest(latest: Option<(i64, i64, Option<i64>)>) -> (state: WorkdayState)
        ensures
            state == from_latest_spec(latest),
    {
        match latest {
            Some((id, clock_in_at, None)) => WorkdayState::OnDuty { clock_in_at, id },
            _ => WorkdayState::Off,
        }
    }
}

/// A clock-in followed by a clock-out returns to off duty and hands back
/// that clock-in; from off duty, a clock-out is refused and changes nothing.
pub proof fn lemma_clock_in_then_out(at: i64, id: i64)
    ensures
        ({
            let (on, r1) = clock_in_spec(WorkdayState::Off, at, id);
            let (off, r2) = clock_out_spec(on);
            r1 is Ok && off == WorkdayState::Off && r2 == Ok::<DutySpan, WorkdayError>(
                DutySpan { clock_in_at: at, id },
            )
        }),
        clock_out_spec(WorkdayState::Off) == (
        WorkdayState::Off,
        Err::<DutySpan, WorkdayError>(WorkdayError::NotOnDuty),
    ),
{
}

/// The automatic clock-out instant: `hours` after clock-in.
pub open spec fn auto_out_at(clock_in_at: i64, hours: u32) -> int {
    clock_in_at + hours * 3600
}

/// When `now` has reached `hours` after clock-in, the automatic clock-out is
/// due and is booked at exactly that deadline (however late it is noticed).
pub fn auto_out_due(now: i64, clock_in_at: i64, hours: u32) -> (due: Option<i64>)
    requires
        i64::MIN <= auto_out_at(clock_in_at, hours) <= i64::MAX,
    ensures
        due == (if now >= auto_out_at(clock_in_at, hours) {
            Some(auto_out_at(clock_in_at, hours) as i64)
        } else {
            None
        }),
{
    let out_at = clock_in_at + hours as i64 * 3600;
    if now >= out_at {
        Some(out_at)
    } else {
        None
    }
}


// ------------------------------------------------------------------
// Reduction of a day's events
// ------------------------------------------------------------------

/// A chart block is time worked or rested.
#[derive(Clone, Copy, Debug, PartialEq, Eq, Structural)]
pub enum BlockKind {
    /// A timed segment.
    Work,
    /// On duty between segments.
    Rest,
}

/// A chart block covering `[start, end)` in Unix seconds.
#[derive(Clone, Copy, Debug, PartialEq, Eq, Structural)]
pub struct DayBlock {
    /// First second of the block.
    pub start: i64,
    /// First second after the block.
    pub end: i64,
    /// Work or rest.
    pub kind: BlockKind,
}

/// One day's reduction: duty, work and rest seconds, where duty began and
/// ended within the day, and the chart blocks in time order.
#[derive(Clone, Debug, PartialEq, Eq)]
pub struct DaySummary {
    /// Start of the first duty window in the day (`None` without duty).
    pub duty_started_at: Option<i64>,
    /// End of the last duty window (`None` without duty or while still on duty).
    pub duty_ended_at: Option<i64>,
    /// Seconds on duty.
    pub duty_secs: i64,
    /// Seconds worked within duty.
    pub work_secs: i64,
    /// Seconds on duty but not worked.
    pub rest_secs: i64,
    /// The chart blocks.
    pub blocks: Vec<DayBlock>,
}

/// The larger of two instants.
pub open spec fn later(a: i64, b: i64) -> i64 {
    if a >= b {
        a
    } else {
        b
    }
}

/// The smaller of two instants.
pub open spec fn earlier(a: i64, b: i64) -> i64 {
    if a <= b {
        a
    } else {
        b
    }
}

/// Close a pending work window at `end`: it is kept when it has positive length.
pub open spec fn close_work(pending: Option<i64>, work: Seq<(i64, i64)>, end: i64) -> Seq<(i64, i64)> {
    match pending {
        Some(ws) => if end > ws {
            work.push((ws, end))
        } else {
            work
        },
        None => work,
    }
}

/// Where a scan of the events stands: the open duty start, the pending work
/// start, and the duty and work windows closed so far.
pub type ScanState = (Option<i64>, Option<i64>, Seq<(i64, i64)>, Seq<(i64, i64)>);

/// One event of the scan. A clock-in opens duty (no earlier than the day's
/// start) unless duty is open; a clock-out closes duty (an orphan one counts
/// from the day's start) and the pending work; a segment start opens work
/// unless it is open; a segment end closes work (an orphan one from the day's
/// start). Every close is cut at the day's end.
pub open spec fn scan_step(st: ScanState, ev: (i64, EventKind), day_start: i64, day_end: i64) -> ScanState {
    let (open, pending, duty, work) = st;
    let (at, kind) = ev;
    match kind {
        EventKind::ClockIn => if open is None {
            (Some(later(at, day_start)), pending, duty, work)
        } else {
            st
        },
        EventKind::ClockOut | EventKind::AutoClockOut => {
            let start = match open {
                Some(s) => s,
                None => day_start,
            };
            let end = earlier(at, day_end);
            (
                None,
                None,
                if end > start {
                    duty.push((start, end))
                } else {
                    duty
                },
                close_work(pending, work, end),
            )
        },
        EventKind::SegmentStart => if pending is None {
            (open, Some(later(at, day_start)), duty, work)
        } else {
            st
        },
        EventKind::SegmentEnd => {
            let ws = match pending {
                Some(w) => w,
                None => day_start,
            };
            (open, None, duty, close_work(Some(ws), work, earlier(at, day_end)))
        },
    }
}

/// The scan over all of `events`, in order.
pub open spec fn scan_events(events: Seq<(i64, EventKind)>, day_start: i64, day_end: i64) -> ScanState
    decreases events.len(),
{
    if events.len() == 0 {
        (None, None, Seq::empty(), Seq::empty())
    } else {
        scan_step(scan_events(events.drop_last(), day_start, day_end), events.last(), day_start, day_end)
    }
}

/// The day's duty windows, work windows, and whether a duty is still open:
/// after the scan, an open duty is closed at `now` (cut at the day's end),
/// together with its pending work.
pub open spec fn day_windows(events: Seq<(i64, EventKind)>, day_start: i64, day_end: i64, now: i64) -> (Seq<(i64, i64)>, Seq<(i64, i64)>, bool) {
    let (open, pending, duty, work) = scan_events(events, day_start, day_end);
    match open {
        Some(start) => {
            let end = earlier(now, day_end);
            if end > start {
                (duty.push((start, end)), close_work(pending, work, end), true)
            } else {
                (duty, work, false)
            }
        },
        None => (duty, work, false),
    }
}

/// Add a work window, cut to `[ds, de)`, to the merged list: one that starts
/// at or before the end of the last merged window extends it.
pub open spec fn absorb(merged: Seq<(i64, i64)>, w: (i64, i64), ds: i64, de: i64) -> Seq<(i64, i64)> {
    let s = later(w.0, ds);
    let e = earlier(w.1, de);
    if e > s {
        if merged.len() > 0 && s <= merged.last().1 {
            merged.update(merged.len() - 1, (merged.last().0, later(merged.last().1, e)))
        } else {
            merged.push((s, e))
        }
    } else {
        merged
    }
}

/// The work windows cut to the duty window `[ds, de)` and merged, in order.
pub open spec fn merge_work(work: Seq<(i64, i64)>, ds: i64, de: i64) -> Seq<(i64, i64)>
    decreases work.len(),
{
    if work.len() == 0 {
        Seq::empty()
    } else {
        absorb(merge_work(work.drop_last(), ds, de), work.last(), ds, de)
    }
}

/// A rest block from `cursor` up to the work window (when there is a gap), then the work block.
pub open spec fn gap_then_work(cursor: i64, w: (i64, i64)) -> Seq<DayBlock> {
    (if w.0 > cursor {
        seq![DayBlock { start: cursor, end: w.0, kind: BlockKind::Rest }]
    } else {
        Seq::empty()
    }) + seq![DayBlock { start: w.0, end: w.1, kind: BlockKind::Work }]
}

/// Where the blocks of a duty window starting at `ds` have reached after `k` merged windows.
pub open spec fn cursor_after(ds: i64, merged: Seq<(i64, i64)>, k: int) -> i64 {
    if k <= 0 {
        ds
    } else {
        merged[k - 1].1
    }
}

/// The blocks for the first `k` merged windows of a duty window starting at `ds`.
pub open spec fn work_blocks(ds: i64, merged: Seq<(i64, i64)>, k: nat) -> Seq<DayBlock>
    decreases k,
{
    if k == 0 {
        Seq::empty()
    } else {
        work_blocks(ds, merged, (k - 1) as nat) + gap_then_work(
            cursor_after(ds, merged, k - 1),
            merged[k - 1],
        )
    }
}

/// The rest block closing a duty window, when time is left after the last work.
pub open spec fn trailing_rest(cursor: i64, de: i64) -> Seq<DayBlock> {
    if de > cursor {
        seq![DayBlock { start: cursor, end: de, kind: BlockKind::Rest }]
    } else {
        Seq::empty()
    }
}

/// The blocks of the duty window `[ds, de)` given its merged work windows.
pub open spec fn window_blocks(ds: i64, de: i64, merged: Seq<(i64, i64)>) -> Seq<DayBlock> {
    work_blocks(ds, merged, merged.len()) + trailing_rest(cursor_after(ds, merged, merged.len() as int), de)
}

/// The blocks of the first `k` duty windows.
pub open spec fn day_blocks(duty: Seq<(i64, i64)>, work: Seq<(i64, i64)>, k: nat) -> Seq<DayBlock>
    decreases k,
{
    if k == 0 {
        Seq::empty()
    } else {
        day_blocks(duty, work, (k - 1) as nat) + window_blocks(
            duty[k - 1].0,
            duty[k - 1].1,
            merge_work(work, duty[k - 1].0, duty[k - 1].1),
        )
    }
}

/// Total length of the first `k` duty windows.
pub open spec fn duty_total(duty: Seq<(i64, i64)>, k: nat) -> int
    decreases k,
{
    if k == 0 {
        0
    } else {
        duty_total(duty, (k - 1) as nat) + (duty[k - 1].1 - duty[k - 1].0)
    }
}

/// Total length of the blocks.
pub open spec fn length_total(blocks: Seq<DayBlock>) -> int
    decreases blocks.len(),
{
    if blocks.len() == 0 {
        0
    } else {
        length_total(blocks.drop_last()) + (blocks.last().end - blocks.last().start)
    }
}

/// Total length of the work blocks.
pub open spec fn work_total(blocks: Seq<DayBlock>) -> int
    decreases blocks.len(),
{
    if blocks.len() == 0 {
        0
    } else {
        work_total(blocks.drop_last()) + (if blocks.last().kind == BlockKind::Work {
            blocks.last().end - blocks.last().start
        } else {
            0
        })
    }
}

/// Total length of the rest blocks.
pub open spec fn rest_total(blocks: Seq<DayBlock>) -> int
    decreases blocks.len(),
{
    if blocks.len() == 0 {
        0
    } else {
        rest_total(blocks.drop_last()) + (if blocks.last().kind == BlockKind::Rest {
            blocks.last().end - blocks.last().start
        } else {
            0
        })
    }
}


/// The merged windows lie inside `[ds, de)`, each of positive length, in
/// increasing order with gaps between them.
pub open spec fn merged_ok(m: Seq<(i64, i64)>, ds: i64, de: i64) -> bool {
    &&& forall|i: int| 0 <= i < m.len() ==> ds <= #[trigger] m[i].0 && m[i].0 < m[i].1 && m[i].1 <= de
    &&& forall|i: int, j: int| 0 <= i < j < m.len() ==> #[trigger] m[i].1 < #[trigger] m[j].0
}

/// The windows lie inside `[day_start, day_end)`, each of positive length.
pub open spec fn windows_inside(w: Seq<(i64, i64)>, day_start: i64, day_end: i64) -> bool {
    forall|i: int| 0 <= i < w.len() ==> day_start <= #[trigger] w[i].0 && w[i].0 < w[i].1 && w[i].1 <= day_end
}

/// The blocks lie inside `[lo, hi)`, each of positive length.
pub open spec fn blocks_inside(b: Seq<DayBlock>, lo: int, hi: int) -> bool {
    forall|i: int| 0 <= i < b.len() ==> lo <= #[trigger] b[i].start && b[i].start < b[i].end && b[i].end <= hi
}

proof fn lemma_totals_concat(a: Seq<DayBlock>, b: Seq<DayBlock>)
    ensures
        length_total(a + b) == length_total(a) + length_total(b),
        work_total(a + b) == work_total(a) + work_total(b),
        rest_total(a + b) == rest_total(a) + rest_total(b),
    decreases b.len(),
{
    if b.len() == 0 {
        assert(a + b =~= a);
    } else {
        lemma_totals_concat(a, b.drop_last());
        assert((a + b).drop_last() =~= a + b.drop_last());
        assert((a + b).last() == b.last());
    }
}

proof fn lemma_totals_single(x: DayBlock)
    ensures
        length_total(seq![x]) == x.end - x.start,
        work_total(seq![x]) == (if x.kind == BlockKind::Work { x.end - x.start } else { 0 }),
        rest_total(seq![x]) == (if x.kind == BlockKind::Rest { x.end - x.start } else { 0 }),
{
    lemma_totals_empty();
    assert(seq![x].drop_last() =~= Seq::<DayBlock>::empty());
}

proof fn lemma_totals_empty()
    ensures
        length_total(Seq::<DayBlock>::empty()) == 0,
        work_total(Seq::<DayBlock>::empty()) == 0,
        rest_total(Seq::<DayBlock>::empty()) == 0,
{
}

/// Merging keeps the merged windows ordered and inside the duty window.
proof fn lemma_merge_ok(work: Seq<(i64, i64)>, ds: i64, de: i64)
    ensures
        merged_ok(merge_work(work, ds, de), ds, de),
    decreases work.len(),
{
    if work.len() > 0 {
        lemma_merge_ok(work.drop_last(), ds, de);
        let m = merge_work(work.drop_last(), ds, de);
        let r = merge_work(work, ds, de);
        let w = work.last();
        let s = later(w.0, ds);
        let e = earlier(w.1, de);
        if e > s {
            if m.len() > 0 && s <= m.last().1 {
                assert forall|i: int, j: int| 0 <= i < j < r.len() implies #[trigger] r[i].1 < #[trigger] r[j].0 by {
                    assert(m[i].1 < m[j].0);
                }
            } else {
                assert forall|i: int, j: int| 0 <= i < j < r.len() implies #[trigger] r[i].1 < #[trigger] r[j].0 by {
                    if j == m.len() {
                        if i < m.len() - 1 {
                            assert(m[i].1 < m[m.len() - 1].0);
                        }
                    } else {
                        assert(m[i].1 < m[j].0);
                    }
                }
            }
        }
    }
}

proof fn lemma_gap_then_work(cursor: i64, w: (i64, i64))
    requires
        cursor <= w.0 < w.1,
    ensures
        length_total(gap_then_work(cursor, w)) == w.1 - cursor,
        work_total(gap_then_work(cursor, w)) == w.1 - w.0,
        rest_total(gap_then_work(cursor, w)) == w.0 - cursor,
        blocks_inside(gap_then_work(cursor, w), cursor as int, w.1 as int),
{
    let wb = DayBlock { start: w.0, end: w.1, kind: BlockKind::Work };
    lemma_totals_single(wb);
    if w.0 > cursor {
        let rb = DayBlock { start: cursor, end: w.0, kind: BlockKind::Rest };
        lemma_totals_single(rb);
        lemma_totals_concat(seq![rb], seq![wb]);
    } else {
        assert(gap_then_work(cursor, w) =~= seq![wb]);
    }
}

/// The blocks of the first `k` merged windows tile `[ds, cursor)` exactly.
proof fn lemma_work_blocks(ds: i64, de: i64, m: Seq<(i64, i64)>, k: nat)
    requires
        merged_ok(m, ds, de),
        ds <= de,
        k <= m.len(),
    ensures
        ds <= cursor_after(ds, m, k as int) <= de,
        k < m.len() ==> cursor_after(ds, m, k as int) <= m[k as int].0,
        length_total(work_blocks(ds, m, k)) == cursor_after(ds, m, k as int) - ds,
        work_total(work_blocks(ds, m, k)) + rest_total(work_blocks(ds, m, k)) == length_total(
            work_blocks(ds, m, k),
        ),
        0 <= work_total(work_blocks(ds, m, k)),
        0 <= rest_total(work_blocks(ds, m, k)),
        blocks_inside(work_blocks(ds, m, k), ds as int, cursor_after(ds, m, k as int) as int),
    decreases k,
{
    if k == 0 {
        lemma_totals_empty();
        if m.len() > 0 {
            assert(ds <= m[0].0);
        }
    } else {
        lemma_work_blocks(ds, de, m, (k - 1) as nat);
        assert(ds <= m[k - 1].0 && m[k - 1].0 < m[k - 1].1 && m[k - 1].1 <= de);
        let c = cursor_after(ds, m, k - 1);
        let w = m[k - 1];
        lemma_gap_then_work(c, w);
        lemma_totals_concat(work_blocks(ds, m, (k - 1) as nat), gap_then_work(c, w));
        if k < m.len() {
            assert(m[k - 1].1 < m[k as int].0);
        }
    }
}

/// The blocks of a duty window tile it exactly.
proof fn lemma_window_blocks(ds: i64, de: i64, m: Seq<(i64, i64)>)
    requires
        merged_ok(m, ds, de),
        ds < de,
    ensures
        length_total(window_blocks(ds, de, m)) == de - ds,
        work_total(window_blocks(ds, de, m)) + rest_total(window_blocks(ds, de, m)) == de - ds,
        0 <= work_total(window_blocks(ds, de, m)),
        0 <= rest_total(window_blocks(ds, de, m)),
        blocks_inside(window_blocks(ds, de, m), ds as int, de as int),
{
    lemma_work_blocks(ds, de, m, m.len());
    let c = cursor_after(ds, m, m.len() as int);
    let wb = work_blocks(ds, m, m.len());
    lemma_totals_concat(wb, trailing_rest(c, de));
    if de > c {
        lemma_totals_single(DayBlock { start: c, end: de, kind: BlockKind::Rest });
    } else {
        lemma_totals_empty();
    }
}

/// The blocks of the first `k` duty windows tile those windows exactly.
proof fn lemma_day_blocks(duty: Seq<(i64, i64)>, work: Seq<(i64, i64)>, k: nat, day_start: i64, day_end: i64)
    requires
        windows_inside(duty, day_start, day_end),
        k <= duty.len(),
    ensures
        length_total(day_blocks(duty, work, k)) == duty_total(duty, k),
        work_total(day_blocks(duty, work, k)) + rest_total(day_blocks(duty, work, k)) == duty_total(
            duty,
            k,
        ),
        0 <= work_total(day_blocks(duty, work, k)),
        0 <= rest_total(day_blocks(duty, work, k)),
        blocks_inside(day_blocks(duty, work, k), day_start as int, day_end as int),
    decreases k,
{
    if k == 0 {
        lemma_totals_empty();
    } else {
        lemma_day_blocks(duty, work, (k - 1) as nat, day_start, day_end);
        let (ds, de) = duty[k - 1];
        lemma_merge_ok(work, ds, de);
        lemma_window_blocks(ds, de, merge_work(work, ds, de));
        lemma_totals_concat(
            day_blocks(duty, work, (k - 1) as nat),
            window_blocks(ds, de, merge_work(work, ds, de)),
        );
    }
}

/// Facts kept by the scan: open starts are inside the day, closed duty
/// windows lie inside the day, and there are no more duty windows (counting
/// an open one) than events.
proof fn lemma_scan_facts(events: Seq<(i64, EventKind)>, day_start: i64, day_end: i64)
    ensures
        ({
            let (open, pending, duty, work) = scan_events(events, day_start, day_end);
            &&& (open matches Some(s) ==> day_start <= s)
            &&& (pending matches Some(w) ==> day_start <= w)
            &&& windows_inside(duty, day_start, day_end)
            &&& duty.len() + (if open is Some { 1int } else { 0int }) <= events.len()
        }),
    decreases events.len(),
{
    if events.len() > 0 {
        lemma_scan_facts(events.drop_last(), day_start, day_end);
    }
}

/// The day's duty windows lie inside the day and are no more than the events.
proof fn lemma_day_windows_facts(events: Seq<(i64, EventKind)>, day_start: i64, day_end: i64, now: i64)
    ensures
        windows_inside(day_windows(events, day_start, day_end, now).0, day_start, day_end),
        day_windows(events, day_start, day_end, now).0.len() <= events.len(),
{
    lemma_scan_facts(events, day_start, day_end);
}

/// Windows no longer than `len` add up to at most `k * len`.
proof fn lemma_duty_total_bound(duty: Seq<(i64, i64)>, k: nat, day_start: i64, day_end: i64)
    requires
        windows_inside(duty, day_start, day_end),
        k <= duty.len(),
    ensures
        0 <= duty_total(duty, k) <= k * (day_end - day_start),
    decreases k,
{
    if k > 0 {
        lemma_duty_total_bound(duty, (k - 1) as nat, day_start, day_end);
        let len = day_end - day_start;
        assert(duty[k - 1].1 - duty[k - 1].0 <= len);
        assert((k - 1) * len + len == k * len) by (nonlinear_arith);
    }
}

/// A prefix of the windows adds up to no more than a longer prefix.
proof fn lemma_duty_prefix(duty: Seq<(i64, i64)>, k: nat, n: nat, day_start: i64, day_end: i64)
    requires
        windows_inside(duty, day_start, day_end),
        k <= n <= duty.len(),
    ensures
        duty_total(duty, k) <= duty_total(duty, n),
    decreases n,
{
    if k < n {
        lemma_duty_prefix(duty, k, (n - 1) as nat, day_start, day_end);
        assert(duty[n - 1].0 < duty[n - 1].1);
    }
}

/// The day's duty time: the total length of its duty windows.
pub open spec fn day_duty(events: Seq<(i64, EventKind)>, day_start: i64, day_end: i64, now: i64) -> int {
    duty_total(
        day_windows(events, day_start, day_end, now).0,
        day_windows(events, day_start, day_end, now).0.len(),
    )
}

/// Law: a day's duty time is never negative and, with each duty window
/// inside the day and no more windows than events, at most the number of
/// events times the day's length.
pub proof fn lemma_day_duty_bound(events: Seq<(i64, EventKind)>, day_start: i64, day_end: i64, now: i64)
    requires
        day_start <= day_end,
    ensures
        0 <= day_duty(events, day_start, day_end, now) <= events.len() * (day_end - day_start),
{
    lemma_day_windows_facts(events, day_start, day_end, now);
    let duty = day_windows(events, day_start, day_end, now).0;
    lemma_duty_total_bound(duty, duty.len(), day_start, day_end);
    lemma_mul_mono(duty.len() as int, events.len() as int, day_end - day_start);
}

proof fn lemma_mul_mono(a: int, b: int, c: int)
    requires
        0 <= a <= b,
        0 <= c,
    ensures
        a * c <= b * c,
{
    assert(a * c <= b * c) by (nonlinear_arith)
        requires
            0 <= a <= b,
            0 <= c,
    ;
}

/// Each block ends where the next begins, and the kinds alternate.
pub open spec fn contiguous_alternating(b: Seq<DayBlock>) -> bool {
    forall|i: int, j: int|
        #![trigger b[i], b[j]]
        0 <= i && j == i + 1 && j < b.len() ==> b[i].end == b[j].start && b[i].kind != b[j].kind
}

proof fn lemma_chain_concat(a: Seq<DayBlock>, g: Seq<DayBlock>)
    requires
        contiguous_alternating(a),
        contiguous_alternating(g),
        a.len() > 0,
        g.len() > 0,
        a.last().end == g[0].start,
        a.last().kind != g[0].kind,
    ensures
        contiguous_alternating(a + g),
{
    let b = a + g;
    assert forall|i: int, j: int| #![trigger b[i], b[j]] 0 <= i && j == i + 1 && j < b.len() implies b[i].end
        == b[j].start && b[i].kind != b[j].kind by {
        if j < a.len() {
            assert(b[i] == a[i] && b[j] == a[j]);
        } else if i == a.len() - 1 {
            assert(b[i] == a.last() && b[j] == g[0]);
        } else {
            assert(b[i] == g[i - a.len()] && b[j] == g[j - a.len()]);
        }
    }
}

proof fn lemma_work_blocks_chain(ds: i64, de: i64, m: Seq<(i64, i64)>, k: nat)
    requires
        merged_ok(m, ds, de),
        ds <= de,
        k <= m.len(),
    ensures
        ({
            let b = work_blocks(ds, m, k);
            &&& contiguous_alternating(b)
            &&& k > 0 ==> b.len() > 0 && b[0].start == ds && b.last().end == cursor_after(ds, m, k as int)
                && b.last().kind == BlockKind::Work
        }),
    decreases k,
{
    if k > 0 {
        lemma_work_blocks_chain(ds, de, m, (k - 1) as nat);
        lemma_work_blocks(ds, de, m, (k - 1) as nat);
        let prev = work_blocks(ds, m, (k - 1) as nat);
        let c = cursor_after(ds, m, k - 1);
        let w = m[k - 1];
        assert(ds <= w.0 && w.0 < w.1 && w.1 <= de);
        if k > 1 {
            assert(m[k - 2].1 < m[k - 1].0);
            assert(c < w.0);
        }
        let wb = DayBlock { start: w.0, end: w.1, kind: BlockKind::Work };
        let g = gap_then_work(c, w);
        if w.0 > c {
            let rb = DayBlock { start: c, end: w.0, kind: BlockKind::Rest };
            assert(g =~= seq![rb, wb]);
            assert forall|i: int, j: int| #![trigger g[i], g[j]] 0 <= i && j == i + 1 && j < g.len() implies g[i].end
                == g[j].start && g[i].kind != g[j].kind by {
                assert(i == 0 && j == 1);
            }
        } else {
            assert(g =~= seq![wb]);
        }
        assert(contiguous_alternating(g));
        assert(g[0].start == c);
        assert(g.last() == wb);
        let b = prev + g;
        assert(b == work_blocks(ds, m, k));
        if k == 1 {
            assert(prev =~= Seq::<DayBlock>::empty());
            assert(b =~= g);
        } else {
            lemma_chain_concat(prev, g);
            assert(b[0] == prev[0]);
        }
    }
}

/// Law: the blocks of a duty window `[ds, de)` start at `ds`, end at `de`,
/// run on without gaps, and alternate between work and rest.
pub proof fn lemma_window_blocks_alternate(ds: i64, de: i64, work: Seq<(i64, i64)>)
    requires
        ds < de,
    ensures
        ({
            let b = window_blocks(ds, de, merge_work(work, ds, de));
            &&& b.len() > 0
            &&& b[0].start == ds
            &&& b.last().end == de
            &&& contiguous_alternating(b)
        }),
{
    let m = merge_work(work, ds, de);
    lemma_merge_ok(work, ds, de);
    lemma_work_blocks_chain(ds, de, m, m.len());
    lemma_work_blocks(ds, de, m, m.len());
    let wb = work_blocks(ds, m, m.len());
    let c = cursor_after(ds, m, m.len() as int);
    let t = trailing_rest(c, de);
    let b = wb + t;
    assert(b == window_blocks(ds, de, m));
    if m.len() == 0 {
        assert(wb =~= Seq::<DayBlock>::empty());
        assert(b =~= t);
        assert(t =~= seq![DayBlock { start: ds, end: de, kind: BlockKind::Rest }]);
    } else if de > c {
        let r = DayBlock { start: c, end: de, kind: BlockKind::Rest };
        assert(t =~= seq![r]);
        lemma_chain_concat(wb, t);
        assert(b.last() == r);
        assert(b[0] == wb[0]);
    } else {
        assert(t =~= Seq::<DayBlock>::empty());
        assert(b =~= wb);
    }
}

/// Law: a shift with one clock-in and one clock-out that crosses from one day
/// into the next is split between the two days with nothing counted twice
/// and nothing lost.
pub proof fn lemma_shift_split_across_days(t_in: i64, t_out: i64, a: i64, b: i64, c: i64, now: i64)
    requires
        a <= t_in <= b <= t_out <= c,
    ensures
        ({
            let events = seq![(t_in, EventKind::ClockIn), (t_out, EventKind::ClockOut)];
            let first = day_windows(events, a, b, now).0;
            let second = day_windows(events, b, c, now).0;
            duty_total(first, first.len()) + duty_total(second, second.len()) == t_out - t_in
        }),
{
    let events = seq![(t_in, EventKind::ClockIn), (t_out, EventKind::ClockOut)];
    assert(events.drop_last() =~= seq![(t_in, EventKind::ClockIn)]);
    assert(events.drop_last().drop_last() =~= Seq::<(i64, EventKind)>::empty());
    let first = day_windows(events, a, b, now).0;
    let second = day_windows(events, b, c, now).0;
    reveal_with_fuel(duty_total, 2);
    reveal_with_fuel(scan_events, 3);
    if b > t_in {
        assert(first =~= seq![(t_in, b)]);
    } else {
        assert(first =~= Seq::<(i64, i64)>::empty());
    }
    if t_out > b {
        assert(second =~= seq![(b, t_out)]);
    } else {
        assert(second =~= Seq::<(i64, i64)>::empty());
    }
}

/// Law: a shift with one timed segment, crossing from one day into the next
/// anywhere (before, inside or after the segment), is split between the two
/// days with nothing counted twice and nothing lost: duty, work and rest each
/// add up across the two days to the whole shift's.
pub proof fn lemma_shift_with_segment_split_across_days(
    t_in: i64,
    s_start: i64,
    s_end: i64,
    t_out: i64,
    a: i64,
    b: i64,
    c: i64,
    now: i64,
)
    requires
        a <= t_in <= s_start <= s_end <= t_out <= c,
        a <= b <= c,
    ensures
        ({
            let events = seq![
                (t_in, EventKind::ClockIn),
                (s_start, EventKind::SegmentStart),
                (s_end, EventKind::SegmentEnd),
                (t_out, EventKind::ClockOut),
            ];
            let (duty1, work1, _) = day_windows(events, a, b, now);
            let (duty2, work2, _) = day_windows(events, b, c, now);
            &&& duty_total(duty1, duty1.len()) + duty_total(duty2, duty2.len()) == t_out - t_in
            &&& duty_total(work1, work1.len()) + duty_total(work2, work2.len()) == s_end - s_start
            &&& (duty_total(duty1, duty1.len()) - duty_total(work1, work1.len())) + (duty_total(duty2, duty2.len())
                - duty_total(work2, work2.len())) == (t_out - t_in) - (s_end - s_start)
        }),
{
    let events = seq![
        (t_in, EventKind::ClockIn),
        (s_start, EventKind::SegmentStart),
        (s_end, EventKind::SegmentEnd),
        (t_out, EventKind::ClockOut),
    ];
    let e3 = seq![(t_in, EventKind::ClockIn), (s_start, EventKind::SegmentStart), (s_end, EventKind::SegmentEnd)];
    let e2 = seq![(t_in, EventKind::ClockIn), (s_start, EventKind::SegmentStart)];
    let e1 = seq![(t_in, EventKind::ClockIn)];
    assert(events.drop_last() =~= e3);
    assert(e3.drop_last() =~= e2);
    assert(e2.drop_last() =~= e1);
    assert(e1.drop_last() =~= Seq::<(i64, EventKind)>::empty());
    reveal_with_fuel(duty_total, 2);
    let none: Seq<(i64, i64)> = Seq::empty();
    // The first day, [a, b).
    let w1 = close_work(Some(s_start), none, earlier(s_end, b));
    let d1 = if earlier(t_out, b) > t_in { none.push((t_in, earlier(t_out, b))) } else { none };
    assert(scan_events(Seq::<(i64, EventKind)>::empty(), a, b) == (None::<i64>, None::<i64>, none, none));
    assert(scan_events(e1, a, b) == (Some(t_in), None::<i64>, none, none));
    assert(scan_events(e2, a, b) == (Some(t_in), Some(s_start), none, none));
    assert(scan_events(e3, a, b) == (Some(t_in), None::<i64>, none, w1));
    assert(scan_events(events, a, b) == (None::<i64>, None::<i64>, d1, w1));
    // The second day, [b, c).
    let w2 = close_work(Some(later(s_start, b)), none, s_end);
    let d2 = if t_out > later(t_in, b) { none.push((later(t_in, b), t_out)) } else { none };
    assert(scan_events(Seq::<(i64, EventKind)>::empty(), b, c) == (None::<i64>, None::<i64>, none, none));
    assert(scan_events(e1, b, c) == (Some(later(t_in, b)), None::<i64>, none, none));
    assert(scan_events(e2, b, c) == (Some(later(t_in, b)), Some(later(s_start, b)), none, none));
    assert(scan_events(e3, b, c) == (Some(later(t_in, b)), None::<i64>, none, w2));
    assert(scan_events(events, b, c) == (None::<i64>, None::<i64>, d2, w2));
    let (duty1, work1, _) = day_windows(events, a, b, now);
    let (duty2, work2, _) = day_windows(events, b, c, now);
    assert(duty1 == d1 && work1 == w1 && duty2 == d2 && work2 == w2);
}

/// Where an event stream stands after its events: the start of the duty
/// still open, and the start of the timed segment still open.
pub open spec fn stream_state(events: Seq<(i64, EventKind)>) -> (Option<i64>, Option<i64>)
    decreases events.len(),
{
    if events.len() == 0 {
        (None, None)
    } else {
        let (duty, segment) = stream_state(events.drop_last());
        let (at, kind) = events.last();
        match kind {
            EventKind::ClockIn => (Some(at), segment),
            EventKind::ClockOut | EventKind::AutoClockOut => (None, None),
            EventKind::SegmentStart => (duty, Some(at)),
            EventKind::SegmentEnd => (duty, None),
        }
    }
}

/// The event `ev` may follow a stream standing at `st`: a clock-in only off
/// duty, a clock-out only on duty with no segment open, a segment start only
/// on duty, not before the clock-in and with no segment open, a segment end
/// only with a segment open.
pub open spec fn event_fits(st: (Option<i64>, Option<i64>), ev: (i64, EventKind)) -> bool {
    let (duty, segment) = st;
    let (at, kind) = ev;
    match kind {
        EventKind::ClockIn => duty is None && segment is None,
        EventKind::ClockOut | EventKind::AutoClockOut => duty is Some && segment is None,
        EventKind::SegmentStart => duty matches Some(t) && t <= at && segment is None,
        EventKind::SegmentEnd => segment is Some,
    }
}

/// A well-formed event stream: clock-ins and clock-outs alternate starting
/// with a clock-in, and each timed segment starts and ends within one duty.
pub open spec fn well_formed_stream(events: Seq<(i64, EventKind)>) -> bool
    decreases events.len(),
{
    events.len() == 0 || (well_formed_stream(events.drop_last()) && event_fits(
        stream_state(events.drop_last()),
        events.last(),
    ))
}

/// The length of `[s, e)` cut to `[ds, de)` (zero when nothing is left).
pub open spec fn clip_len(s: i64, e: i64, ds: i64, de: i64) -> int {
    if earlier(e, de) > later(s, ds) {
        earlier(e, de) - later(s, ds)
    } else {
        0
    }
}

/// The day's work time as its work windows add up.
pub open spec fn day_work(events: Seq<(i64, EventKind)>, day_start: i64, day_end: i64, now: i64) -> int {
    duty_total(
        day_windows(events, day_start, day_end, now).1,
        day_windows(events, day_start, day_end, now).1.len(),
    )
}

/// Cutting an interval to `[a, b)` and to `[b, c)` leaves as much as cutting it to `[a, c)`.
proof fn lemma_clip_split(s: i64, e: i64, a: i64, b: i64, c: i64)
    requires
        a <= b <= c,
    ensures
        clip_len(s, e, a, b) + clip_len(s, e, b, c) == clip_len(s, e, a, c),
{
}

/// Adding a window after the first `k` leaves their total as it was.
proof fn lemma_total_push(w: Seq<(i64, i64)>, x: (i64, i64), k: nat)
    requires
        k <= w.len(),
    ensures
        duty_total(w.push(x), k) == duty_total(w, k),
    decreases k,
{
    if k > 0 {
        lemma_total_push(w, x, (k - 1) as nat);
    }
}

/// A stream's open segment starts within its open duty.
proof fn lemma_stream_state(events: Seq<(i64, EventKind)>)
    requires
        well_formed_stream(events),
    ensures
        stream_state(events).1 matches Some(s) ==> (stream_state(events).0 matches Some(t) && t <= s),
    decreases events.len(),
{
    if events.len() > 0 {
        lemma_stream_state(events.drop_last());
    }
}

/// The total of a window list once the window `[s, e)` cut to `[ds, de)` is
/// added when not empty.
proof fn lemma_total_close(w: Seq<(i64, i64)>, start: i64, end: i64)
    ensures
        duty_total(close_work(Some(start), w, end), close_work(Some(start), w, end).len()) == duty_total(
            w,
            w.len(),
        ) + (if end > start {
            end - start
        } else {
            0
        }),
{
    if end > start {
        lemma_total_push(w, (start, end), w.len());
    }
}

/// Scanning a well-formed stream over `[a, b)`, `[b, c)` and `[a, c)`: the open
/// duty and segment are those of the stream cut to each window, and the
/// closed duty and work windows of the two halves add up to the whole's.
proof fn lemma_scan_split(events: Seq<(i64, EventKind)>, a: i64, b: i64, c: i64)
    requires
        well_formed_stream(events),
        a <= b <= c,
    ensures
        ({
            let (duty, segment) = stream_state(events);
            let (o1, p1, d1, w1) = scan_events(events, a, b);
            let (o2, p2, d2, w2) = scan_events(events, b, c);
            let (o3, p3, d3, w3) = scan_events(events, a, c);
            &&& (duty is None ==> o1 is None && o2 is None && o3 is None)
            &&& (duty matches Some(t) ==> o1 == Some(later(t, a)) && o2 == Some(later(t, b)) && o3 == Some(
                later(t, a),
            ))
            &&& (segment is None ==> p1 is None && p2 is None && p3 is None)
            &&& (segment matches Some(s) ==> p1 == Some(later(s, a)) && p2 == Some(later(s, b)) && p3 == Some(
                later(s, a),
            ))
            &&& duty_total(d1, d1.len()) + duty_total(d2, d2.len()) == duty_total(d3, d3.len())
            &&& duty_total(w1, w1.len()) + duty_total(w2, w2.len()) == duty_total(w3, w3.len())
        }),
    decreases events.len(),
{
    if events.len() > 0 {
        let prev = events.drop_last();
        lemma_scan_split(prev, a, b, c);
        lemma_stream_state(prev);
        let (duty, segment) = stream_state(prev);
        let (at, kind) = events.last();
        let (o1, p1, d1, w1) = scan_events(prev, a, b);
        let (o2, p2, d2, w2) = scan_events(prev, b, c);
        let (o3, p3, d3, w3) = scan_events(prev, a, c);
        match kind {
            EventKind::ClockOut | EventKind::AutoClockOut => {
                let t = duty->0;
                lemma_clip_split(t, at, a, b, c);
                lemma_total_close(d1, later(t, a), earlier(at, b));
                lemma_total_close(d2, later(t, b), earlier(at, c));
                lemma_total_close(d3, later(t, a), earlier(at, c));
                assert(close_work(Some(later(t, a)), d1, earlier(at, b)) == (if earlier(at, b) > later(t, a) {
                    d1.push((later(t, a), earlier(at, b)))
                } else {
                    d1
                }));
            },
            EventKind::SegmentEnd => {
                let sg = segment->0;
                lemma_clip_split(sg, at, a, b, c);
                lemma_total_close(w1, later(sg, a), earlier(at, b));
                lemma_total_close(w2, later(sg, b), earlier(at, c));
                lemma_total_close(w3, later(sg, a), earlier(at, c));
            },
            _ => {},
        }
    }
}

/// Law: for a well-formed event stream, the reductions of two adjacent
/// windows `[a, b)` and `[b, c)` add up to the reduction of their union:
/// duty, work and rest time alike. A shift across `b` is split between the
/// two days with nothing counted twice and nothing lost.
pub proof fn lemma_day_split(events: Seq<(i64, EventKind)>, a: i64, b: i64, c: i64, now: i64)
    requires
        well_formed_stream(events),
        a <= b <= c,
    ensures
        day_duty(events, a, b, now) + day_duty(events, b, c, now) == day_duty(events, a, c, now),
        day_work(events, a, b, now) + day_work(events, b, c, now) == day_work(events, a, c, now),
        (day_duty(events, a, b, now) - day_work(events, a, b, now)) + (day_duty(events, b, c, now) - day_work(
            events,
            b,
            c,
            now,
        )) == day_duty(events, a, c, now) - day_work(events, a, c, now),
{
    lemma_scan_split(events, a, b, c);
    lemma_stream_state(events);
    let (duty, segment) = stream_state(events);
    let (o1, p1, d1, w1) = scan_events(events, a, b);
    let (o2, p2, d2, w2) = scan_events(events, b, c);
    let (o3, p3, d3, w3) = scan_events(events, a, c);
    if duty is Some {
        let t = duty->0;
        lemma_clip_split(t, now, a, b, c);
        lemma_total_close(d1, later(t, a), earlier(now, b));
        lemma_total_close(d2, later(t, b), earlier(now, c));
        lemma_total_close(d3, later(t, a), earlier(now, c));
        if segment is Some {
            let sg = segment->0;
            lemma_clip_split(sg, now, a, b, c);
            lemma_total_close(w1, later(sg, a), earlier(now, b));
            lemma_total_close(w2, later(sg, b), earlier(now, c));
            lemma_total_close(w3, later(sg, a), earlier(now, c));
        }
    }
}

/// Windows of positive length, each ending at or before the next begins.
pub open spec fn ordered_windows(w: Seq<(i64, i64)>) -> bool {
    &&& forall|i: int| 0 <= i < w.len() ==> #[trigger] w[i].0 < w[i].1
    &&& forall|i: int, j: int| 0 <= i < j < w.len() ==> #[trigger] w[i].1 <= #[trigger] w[j].0
}

/// The first `m` windows of `w`, each cut to `[ds, de)`, add up to this.
pub open spec fn clip_sum(w: Seq<(i64, i64)>, ds: i64, de: i64, m: nat) -> int
    decreases m,
{
    if m == 0 {
        0
    } else {
        clip_sum(w, ds, de, (m - 1) as nat) + clip_len(w[m - 1].0, w[m - 1].1, ds, de)
    }
}

/// The window `x` cut to each of the first `k` windows of `d`, added up.
pub open spec fn clip_across(d: Seq<(i64, i64)>, x: (i64, i64), k: nat) -> int
    decreases k,
{
    if k == 0 {
        0
    } else {
        clip_across(d, x, (k - 1) as nat) + clip_len(x.0, x.1, d[k - 1].0, d[k - 1].1)
    }
}

/// For each of the first `k` duty windows, its first `m` work windows cut to it, added up.
pub open spec fn clip_by_duty(d: Seq<(i64, i64)>, w: Seq<(i64, i64)>, k: nat, m: nat) -> int
    decreases k,
{
    if k == 0 {
        0
    } else {
        clip_by_duty(d, w, (k - 1) as nat, m) + clip_sum(w, d[k - 1].0, d[k - 1].1, m)
    }
}

/// For each of the first `m` work windows, it cut to the first `k` duty windows, added up.
pub open spec fn clip_by_work(d: Seq<(i64, i64)>, w: Seq<(i64, i64)>, k: nat, m: nat) -> int
    decreases m,
{
    if m == 0 {
        0
    } else {
        clip_by_work(d, w, k, (m - 1) as nat) + clip_across(d, w[m - 1], k)
    }
}

/// Window lists that agree on their first `k` windows agree on their total.
proof fn lemma_total_prefix(u: Seq<(i64, i64)>, v: Seq<(i64, i64)>, k: nat)
    requires
        k <= u.len(),
        k <= v.len(),
        forall|i: int| 0 <= i < k ==> u[i] == v[i],
    ensures
        duty_total(u, k) == duty_total(v, k),
    decreases k,
{
    if k > 0 {
        lemma_total_prefix(u, v, (k - 1) as nat);
    }
}

/// The work blocks of a duty window hold exactly its merged work windows.
proof fn lemma_work_blocks_work(ds: i64, de: i64, m: Seq<(i64, i64)>, k: nat)
    requires
        merged_ok(m, ds, de),
        ds <= de,
        k <= m.len(),
    ensures
        work_total(work_blocks(ds, m, k)) == duty_total(m, k),
    decreases k,
{
    if k > 0 {
        lemma_work_blocks_work(ds, de, m, (k - 1) as nat);
        lemma_work_blocks(ds, de, m, (k - 1) as nat);
        assert(ds <= m[k - 1].0 && m[k - 1].0 < m[k - 1].1 && m[k - 1].1 <= de);
        lemma_gap_then_work(cursor_after(ds, m, k - 1), m[k - 1]);
        lemma_totals_concat(work_blocks(ds, m, (k - 1) as nat), gap_then_work(cursor_after(ds, m, k - 1), m[k - 1]));
    }
}

/// The work in a duty window's blocks is its merged work windows' total.
proof fn lemma_window_blocks_work(ds: i64, de: i64, m: Seq<(i64, i64)>)
    requires
        merged_ok(m, ds, de),
        ds <= de,
    ensures
        work_total(window_blocks(ds, de, m)) == duty_total(m, m.len()),
{
    lemma_work_blocks_work(ds, de, m, m.len());
    lemma_work_blocks(ds, de, m, m.len());
    let c = cursor_after(ds, m, m.len() as int);
    lemma_totals_concat(work_blocks(ds, m, m.len()), trailing_rest(c, de));
    if de > c {
        lemma_totals_single(DayBlock { start: c, end: de, kind: BlockKind::Rest });
    } else {
        lemma_totals_empty();
    }
}

/// Merging ordered work windows cut to `[ds, de)` keeps their total, and
/// the last merged window ends no later than the last work window.
proof fn lemma_merge_total(w: Seq<(i64, i64)>, ds: i64, de: i64)
    requires
        ordered_windows(w),
    ensures
        duty_total(merge_work(w, ds, de), merge_work(w, ds, de).len()) == clip_sum(w, ds, de, w.len()),
        merge_work(w, ds, de).len() > 0 ==> w.len() > 0 && merge_work(w, ds, de).last().1 <= w.last().1,
    decreases w.len(),
{
    if w.len() > 0 {
        let prev = w.drop_last();
        assert(ordered_windows(prev)) by {
            assert forall|i: int, j: int| 0 <= i < j < prev.len() implies #[trigger] prev[i].1 <= #[trigger] prev[j].0 by {
                assert(w[i].1 <= w[j].0);
            }
        }
        lemma_merge_total(prev, ds, de);
        assert(clip_sum(prev, ds, de, prev.len()) == clip_sum(w, ds, de, prev.len())) by {
            lemma_clip_sum_prefix(prev, w, ds, de, prev.len());
        }
        let m = merge_work(prev, ds, de);
        let x = w.last();
        let st = later(x.0, ds);
        let en = earlier(x.1, de);
        assert(x.0 < x.1);
        if m.len() > 0 {
            assert(w[prev.len() - 1].1 <= w[w.len() - 1].0);
        }
        if en > st {
            if m.len() > 0 && st <= m.last().1 {
                let n = m.len();
                let y = (m.last().0, later(m.last().1, en));
                let r = m.update(n - 1, y);
                lemma_total_prefix(m, r, (n - 1) as nat);
            } else {
                lemma_total_prefix(m, m.push((st, en)), m.len());
            }
        }
    }
}

/// Window lists that agree on their first `m` windows cut alike.
proof fn lemma_clip_sum_prefix(u: Seq<(i64, i64)>, v: Seq<(i64, i64)>, ds: i64, de: i64, m: nat)
    requires
        m <= u.len(),
        m <= v.len(),
        forall|i: int| 0 <= i < m ==> u[i] == v[i],
    ensures
        clip_sum(u, ds, de, m) == clip_sum(v, ds, de, m),
    decreases m,
{
    if m > 0 {
        lemma_clip_sum_prefix(u, v, ds, de, (m - 1) as nat);
    }
}

/// The work in the blocks of the first `k` duty windows is the work windows
/// cut to each of them, added up.
proof fn lemma_day_blocks_work(d: Seq<(i64, i64)>, w: Seq<(i64, i64)>, k: nat)
    requires
        ordered_windows(d),
        ordered_windows(w),
        k <= d.len(),
    ensures
        work_total(day_blocks(d, w, k)) == clip_by_duty(d, w, k, w.len()),
    decreases k,
{
    if k == 0 {
        lemma_totals_empty();
    } else {
        lemma_day_blocks_work(d, w, (k - 1) as nat);
        let (ds, de) = d[k - 1];
        assert(ds < de);
        lemma_merge_ok(w, ds, de);
        lemma_merge_total(w, ds, de);
        lemma_window_blocks_work(ds, de, merge_work(w, ds, de));
        lemma_totals_concat(day_blocks(d, w, (k - 1) as nat), window_blocks(ds, de, merge_work(w, ds, de)));
    }
}

/// One more work window adds its cut to each duty window.
proof fn lemma_clip_by_duty_step(d: Seq<(i64, i64)>, w: Seq<(i64, i64)>, k: nat, m: nat)
    requires
        m < w.len(),
        k <= d.len(),
    ensures
        clip_by_duty(d, w, k, m + 1) == clip_by_duty(d, w, k, m) + clip_across(d, w[m as int], k),
    decreases k,
{
    if k > 0 {
        lemma_clip_by_duty_step(d, w, (k - 1) as nat, m);
    }
}

/// Adding by duty window or by work window gives the same.
proof fn lemma_clip_swap(d: Seq<(i64, i64)>, w: Seq<(i64, i64)>, k: nat, m: nat)
    requires
        m <= w.len(),
        k <= d.len(),
    ensures
        clip_by_duty(d, w, k, m) == clip_by_work(d, w, k, m),
    decreases m,
{
    if m == 0 {
        lemma_clip_by_duty_zero(d, w, k);
    } else {
        lemma_clip_swap(d, w, k, (m - 1) as nat);
        lemma_clip_by_duty_step(d, w, k, (m - 1) as nat);
    }
}

proof fn lemma_clip_by_duty_zero(d: Seq<(i64, i64)>, w: Seq<(i64, i64)>, k: nat)
    ensures
        clip_by_duty(d, w, k, 0) == 0,
    decreases k,
{
    if k > 0 {
        lemma_clip_by_duty_zero(d, w, (k - 1) as nat);
    }
}

/// The events come in time order.
pub open spec fn sorted_stream(events: Seq<(i64, EventKind)>) -> bool {
    forall|i: int, j: int| 0 <= i <= j < events.len() ==> #[trigger] events[i].0 <= #[trigger] events[j].0
}

/// What the scan of a sorted, well-formed stream keeps: ordered windows, all
/// ending by the last event and inside the day's end, the duty windows ending
/// before an open duty's start and the work windows before an open segment's.
proof fn lemma_scan_order(events: Seq<(i64, EventKind)>, ds: i64, de: i64)
    requires
        well_formed_stream(events),
        sorted_stream(events),
        ds <= de,
    ensures
        ({
            let (open, pending, d, w) = scan_events(events, ds, de);
            let (duty, segment) = stream_state(events);
            &&& ordered_windows(d)
            &&& ordered_windows(w)
            &&& forall|i: int| 0 <= i < d.len() ==> #[trigger] d[i].1 <= de
            &&& forall|j: int| 0 <= j < w.len() ==> #[trigger] w[j].1 <= de
            &&& events.len() > 0 ==> (forall|i: int| 0 <= i < d.len() ==> #[trigger] d[i].1 <= events.last().0)
            &&& events.len() > 0 ==> (forall|j: int| 0 <= j < w.len() ==> #[trigger] w[j].1 <= events.last().0)
            &&& (duty matches Some(t) ==> forall|i: int| 0 <= i < d.len() ==> #[trigger] d[i].1 <= later(t, ds))
            &&& (segment matches Some(sg) ==> forall|j: int| 0 <= j < w.len() ==> #[trigger] w[j].1 <= later(sg, ds))
        }),
    decreases events.len(),
{
    if events.len() > 0 {
        let prev = events.drop_last();
        assert(sorted_stream(prev)) by {
            assert forall|i: int, j: int| 0 <= i <= j < prev.len() implies #[trigger] prev[i].0 <= #[trigger] prev[j].0 by {
                assert(events[i].0 <= events[j].0);
            }
        }
        lemma_scan_order(prev, ds, de);
        lemma_stream_state(prev);
        lemma_scan_split(prev, ds, de, de);
        let (open, pending, d, w) = scan_events(prev, ds, de);
        let (duty, segment) = stream_state(prev);
        let (at, kind) = events.last();
        if prev.len() > 0 {
            assert(prev.last().0 <= at) by {
                assert(events[prev.len() - 1].0 <= events[events.len() - 1].0);
            }
        }
        match kind {
            EventKind::ClockOut | EventKind::AutoClockOut => {
                let t = duty->0;
                let x = (later(t, ds), earlier(at, de));
                let d2 = if x.1 > x.0 { d.push(x) } else { d };
                assert(scan_events(events, ds, de) == (None::<i64>, None::<i64>, d2, w));
                assert(ordered_windows(d2)) by {
                    assert forall|i: int, k: int| 0 <= i < k < d2.len() implies #[trigger] d2[i].1 <= #[trigger] d2[k].0 by {
                        if k < d.len() {
                            assert(d[i].1 <= d[k].0);
                        }
                    }
                }
            },
            EventKind::SegmentEnd => {
                let sg = segment->0;
                let y = (later(sg, ds), earlier(at, de));
                let w2 = if y.1 > y.0 { w.push(y) } else { w };
                assert(close_work(Some(later(sg, ds)), w, earlier(at, de)) == w2);
                assert(scan_events(events, ds, de) == (open, None::<i64>, d, w2));
                assert(ordered_windows(w2)) by {
                    assert forall|i: int, k: int| 0 <= i < k < w2.len() implies #[trigger] w2[i].1 <= #[trigger] w2[k].0 by {
                        if k < w.len() {
                            assert(w[i].1 <= w[k].0);
                        }
                    }
                }
            },
            _ => {},
        }
    }
}

/// A window list cut to `[later(t, ds), earlier(until, de))`: the part of
/// it from a duty begun at `t` up to `until`, inside the day.
spec fn gain(w: Seq<(i64, i64)>, t: i64, until: i64, ds: i64, de: i64) -> int {
    clip_sum(w, later(t, ds), earlier(until, de), w.len())
}

proof fn lemma_clip_across_push(d: Seq<(i64, i64)>, x: (i64, i64), w: (i64, i64), k: nat)
    requires
        k <= d.len(),
    ensures
        clip_across(d.push(x), w, k) == clip_across(d, w, k),
    decreases k,
{
    if k > 0 {
        lemma_clip_across_push(d, x, w, (k - 1) as nat);
    }
}

/// One more duty window adds each work window's cut to it.
proof fn lemma_clip_by_work_push_duty(d: Seq<(i64, i64)>, x: (i64, i64), w: Seq<(i64, i64)>, m: nat)
    requires
        m <= w.len(),
    ensures
        clip_by_work(d.push(x), w, d.len() + 1, m) == clip_by_work(d, w, d.len(), m) + clip_sum(w, x.0, x.1, m),
    decreases m,
{
    if m > 0 {
        lemma_clip_by_work_push_duty(d, x, w, (m - 1) as nat);
        lemma_clip_across_push(d, x, w[m - 1], d.len());
    }
}

proof fn lemma_clip_by_work_push_work(d: Seq<(i64, i64)>, w: Seq<(i64, i64)>, y: (i64, i64), k: nat, m: nat)
    requires
        m <= w.len(),
    ensures
        clip_by_work(d, w.push(y), k, m) == clip_by_work(d, w, k, m),
        clip_by_work(d, w.push(y), k, m + 1) == clip_by_work(d, w, k, m) + clip_across(d, y, k) || m < w.len(),
    decreases m,
{
    if m > 0 {
        lemma_clip_by_work_push_work(d, w, y, k, (m - 1) as nat);
    }
}

proof fn lemma_clip_sum_push(w: Seq<(i64, i64)>, y: (i64, i64), lo: i64, hi: i64, m: nat)
    requires
        m <= w.len(),
    ensures
        clip_sum(w.push(y), lo, hi, m) == clip_sum(w, lo, hi, m),
    decreases m,
{
    if m > 0 {
        lemma_clip_sum_push(w, y, lo, hi, (m - 1) as nat);
    }
}

/// A window starting after every duty window ends is cut to nothing by them.
proof fn lemma_clip_across_zero(d: Seq<(i64, i64)>, y: (i64, i64), k: nat)
    requires
        k <= d.len(),
        forall|i: int| 0 <= i < k ==> #[trigger] d[i].1 <= y.0,
    ensures
        clip_across(d, y, k) == 0,
    decreases k,
{
    if k > 0 {
        lemma_clip_across_zero(d, y, (k - 1) as nat);
        assert(d[k - 1].1 <= y.0);
    }
}

/// Windows ending before `lo`, or an empty `[lo, hi)`, are cut to nothing.
proof fn lemma_clip_sum_zero(w: Seq<(i64, i64)>, lo: i64, hi: i64, m: nat)
    requires
        m <= w.len(),
        hi <= lo || forall|j: int| 0 <= j < m ==> #[trigger] w[j].1 <= lo,
    ensures
        clip_sum(w, lo, hi, m) == 0,
    decreases m,
{
    if m > 0 {
        lemma_clip_sum_zero(w, lo, hi, (m - 1) as nat);
        if !(hi <= lo) {
            assert(w[m - 1].1 <= lo);
        }
    }
}

/// A segment begun at `s` within a duty begun at `t`, cut to the day and
/// then to the duty's part up to `until`, leaves its part up to `until` in the day.
proof fn lemma_clip_nested(s: i64, e: i64, t: i64, until: i64, ds: i64, de: i64)
    requires
        t <= s,
    ensures
        clip_len(later(s, ds), earlier(e, de), later(t, ds), earlier(until, de)) == clip_len(
            s,
            earlier(e, until),
            ds,
            de,
        ),
{
}

/// The work of the closed work windows, cut to the closed duty windows.
spec fn closed_work(events: Seq<(i64, EventKind)>, ds: i64, de: i64) -> int {
    let (_, _, d, w) = scan_events(events, ds, de);
    clip_by_work(d, w, d.len(), w.len())
}

/// The closed work windows' part inside a duty begun at `t` and running until `until`.
spec fn open_gain(events: Seq<(i64, EventKind)>, t: i64, until: i64, ds: i64, de: i64) -> int {
    gain(scan_events(events, ds, de).3, t, until, ds, de)
}

/// The work a day's blocks hold: the closed work inside closed duty, and, with
/// a duty still open, the work inside it up to `now` and the open segment's
/// part up to `now`.
spec fn reduced_work(events: Seq<(i64, EventKind)>, ds: i64, de: i64, now: i64) -> int {
    closed_work(events, ds, de) + match stream_state(events).0 {
        Some(t) => open_gain(events, t, now, ds, de) + match stream_state(events).1 {
            Some(sg) => clip_len(sg, now, ds, de),
            None => 0,
        },
        None => 0,
    }
}

proof fn lemma_sorted_prefix(events: Seq<(i64, EventKind)>)
    requires
        sorted_stream(events),
        events.len() > 0,
    ensures
        sorted_stream(events.drop_last()),
        events.len() > 1 ==> events.drop_last().last().0 <= events.last().0,
{
    let prev = events.drop_last();
    assert forall|i: int, j: int| 0 <= i <= j < prev.len() implies #[trigger] prev[i].0 <= #[trigger] prev[j].0 by {
        assert(events[i].0 <= events[j].0);
    }
    if events.len() > 1 {
        assert(events[prev.len() - 1].0 <= events[events.len() - 1].0);
    }
}

/// What one more event does to the closed work and to the work inside the
/// open duty, in one window.
proof fn lemma_work_step(events: Seq<(i64, EventKind)>, ds: i64, de: i64, until: i64)
    requires
        well_formed_stream(events),
        sorted_stream(events),
        events.len() > 0,
        ds <= de,
    ensures
        ({
            let prev = events.drop_last();
            let (duty, segment) = stream_state(prev);
            let (at, kind) = events.last();
            match kind {
                EventKind::ClockIn => closed_work(events, ds, de) == closed_work(prev, ds, de) && open_gain(
                    events,
                    at,
                    until,
                    ds,
                    de,
                ) == 0,
                EventKind::ClockOut | EventKind::AutoClockOut => closed_work(events, ds, de) == closed_work(
                    prev,
                    ds,
                    de,
                ) + open_gain(prev, duty->0, at, ds, de),
                EventKind::SegmentStart => closed_work(events, ds, de) == closed_work(prev, ds, de) && forall|
                    t: i64,
                | #[trigger] open_gain(events, t, until, ds, de) == open_gain(prev, t, until, ds, de),
                EventKind::SegmentEnd => closed_work(events, ds, de) == closed_work(prev, ds, de) && open_gain(
                    events,
                    duty->0,
                    until,
                    ds,
                    de,
                ) == open_gain(prev, duty->0, until, ds, de) + clip_len(segment->0, earlier(at, until), ds, de),
            }
        }),
{
    let prev = events.drop_last();
    lemma_sorted_prefix(events);
    lemma_scan_order(prev, ds, de);
    lemma_stream_state(prev);
    lemma_scan_split(prev, ds, de, de);
    let (open, pending, d, w) = scan_events(prev, ds, de);
    let (duty, segment) = stream_state(prev);
    let (at, kind) = events.last();
    match kind {
        EventKind::ClockIn => {
            assert(scan_events(events, ds, de) == (Some(later(at, ds)), pending, d, w));
            assert forall|j: int| 0 <= j < w.len() implies #[trigger] w[j].1 <= later(at, ds) by {
                assert(prev.len() > 0);
            }
            lemma_clip_sum_zero(w, later(at, ds), earlier(until, de), w.len());
        },
        EventKind::ClockOut | EventKind::AutoClockOut => {
            let t = duty->0;
            let x = (later(t, ds), earlier(at, de));
            if x.1 > x.0 {
                assert(scan_events(events, ds, de) == (None::<i64>, None::<i64>, d.push(x), w));
                lemma_clip_by_work_push_duty(d, x, w, w.len());
            } else {
                assert(scan_events(events, ds, de) == (None::<i64>, None::<i64>, d, w));
                lemma_clip_sum_zero(w, x.0, x.1, w.len());
            }
        },
        EventKind::SegmentStart => {
            assert(scan_events(events, ds, de).2 == d && scan_events(events, ds, de).3 == w);
        },
        EventKind::SegmentEnd => {
            let t = duty->0;
            let sg = segment->0;
            let y = (later(sg, ds), earlier(at, de));
            let lo = later(t, ds);
            let hi = earlier(until, de);
            lemma_clip_nested(sg, at, t, until, ds, de);
            if y.1 > y.0 {
                let w2 = w.push(y);
                assert(scan_events(events, ds, de) == (open, None::<i64>, d, w2));
                lemma_clip_by_work_push_work(d, w, y, d.len(), w.len());
                lemma_clip_across_zero(d, y, d.len());
                lemma_clip_sum_push(w, y, lo, hi, w.len());
                assert(w2[w.len() as int] == y);
                assert(clip_sum(w2, lo, hi, w2.len()) == clip_sum(w2, lo, hi, w.len()) + clip_len(y.0, y.1, lo, hi));
            } else {
                assert(scan_events(events, ds, de) == (open, None::<i64>, d, w));
            }
        },
    }
}

/// Over adjacent windows `[a, b)` and `[b, c)`, the closed work adds up to that
/// of `[a, c)`, and so does the work inside a duty still open, up to any `until`.
proof fn lemma_work_split(events: Seq<(i64, EventKind)>, a: i64, b: i64, c: i64, until: i64)
    requires
        well_formed_stream(events),
        sorted_stream(events),
        a <= b <= c,
    ensures
        closed_work(events, a, b) + closed_work(events, b, c) == closed_work(events, a, c),
        stream_state(events).0 matches Some(t) ==> open_gain(events, t, until, a, b) + open_gain(
            events,
            t,
            until,
            b,
            c,
        ) == open_gain(events, t, until, a, c),
    decreases events.len(),
{
    if events.len() > 0 {
        let prev = events.drop_last();
        lemma_sorted_prefix(events);
        lemma_work_split(prev, a, b, c, until);
        lemma_stream_state(prev);
        lemma_work_step(events, a, b, until);
        lemma_work_step(events, b, c, until);
        lemma_work_step(events, a, c, until);
        let (duty, segment) = stream_state(prev);
        let (at, kind) = events.last();
        match kind {
            EventKind::ClockOut | EventKind::AutoClockOut => {
                lemma_work_split(prev, a, b, c, at);
            },
            EventKind::SegmentStart => {
                let t = duty->0;
                assert(open_gain(events, t, until, a, b) == open_gain(prev, t, until, a, b));
                assert(open_gain(events, t, until, b, c) == open_gain(prev, t, until, b, c));
                assert(open_gain(events, t, until, a, c) == open_gain(prev, t, until, a, c));
            },
            EventKind::SegmentEnd => {
                lemma_clip_split(segment->0, earlier(at, until), a, b, c);
            },
            _ => {},
        }
    }
}

/// The work in a day's blocks is `reduced_work`.
proof fn lemma_blocks_work(events: Seq<(i64, EventKind)>, ds: i64, de: i64, now: i64)
    requires
        well_formed_stream(events),
        sorted_stream(events),
        ds <= de,
    ensures
        ({
            let (d, w, _) = day_windows(events, ds, de, now);
            work_total(day_blocks(d, w, d.len())) == reduced_work(events, ds, de, now)
        }),
{
    lemma_scan_order(events, ds, de);
    lemma_stream_state(events);
    lemma_scan_split(events, ds, de, de);
    let (open, pending, d, w) = scan_events(events, ds, de);
    let (duty, segment) = stream_state(events);
    let (d2, w2, _) = day_windows(events, ds, de, now);
    match duty {
        Some(t) => {
            let x = (later(t, ds), earlier(now, de));
            if x.1 > x.0 {
                assert(d2 == d.push(x));
                assert(ordered_windows(d2)) by {
                    assert forall|i: int, k: int| 0 <= i < k < d2.len() implies #[trigger] d2[i].1 <= #[trigger] d2[k].0 by {
                        if k < d.len() {
                            assert(d[i].1 <= d[k].0);
                        }
                    }
                }
                lemma_clip_by_work_push_duty(d, x, w, w.len());
                match segment {
                    Some(sg) => {
                        let y = (later(sg, ds), x.1);
                        lemma_clip_nested(sg, now, t, now, ds, de);
                        if y.1 > y.0 {
                            assert(w2 == w.push(y));
                            assert(ordered_windows(w2)) by {
                                assert forall|i: int, k: int| 0 <= i < k < w2.len() implies #[trigger] w2[i].1 <= #[trigger] w2[k].0 by {
                                    if k < w.len() {
                                        assert(w[i].1 <= w[k].0);
                                    }
                                }
                            }
                            lemma_clip_by_work_push_work(d2, w, y, d2.len(), w.len());
                            lemma_clip_across_push(d, x, y, d.len());
                            lemma_clip_across_zero(d, y, d.len());
                            assert(d2[d.len() as int] == x);
                        } else {
                            assert(w2 == w);
                        }
                    },
                    None => {
                        assert(w2 == w);
                    },
                }
            } else {
                assert(d2 == d && w2 == w);
                lemma_clip_sum_zero(w, x.0, x.1, w.len());
            }
        },
        None => {
            assert(d2 == d && w2 == w);
        },
    }
    lemma_day_blocks_work(d2, w2, d2.len());
    lemma_clip_swap(d2, w2, d2.len(), w2.len());
}

/// Law: for a sorted, well-formed event stream, the reductions of two
/// adjacent windows `[a, b)` and `[b, c)` add up to the reduction of
/// `[a, c)`: duty, work and rest seconds alike (as `reduce_day` gives them),
/// whatever `now` is. A shift, with all its timed segments, crossing `b` is
/// split between the two days with nothing counted twice and nothing lost.
pub proof fn lemma_reduction_split(
    events: Seq<(i64, EventKind)>,
    a: i64,
    b: i64,
    c: i64,
    now: i64,
    first: DaySummary,
    second: DaySummary,
    whole: DaySummary,
)
    requires
        well_formed_stream(events),
        sorted_stream(events),
        a <= b <= c,
        day_reduction(events, a, b, now, first),
        day_reduction(events, b, c, now, second),
        day_reduction(events, a, c, now, whole),
        first.work_secs == work_total(first.blocks@),
        second.work_secs == work_total(second.blocks@),
        whole.work_secs == work_total(whole.blocks@),
        first.rest_secs == first.duty_secs - first.work_secs,
        second.rest_secs == second.duty_secs - second.work_secs,
        whole.rest_secs == whole.duty_secs - whole.work_secs,
    ensures
        first.duty_secs + second.duty_secs == whole.duty_secs,
        first.work_secs + second.work_secs == whole.work_secs,
        first.rest_secs + second.rest_secs == whole.rest_secs,
{
    lemma_day_split(events, a, b, c, now);
    lemma_blocks_work(events, a, b, now);
    lemma_blocks_work(events, b, c, now);
    lemma_blocks_work(events, a, c, now);
    lemma_work_split(events, a, b, c, now);
    lemma_stream_state(events);
    if stream_state(events).1 is Some {
        lemma_clip_split(stream_state(events).1->0, now, a, b, c);
    }
}

/// Time on duty over `[ds, de)`, shift by shift: each closed shift cut to the
/// day, and a shift still open cut to the day up to `now`.
pub open spec fn shift_time(events: Seq<(i64, EventKind)>, ds: i64, de: i64, now: i64) -> int {
    closed_shift_time(events, ds, de) + match stream_state(events).0 {
        Some(t) => clip_len(t, now, ds, de),
        None => 0,
    }
}

/// Each closed shift, from its clock-in to its clock-out, cut to `[ds, de)`, added up.
pub open spec fn closed_shift_time(events: Seq<(i64, EventKind)>, ds: i64, de: i64) -> int
    decreases events.len(),
{
    if events.len() == 0 {
        0
    } else {
        let prev = events.drop_last();
        let (at, kind) = events.last();
        closed_shift_time(prev, ds, de) + match kind {
            EventKind::ClockOut | EventKind::AutoClockOut => match stream_state(prev).0 {
                Some(t) => clip_len(t, at, ds, de),
                None => 0,
            },
            _ => 0,
        }
    }
}

/// The closed timed segments of the shift still open, in order (none off duty).
pub open spec fn shift_segments(events: Seq<(i64, EventKind)>) -> Seq<(i64, i64)>
    decreases events.len(),
{
    if events.len() == 0 {
        Seq::empty()
    } else {
        let prev = events.drop_last();
        let (at, kind) = events.last();
        match kind {
            EventKind::SegmentStart => shift_segments(prev),
            EventKind::SegmentEnd => match stream_state(prev).1 {
                Some(s) => shift_segments(prev).push((s, at)),
                None => shift_segments(prev),
            },
            _ => Seq::empty(),
        }
    }
}

/// The first `m` segments, each ending by `until` and cut to `[ds, de)`, added up.
pub open spec fn segments_until(segs: Seq<(i64, i64)>, until: i64, ds: i64, de: i64, m: nat) -> int
    decreases m,
{
    if m == 0 {
        0
    } else {
        segments_until(segs, until, ds, de, (m - 1) as nat) + clip_len(
            segs[m - 1].0,
            earlier(segs[m - 1].1, until),
            ds,
            de,
        )
    }
}

/// Work time over `[ds, de)`, segment by segment: each segment cut to its
/// shift (ending at the clock-out, or at `now` for the shift still open) and
/// to the day, and a segment still open cut to the day up to `now`.
pub open spec fn segment_time(events: Seq<(i64, EventKind)>, ds: i64, de: i64, now: i64) -> int {
    closed_segment_time(events, ds, de) + match stream_state(events).0 {
        Some(_) => segments_until(shift_segments(events), now, ds, de, shift_segments(events).len())
            + match stream_state(events).1 {
            Some(s) => clip_len(s, now, ds, de),
            None => 0,
        },
        None => 0,
    }
}

/// The segments of each closed shift, cut to the shift and to `[ds, de)`, added up.
pub open spec fn closed_segment_time(events: Seq<(i64, EventKind)>, ds: i64, de: i64) -> int
    decreases events.len(),
{
    if events.len() == 0 {
        0
    } else {
        let prev = events.drop_last();
        let (at, kind) = events.last();
        closed_segment_time(prev, ds, de) + match kind {
            EventKind::ClockOut | EventKind::AutoClockOut => segments_until(
                shift_segments(prev),
                at,
                ds,
                de,
                shift_segments(prev).len(),
            ),
            _ => 0,
        }
    }
}

/// The closed duty windows of a well-formed stream add up to its closed shifts.
proof fn lemma_closed_shift_time(events: Seq<(i64, EventKind)>, ds: i64, de: i64)
    requires
        well_formed_stream(events),
        ds <= de,
    ensures
        duty_total(scan_events(events, ds, de).2, scan_events(events, ds, de).2.len()) == closed_shift_time(
            events,
            ds,
            de,
        ),
    decreases events.len(),
{
    if events.len() > 0 {
        let prev = events.drop_last();
        lemma_closed_shift_time(prev, ds, de);
        lemma_stream_state(prev);
        lemma_scan_split(prev, ds, de, de);
        let (open, pending, d, w) = scan_events(prev, ds, de);
        let (at, kind) = events.last();
        match kind {
            EventKind::ClockOut | EventKind::AutoClockOut => {
                let t = stream_state(prev).0->0;
                lemma_total_close(d, later(t, ds), earlier(at, de));
                assert(scan_events(events, ds, de).2 == close_work(Some(later(t, ds)), d, earlier(at, de)));
            },
            _ => {
                assert(scan_events(events, ds, de).2 == d);
            },
        }
    }
}

proof fn lemma_segments_until_push(segs: Seq<(i64, i64)>, y: (i64, i64), until: i64, ds: i64, de: i64, m: nat)
    requires
        m <= segs.len(),
    ensures
        segments_until(segs.push(y), until, ds, de, m) == segments_until(segs, until, ds, de, m),
    decreases m,
{
    if m > 0 {
        lemma_segments_until_push(segs, y, until, ds, de, (m - 1) as nat);
    }
}

/// The closed work of a sorted, well-formed stream is that of its closed
/// shifts' segments, and the work inside the shift still open, up to
/// `until`, is that of its closed segments.
proof fn lemma_closed_segment_time(events: Seq<(i64, EventKind)>, ds: i64, de: i64, until: i64)
    requires
        well_formed_stream(events),
        sorted_stream(events),
        ds <= de,
    ensures
        closed_work(events, ds, de) == closed_segment_time(events, ds, de),
        stream_state(events).0 matches Some(t) ==> open_gain(events, t, until, ds, de) == segments_until(
            shift_segments(events),
            until,
            ds,
            de,
            shift_segments(events).len(),
        ),
    decreases events.len(),
{
    if events.len() > 0 {
        let prev = events.drop_last();
        lemma_sorted_prefix(events);
        lemma_closed_segment_time(prev, ds, de, until);
        lemma_stream_state(prev);
        lemma_work_step(events, ds, de, until);
        let (duty, segment) = stream_state(prev);
        let (at, kind) = events.last();
        match kind {
            EventKind::ClockOut | EventKind::AutoClockOut => {
                lemma_closed_segment_time(prev, ds, de, at);
            },
            EventKind::SegmentStart => {
                let t = duty->0;
                assert(open_gain(events, t, until, ds, de) == open_gain(prev, t, until, ds, de));
            },
            EventKind::SegmentEnd => {
                let segs = shift_segments(prev);
                let y = (segment->0, at);
                lemma_segments_until_push(segs, y, until, ds, de, segs.len());
                assert(shift_segments(events) == segs.push(y));
                assert(segs.push(y)[segs.len() as int] == y);
            },
            _ => {},
        }
    }
}

/// For a well-formed stream, the day's duty time is its shifts' time and, if
/// the stream is also sorted, the work in the day's blocks is its segments' time.
proof fn lemma_reduction_totals(events: Seq<(i64, EventKind)>, ds: i64, de: i64, now: i64)
    requires
        well_formed_stream(events),
        ds <= de,
    ensures
        day_duty(events, ds, de, now) == shift_time(events, ds, de, now),
        sorted_stream(events) ==> ({
            let (d, w, _) = day_windows(events, ds, de, now);
            work_total(day_blocks(d, w, d.len())) == segment_time(events, ds, de, now)
        }),
{
    lemma_closed_shift_time(events, ds, de);
    lemma_stream_state(events);
    lemma_scan_split(events, ds, de, de);
    let (open, pending, d, w) = scan_events(events, ds, de);
    if stream_state(events).0 is Some {
        let t = stream_state(events).0->0;
        lemma_total_close(d, later(t, ds), earlier(now, de));
    }
    if sorted_stream(events) {
        lemma_blocks_work(events, ds, de, now);
        lemma_closed_segment_time(events, ds, de, now);
    }
}

/// The scan of `events` from the scan state `st`, in order.
spec fn scan_from(st: ScanState, events: Seq<(i64, EventKind)>, ds: i64, de: i64) -> ScanState
    decreases events.len(),
{
    if events.len() == 0 {
        st
    } else {
        scan_step(scan_from(st, events.drop_last(), ds, de), events.last(), ds, de)
    }
}

/// Scanning two runs of events one after the other scans the second from
/// where the first left off.
proof fn lemma_scan_concat(p: Seq<(i64, EventKind)>, s: Seq<(i64, EventKind)>, ds: i64, de: i64)
    ensures
        scan_events(p + s, ds, de) == scan_from(scan_events(p, ds, de), s, ds, de),
    decreases s.len(),
{
    if s.len() == 0 {
        assert(p + s =~= p);
    } else {
        lemma_scan_concat(p, s.drop_last(), ds, de);
        assert((p + s).drop_last() =~= p + s.drop_last());
        assert((p + s).last() == s.last());
    }
}

/// Events all before `bound` leave any open duty or segment begun before it.
proof fn lemma_stream_before(events: Seq<(i64, EventKind)>, bound: i64)
    requires
        forall|i: int| 0 <= i < events.len() ==> #[trigger] events[i].0 < bound,
    ensures
        stream_state(events).0 matches Some(t) ==> t < bound,
        stream_state(events).1 matches Some(s) ==> s < bound,
    decreases events.len(),
{
    if events.len() > 0 {
        let prev = events.drop_last();
        assert forall|i: int| 0 <= i < prev.len() implies #[trigger] prev[i].0 < bound by {
            assert(prev[i] == events[i]);
        }
        lemma_stream_before(prev, bound);
        assert(events.last() == events[events.len() - 1]);
    }
}

/// Events all before the day's start close no window of the day, and leave
/// any open duty or segment counted from the day's start.
proof fn lemma_scan_before_day(events: Seq<(i64, EventKind)>, ds: i64, de: i64)
    requires
        ds <= de,
        forall|i: int| 0 <= i < events.len() ==> #[trigger] events[i].0 < ds,
    ensures
        scan_events(events, ds, de).0 matches Some(x) ==> x == ds,
        scan_events(events, ds, de).1 matches Some(x) ==> x == ds,
        scan_events(events, ds, de).2 == Seq::<(i64, i64)>::empty(),
        scan_events(events, ds, de).3 == Seq::<(i64, i64)>::empty(),
    decreases events.len(),
{
    if events.len() > 0 {
        let prev = events.drop_last();
        assert forall|i: int| 0 <= i < prev.len() implies #[trigger] prev[i].0 < ds by {
            assert(prev[i] == events[i]);
        }
        lemma_scan_before_day(prev, ds, de);
        assert(events.last() == events[events.len() - 1]);
    }
}

/// Scanning `s` after events `p` that all precede the day, and scanning `s`
/// alone, close the same windows; they differ only in a duty or segment
/// still open since before the day, which the first counts from the day's
/// start and the second has not seen begin.
proof fn lemma_scan_agree(p: Seq<(i64, EventKind)>, s: Seq<(i64, EventKind)>, ds: i64, de: i64)
    requires
        well_formed_stream(p + s),
        ds <= de,
        forall|i: int| 0 <= i < p.len() ==> #[trigger] p[i].0 < ds,
    ensures
        ({
            let a = scan_from(scan_events(p, ds, de), s, ds, de);
            let b = scan_events(s, ds, de);
            let st = stream_state(p + s);
            &&& a.2 == b.2
            &&& a.3 == b.3
            &&& a.0 != b.0 ==> a.0 == Some(ds) && b.0 is None && (st.0 matches Some(t) && t < ds)
            &&& a.1 != b.1 ==> a.1 == Some(ds) && b.1 is None && st.1 is Some && (st.0 matches Some(t) && t
                < ds)
        }),
    decreases s.len(),
{
    if s.len() == 0 {
        assert(p + s =~= p);
        lemma_scan_before_day(p, ds, de);
        lemma_scan_split(p, ds, de, de);
        lemma_stream_before(p, ds);
        lemma_stream_state(p);
    } else {
        let s0 = s.drop_last();
        assert((p + s).drop_last() =~= p + s0);
        assert((p + s).last() == s.last());
        lemma_scan_agree(p, s0, ds, de);
        lemma_stream_state(p + s0);
    }
}

/// Law: a day's reduction does not depend on where the read of events
/// starts before the day. For a well-formed stream whose events before
/// index `k` all precede the day's start, reducing only the events from `k`
/// on gives the same blocks, duty, work and rest as reducing them all,
/// unless a duty begun before the day is still open at the end (its start
/// is then among the dropped events). In particular a segment end, or a
/// clock-out, whose start was dropped counts from the day's start.
pub proof fn lemma_reduction_from_day_start(
    events: Seq<(i64, EventKind)>,
    k: int,
    ds: i64,
    de: i64,
    now: i64,
    part: DaySummary,
    whole: DaySummary,
)
    requires
        well_formed_stream(events),
        ds <= de,
        0 <= k <= events.len(),
        forall|i: int| 0 <= i < k ==> #[trigger] events[i].0 < ds,
        stream_state(events).0 matches Some(t) ==> ds <= t,
        day_reduction(events.subrange(k, events.len() as int), ds, de, now, part),
        day_reduction(events, ds, de, now, whole),
        part.work_secs == work_total(part.blocks@),
        whole.work_secs == work_total(whole.blocks@),
        part.rest_secs == part.duty_secs - part.work_secs,
        whole.rest_secs == whole.duty_secs - whole.work_secs,
    ensures
        part.blocks@ == whole.blocks@,
        part.duty_secs == whole.duty_secs,
        part.work_secs == whole.work_secs,
        part.rest_secs == whole.rest_secs,
        part.duty_started_at == whole.duty_started_at,
        part.duty_ended_at == whole.duty_ended_at,
{
    let p = events.subrange(0, k);
    let s = events.subrange(k, events.len() as int);
    assert(events =~= p + s);
    assert forall|i: int| 0 <= i < p.len() implies #[trigger] p[i].0 < ds by {
        assert(p[i] == events[i]);
    }
    lemma_scan_concat(p, s, ds, de);
    lemma_scan_agree(p, s, ds, de);
    assert(scan_events(events, ds, de) == scan_events(s, ds, de));
}

/// Close the pending work window at `we`.
fn take_work(pending: &mut Option<i64>, windows: &mut Vec<(i64, i64)>, we: i64)
    ensures
        *final(pending) == None::<i64>,
        final(windows)@ == close_work(*old(pending), old(windows)@, we),
{
    match *pending {
        Some(ws) => {
            *pending = None;
            if we > ws {
                windows.push((ws, we));
            }
        },
        None => {},
    }
}

/// The work windows cut to the duty window `[ds, de)`, merged when they touch or overlap.
fn merge_window(work_windows: &Vec<(i64, i64)>, ds: i64, de: i64) -> (merged: Vec<(i64, i64)>)
    ensures
        merged@ == merge_work(work_windows@, ds, de),
{
    let ghost work = work_windows@;
    let mut merged: Vec<(i64, i64)> = Vec::new();
    let mut j: usize = 0;
    while j < work_windows.len()
        invariant
            j <= work.len(),
            work_windows@ == work,
            merged@ == merge_work(work.take(j as int), ds, de),
        decreases work.len() - j,
    {
        let (ws, we) = work_windows[j];
        proof {
            assert(work.take(j + 1).drop_last() =~= work.take(j as int));
            assert(work.take(j + 1).last() == work[j as int]);
        }
        let s = if ws >= ds { ws } else { ds };
        let e = if we <= de { we } else { de };
        if e > s {
            let n = merged.len();
            if n > 0 && s <= merged[n - 1].1 {
                let last = merged[n - 1];
                merged.set(n - 1, (last.0, if last.1 >= e { last.1 } else { e }));
            } else {
                merged.push((s, e));
            }
        }
        j += 1;
    }
    proof {
        assert(work.take(work.len() as int) =~= work);
    }
    merged
}

/// Append the blocks of the duty window `[ds, de)`: rest up to each merged
/// work window, the window as work, and rest to the end. Returns the work
/// seconds appended.
fn push_window_blocks(blocks: &mut Vec<DayBlock>, work_windows: &Vec<(i64, i64)>, ds: i64, de: i64) -> (window_work: i64)
    requires
        ds < de,
        de - ds <= i64::MAX,
    ensures
        final(blocks)@ == old(blocks)@ + window_blocks(ds, de, merge_work(work_windows@, ds, de)),
        window_work == work_total(window_blocks(ds, de, merge_work(work_windows@, ds, de))),
{
    let merged = merge_window(work_windows, ds, de);
    let ghost m = merged@;
    let ghost before = blocks@;
    proof {
        lemma_merge_ok(work_windows@, ds, de);
    }
    let mut cursor = ds;
    let mut window_work: i64 = 0;
    let mut x: usize = 0;
    while x < merged.len()
        invariant
            x <= m.len(),
            merged@ == m,
            merged_ok(m, ds, de),
            ds < de,
            de - ds <= i64::MAX,
            cursor == cursor_after(ds, m, x as int),
            blocks@ == before + work_blocks(ds, m, x as nat),
            window_work == work_total(work_blocks(ds, m, x as nat)),
        decreases m.len() - x,
    {
        let (ws, we) = merged[x];
        proof {
            lemma_work_blocks(ds, de, m, x as nat);
            lemma_work_blocks(ds, de, m, (x + 1) as nat);
            lemma_gap_then_work(cursor, (ws, we));
            lemma_totals_concat(work_blocks(ds, m, x as nat), gap_then_work(cursor, (ws, we)));
        }
        if ws > cursor {
            blocks.push(DayBlock { start: cursor, end: ws, kind: BlockKind::Rest });
        }
        blocks.push(DayBlock { start: ws, end: we, kind: BlockKind::Work });
        proof {
            assert(blocks@ =~= before + work_blocks(ds, m, (x + 1) as nat));
        }
        window_work = window_work + (we - ws);
        cursor = we;
        x += 1;
    }
    if de > cursor {
        blocks.push(DayBlock { start: cursor, end: de, kind: BlockKind::Rest });
    }
    proof {
        assert(blocks@ =~= before + window_blocks(ds, de, m));
        lemma_work_blocks(ds, de, m, m.len());
        lemma_totals_concat(work_blocks(ds, m, m.len()), trailing_rest(cursor, de));
        if de > cursor {
            lemma_totals_single(DayBlock { start: cursor, end: de, kind: BlockKind::Rest });
        } else {
            lemma_totals_empty();
        }
    }
    window_work
}

/// `summary` is the reduction of `events` over `[day_start, day_end)` with an
/// open duty closed at `now`: its blocks, duty time and first and last duty
/// instants are those of the day's duty and work windows.
pub open spec fn day_reduction(events: Seq<(i64, EventKind)>, day_start: i64, day_end: i64, now: i64, summary: DaySummary) -> bool {
    let (duty, work, open) = day_windows(events, day_start, day_end, now);
    &&& summary.blocks@ == day_blocks(duty, work, duty.len())
    &&& summary.duty_secs == duty_total(duty, duty.len())
    &&& summary.duty_started_at == (if duty.len() > 0 {
        Some(duty[0].0)
    } else {
        None
    })
    &&& summary.duty_ended_at == (if open || duty.len() == 0 {
        None
    } else {
        Some(duty.last().1)
    })
}

/// Reduce one day's events (in time order, including the earlier part of a
/// shift that crosses into the day) to duty, work and rest time and the chart
/// blocks, everything cut to `[day_start, day_end)`; a duty still open is
/// closed at `now`.
///
/// The blocks of each duty window tile it exactly, rest and work alternating
/// inside it, so work and rest add up to the duty time. For a well-formed
/// stream the duty time is the sum over its shifts, each cut to the day (the
/// open one up to `now`), and, in time order, the work time is the sum over
/// its timed segments, each cut to its shift and to the day; rest is the
/// difference.
pub fn reduce_day(events: &[(i64, EventKind)], day_start: i64, day_end: i64, now: i64) -> (summary: DaySummary)
    requires
        day_duty(events@, day_start, day_end, now) <= i64::MAX,
    ensures
        day_reduction(events@, day_start, day_end, now, summary),
        summary.work_secs == work_total(summary.blocks@),
        summary.rest_secs == summary.duty_secs - summary.work_secs,
        summary.rest_secs == rest_total(summary.blocks@),
        length_total(summary.blocks@) == summary.duty_secs,
        0 <= summary.work_secs <= summary.duty_secs,
        blocks_inside(summary.blocks@, day_start as int, day_end as int),
        well_formed_stream(events@) && day_start <= day_end ==> summary.duty_secs == shift_time(
            events@,
            day_start,
            day_end,
            now,
        ),
        well_formed_stream(events@) && sorted_stream(events@) && day_start <= day_end ==> summary.work_secs
            == segment_time(events@, day_start, day_end, now),
{
    let mut duty_windows: Vec<(i64, i64)> = Vec::new();
    let mut work_windows: Vec<(i64, i64)> = Vec::new();
    let mut open_duty: Option<i64> = None;
    let mut pending_work: Option<i64> = None;
    let mut i: usize = 0;
    while i < events.len()
        invariant
            i <= events@.len(),
            (open_duty, pending_work, duty_windows@, work_windows@) == scan_events(
                events@.take(i as int),
                day_start,
                day_end,
            ),
        decreases events@.len() - i,
    {
        let (at, kind) = events[i];
        proof {
            assert(events@.take(i + 1).drop_last() =~= events@.take(i as int));
            assert(events@.take(i + 1).last() == events@[i as int]);
        }
        match kind {
            EventKind::ClockIn => {
                if open_duty.is_none() {
                    open_duty = Some(if at >= day_start { at } else { day_start });
                }
            },
            EventKind::ClockOut | EventKind::AutoClockOut => {
                let start = match open_duty {
                    Some(s) => s,
                    None => day_start,
                };
                open_duty = None;
                let end = if at <= day_end { at } else { day_end };
                if end > start {
                    duty_windows.push((start, end));
                }
                take_work(&mut pending_work, &mut work_windows, end);
            },
            EventKind::SegmentStart => {
                if pending_work.is_none() {
                    pending_work = Some(if at >= day_start { at } else { day_start });
                }
            },
            EventKind::SegmentEnd => {
                if pending_work.is_none() {
                    pending_work = Some(day_start);
                }
                let end = if at <= day_end { at } else { day_end };
                take_work(&mut pending_work, &mut work_windows, end);
            },
        }
        i += 1;
    }
    // A duty still open closes at now (cut at the day's end), with its work.
    let mut open_window = false;
    match open_duty {
        Some(start) => {
            let end = if now <= day_end { now } else { day_end };
            if end > start {
                duty_windows.push((start, end));
                take_work(&mut pending_work, &mut work_windows, end);
                open_window = true;
            }
        },
        None => {},
    }
    let ghost duty = duty_windows@;
    let ghost work = work_windows@;
    proof {
        assert(events@.take(events@.len() as int) =~= events@);
        assert((duty, work, open_window) == day_windows(events@, day_start, day_end, now));
        lemma_day_windows_facts(events@, day_start, day_end, now);
        lemma_day_blocks(duty, work, duty.len(), day_start, day_end);
    }
    // Assemble the blocks window by window.
    let mut blocks: Vec<DayBlock> = Vec::new();
    let mut duty_secs: i64 = 0;
    let mut work_secs: i64 = 0;
    let mut duty_started_at: Option<i64> = None;
    let mut duty_ended_at: Option<i64> = None;
    let mut k: usize = 0;
    while k < duty_windows.len()
        invariant
            k <= duty.len(),
            duty_windows@ == duty,
            work_windows@ == work,
            windows_inside(duty, day_start, day_end),
            duty_total(duty, duty.len()) <= i64::MAX,
            blocks@ == day_blocks(duty, work, k as nat),
            duty_secs == duty_total(duty, k as nat),
            work_secs == work_total(blocks@),
            duty_started_at == (if k > 0 {
                Some(duty[0].0)
            } else {
                None
            }),
            duty_ended_at == (if k > 0 {
                Some(duty[k - 1].1)
            } else {
                None
            }),
        decreases duty.len() - k,
    {
        let (ds, de) = duty_windows[k];
        proof {
            lemma_duty_total_bound(duty, k as nat, day_start, day_end);
            lemma_duty_prefix(duty, (k + 1) as nat, duty.len(), day_start, day_end);
            assert(day_start <= duty[k as int].0 && duty[k as int].0 < duty[k as int].1 && duty[k as int].1 <= day_end);
            lemma_day_blocks(duty, work, (k + 1) as nat, day_start, day_end);
            lemma_merge_ok(work, ds, de);
            lemma_window_blocks(ds, de, merge_work(work, ds, de));
            lemma_totals_concat(
                day_blocks(duty, work, k as nat),
                window_blocks(ds, de, merge_work(work, ds, de)),
            );
        }
        duty_secs = duty_secs + (de - ds);
        if duty_started_at.is_none() {
            duty_started_at = Some(ds);
        }
        duty_ended_at = Some(de);

        let window_work = push_window_blocks(&mut blocks, &work_windows, ds, de);
        work_secs = work_secs + window_work;
        k += 1;
    }
    if open_window {
        duty_ended_at = None;
    }
    proof {
        if well_formed_stream(events@) && day_start <= day_end {
            lemma_reduction_totals(events@, day_start, day_end, now);
        }
    }
    DaySummary {
        duty_started_at,
        duty_ended_at,
        duty_secs,
        work_secs,
        rest_secs: duty_secs - work_secs,
        blocks,
    }
}

} // verus!
