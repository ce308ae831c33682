//! The continuous-work reminder: it fires once the running segment reaches
//! the threshold, and again each time the segment has grown by the repeat
//! interval since it last fired. A new segment clears it.

use vstd::prelude::*;

use crate::duration::{Duration, NANOS_PER_SEC};

verus! {

/// The reminder's threshold and repeat interval.
#[derive(Clone, Copy, Debug, PartialEq, Eq, Structural)]
pub struct ReminderConfig {
    /// The continuous work after which the reminder fires.
    pub threshold: Duration,
    /// The interval between repeats once fired.
    pub repeat: Duration,
}

impl ReminderConfig {
    /// A threshold of `threshold_min` minutes, repeating every five minutes.
    pub fn from_minutes(threshold_min: u32) -> (config: ReminderConfig)
        ensures
            config.threshold@ == threshold_min * 60 * NANOS_PER_SEC,
            config.repeat@ == 300 * NANOS_PER_SEC,
    {
        ReminderConfig {
            threshold: Duration::from_secs(threshold_min as u64 * 60),
            repeat: Duration::from_secs(300),
        }
    }
}

/// Whether the reminder fires for a segment of length `segment`, having
/// last fired at `last` within this segment: at the threshold or beyond, and
/// either not yet fired or grown by the repeat interval since.
pub open spec fn fire_due(last: Option<Duration>, segment: nat, config: ReminderConfig) -> bool {
    fire_due_for(last, segment, config.threshold@, config.repeat@)
}

/// `fire_due` for a threshold and a repeat interval given in nanoseconds.
pub open spec fn fire_due_for(last: Option<Duration>, segment: nat, threshold: nat, repeat: nat) -> bool {
    segment >= threshold && match last {
        None => true,
        Some(l) => segment >= l@ + repeat,
    }
}

/// Where within the current segment the reminder last fired.
pub struct ReminderFire {
    last_fired: Option<Duration>,
}

impl Default for ReminderFire {
    fn default() -> (fire: ReminderFire)
        ensures
            fire.fired_at() is None,
    {
        ReminderFire { last_fired: None }
    }
}

impl ReminderFire {
    /// The segment length at which the reminder last fired.
    pub closed spec fn fired_at(&self) -> Option<Duration> {
        self.last_fired
    }

    /// Decide whether to remind for a segment of length `segment`, and
    /// record the firing point when it fires.
    pub fn evaluate(&mut self, segment: Duration, config: &ReminderConfig) -> (fire: bool)
        ensures
            fire == fire_due(old(self).fired_at(), segment@, *config),
            final(self).fired_at() == (if fire {
                Some(segment)
            } else {
                old(self).fired_at()
            }),
    {
        if segment.as_nanos() < config.threshold.as_nanos() {
            return false;
        }
        let due = match self.last_fired {
            None => true,
            Some(last) => segment.as_nanos() >= last.as_nanos() + config.repeat.as_nanos(),
        };
        if due {
            self.last_fired = Some(segment);
        }
        due
    }

    /// Where the reminder last fired within the current segment.
    pub fn last_fired(&self) -> (last: Option<Duration>)
        ensures
            last == self.fired_at(),
    {
        self.last_fired
    }

    /// Forget the firing point: a new segment begins.
    pub fn clear(&mut self)
        ensures
            final(self).fired_at() is None,
    {
        self.last_fired = None;
    }
}

/// Law: the reminder never fires below the threshold; right after it fires
/// at `segment` it stays quiet until the segment has grown by the repeat
/// interval; and after a clear it fires at the first evaluation that reaches
/// the threshold.
pub proof fn lemma_reminder_cadence(segment: Duration, next: Duration, config: ReminderConfig, last: Option<Duration>)
    ensures
        segment@ < config.threshold@ ==> !fire_due(last, segment@, config),
        next@ < segment@ + config.repeat@ ==> !fire_due(Some(segment), next@, config),
        segment@ >= config.threshold@ ==> fire_due(None, segment@, config),
{
}

} // verus!
