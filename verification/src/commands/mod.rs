//! The application's operations on its shared state: the workday, the
//! session timer, the storage, the reminder settings and firing point. Each
//! operation checks the state machines, records what happened, and changes
//! the in-memory state only as the machines allow. Locking, the window and
//! the notifications are the application's part.

pub mod reminder;
pub mod session;
pub mod stats;
pub mod workday;

use vstd::prelude::*;

use crate::reminder::ReminderFire;
use crate::session::{Clock, RealClock, SessionError, WorkSession};
use crate::settings::{ReminderSettings, SettingsError};
use crate::storage::{Storage, StorageError};
use crate::workday::{WorkdayError, WorkdayState};

verus! {

/// The application's state.
pub struct AppContext<C: Clock = RealClock> {
    /// The workday machine (off / on duty).
    pub workday: WorkdayState,
    /// The session timer.
    pub session: WorkSession<C>,
    /// The database.
    pub storage: Storage,
    /// The reminder settings in force (persisted at `settings_path`).
    pub settings: ReminderSettings,
    /// Where in the current segment the reminder last fired.
    pub fire: ReminderFire,
    /// Where the settings are saved.
    pub settings_path: String,
}

/// Between `before` and `after` only the storage changed.
pub open spec fn only_storage_changed<C: Clock>(before: AppContext<C>, after: AppContext<C>) -> bool {
    &&& after.workday == before.workday
    &&& after.session == before.session
    &&& after.settings == before.settings
    &&& after.fire == before.fire
    &&& after.settings_path == before.settings_path
}

/// A failed operation left the state as it was: every part of it, and every
/// request the storage carried out, is unchanged (the connection may have run
/// statements whose writes were undone, or reads).
pub open spec fn kept<C: Clock>(before: AppContext<C>, after: AppContext<C>) -> bool {
    &&& only_storage_changed(before, after)
    &&& after.storage.requests() == before.storage.requests()
}

/// A refused or failed operation.
#[derive(Debug)]
pub enum CommandError {
    /// The session timer refused.
    Session(SessionError),
    /// The workday machine refused.
    Workday(WorkdayError),
    /// The database failed.
    Storage(StorageError),
    /// The settings were refused or could not be saved.
    Settings(SettingsError),
    /// A lock was poisoned by a panic while held.
    Poisoned,
    /// The system clock reads before the Unix epoch.
    Clock,
    /// An event could not be sent to the window (its message).
    Event(String),
    /// A day holds more events than its totals can count.
    TooManyEvents(usize),
    /// A day offset beyond a year either way.
    InvalidOffset(i64),
}

#[verifier::external_type_specification]
#[verifier::external_body]
pub struct ExSystemTime(std::time::SystemTime);

/// Calls `std::time::SystemTime::now`; nothing is promised of the reading.
#[verifier::external_body]
fn system_time_now() -> std::time::SystemTime {
    std::time::SystemTime::now()
}

/// Calls `SystemTime::duration_since` with the Unix epoch and hands back its
/// whole seconds (`None` when the reading is before the epoch). Nothing is
/// promised of the value.
#[verifier::external_body]
fn secs_since_epoch(reading: &std::time::SystemTime) -> Option<u64> {
    match reading.duration_since(std::time::UNIX_EPOCH) {
        Ok(span) => Some(span.as_secs()),
        Err(_) => None,
    }
}

/// The current Unix time in whole seconds; a clock before the epoch is an error.
pub fn wall_now_secs() -> (r: Result<i64, CommandError>)
    ensures
        r is Ok || r matches Err(CommandError::Clock),
{
    let reading = system_time_now();
    match secs_since_epoch(&reading) {
        Some(secs) => Ok(secs as i64),
        None => Err(CommandError::Clock),
    }
}

} // verus!
