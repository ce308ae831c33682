//! Reminder settings: the continuous-work threshold, the sound and
//! notification switches and the automatic clock-out hours, with their
//! defaults and validation. Reading and writing the JSON file is the
//! application's part; deciding what a read yields is here.

use vstd::prelude::*;

verus! {

/// The reminder settings.
#[derive(Clone, Copy, Debug, PartialEq, Eq, Structural)]
pub struct ReminderSettings {
    /// Continuous-work threshold in minutes (1 to 240).
    pub threshold_min: u32,
    /// Whether the reminder plays a sound.
    pub sound_enabled: bool,
    /// Whether the reminder shows a system notification.
    pub notify_enabled: bool,
    /// Hours on duty after which the workday clocks out by itself (1 to 72).
    pub workday_auto_out_hours: u32,
}

/// A settings failure.
#[derive(Clone, Debug, PartialEq, Eq)]
pub enum SettingsError {
    /// The settings file holds no valid JSON for the settings (the parser's message).
    Json(String),
    /// The settings file could not be read or written (the system's message).
    Io(String),
    /// The user's home directory cannot be found.
    HomeDirUnavailable,
    /// The threshold is outside 1 to 240 minutes.
    InvalidThreshold(u32),
    /// The automatic clock-out is outside 1 to 72 hours.
    InvalidAutoOutHours(u32),
}

/// The default threshold: 50 minutes.
pub fn default_threshold() -> (minutes: u32)
    ensures
        minutes == 50,
{
    50
}

/// The default for the switches: on.
pub fn default_true() -> (on: bool)
    ensures
        on,
{
    true
}

/// The default automatic clock-out: after 8 hours.
pub fn default_auto_out_hours() -> (hours: u32)
    ensures
        hours == 8,
{
    8
}

/// The default settings.
pub open spec fn default_settings() -> ReminderSettings {
    ReminderSettings {
        threshold_min: 50,
        sound_enabled: true,
        notify_enabled: true,
        workday_auto_out_hours: 8,
    }
}

/// What validation answers: the threshold is checked first, then the hours.
pub open spec fn validate_spec(s: ReminderSettings) -> Result<(), SettingsError> {
    if !(1 <= s.threshold_min <= 240) {
        Err(SettingsError::InvalidThreshold(s.threshold_min))
    } else if !(1 <= s.workday_auto_out_hours <= 72) {
        Err(SettingsError::InvalidAutoOutHours(s.workday_auto_out_hours))
    } else {
        Ok(())
    }
}

impl Default for ReminderSettings {
    fn default() -> (s: ReminderSettings)
        ensures
            s == default_settings(),
    {
        ReminderSettings {
            threshold_min: default_threshold(),
            sound_enabled: default_true(),
            notify_enabled: default_true(),
            workday_auto_out_hours: default_auto_out_hours(),
        }
    }
}

impl ReminderSettings {
    /// Check the ranges: threshold 1 to 240 minutes, automatic clock-out 1 to 72 hours.
    pub fn validate(&self) -> (r: Result<(), SettingsError>)
        ensures
            r == validate_spec(*self),
    {
        if !(1 <= self.threshold_min && self.threshold_min <= 240) {
            return Err(SettingsError::InvalidThreshold(self.threshold_min));
        }
        if !(1 <= self.workday_auto_out_hours && self.workday_auto_out_hours <= 72) {
            return Err(SettingsError::InvalidAutoOutHours(self.workday_auto_out_hours));
        }
        Ok(())
    }

    /// The settings a load yields from what the file held: no file (first
    /// start) gives the defaults; stored settings must pass validation.
    pub fn from_stored(stored: Option<ReminderSettings>) -> (r: Result<ReminderSettings, SettingsError>)
        ensures
            stored is None ==> r == Ok::<ReminderSettings, SettingsError>(default_settings()),
            stored matches Some(s) ==> r == (match validate_spec(s) {
                Ok(()) => Ok::<ReminderSettings, SettingsError>(s),
                Err(e) => Err(e),
            }),
    {
        match stored {
            None => Ok(ReminderSettings::default()),
            Some(s) => match s.validate() {
                Ok(()) => Ok(s),
                Err(e) => Err(e),
            },
        }
    }
}

/// Law: the defaults pass validation.
pub proof fn lemma_default_settings_valid()
    ensures
        validate_spec(default_settings()) is Ok,
{
}

} // verus!
