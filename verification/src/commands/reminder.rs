//! Reading and applying the reminder settings. Saving them to their file
//! and delivering reminders (notification, window event) are the
//! application's part.

use vstd::prelude::*;

use super::{AppContext, CommandError};
use crate::session::Clock;
use crate::settings::{validate_spec, ReminderSettings};

verus! {

/// The settings in force.
pub fn get_settings_inner<C: Clock>(ctx: &AppContext<C>) -> (settings: ReminderSettings)
    ensures
        settings == ctx.settings,
{
    ctx.settings
}

/// Put `settings` in force once they pass validation; refused settings
/// leave the settings in force unchanged.
pub fn commit_settings<C: Clock>(ctx: &mut AppContext<C>, settings: &ReminderSettings) -> (r: Result<(), CommandError>)
    ensures
        validate_spec(*settings) is Ok ==> r is Ok && final(ctx).settings == *settings,
        validate_spec(*settings) matches Err(e) ==> r == Err::<(), CommandError>(CommandError::Settings(e))
            && final(ctx).settings == old(ctx).settings,
        final(ctx).workday == old(ctx).workday,
        final(ctx).session == old(ctx).session,
        final(ctx).fire == old(ctx).fire,
{
    match settings.validate() {
        Ok(()) => {
            ctx.settings = *settings;
            Ok(())
        },
        Err(e) => Err(CommandError::Settings(e)),
    }
}

} // verus!
