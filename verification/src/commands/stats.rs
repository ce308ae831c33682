//! Today / this week / all-time totals of the recorded segments.

use vstd::prelude::*;

use super::{only_storage_changed, AppContext, CommandError};
use crate::period::{day_start_spec, week_start_spec, zoned_ok, ZonedTime};
use crate::storage::{Request, StorageError};
use crate::session::Clock;

verus! {

/// The three totals, in seconds.
#[derive(Clone, Copy, Debug, PartialEq, Eq, Structural)]
pub struct SessionStats {
    /// Today's seconds.
    pub today_secs: i64,
    /// This week's seconds (from Monday).
    pub week_secs: i64,
    /// All seconds.
    pub all_secs: i64,
}

/// The totals as of `now` (with the local UTC offset there).
pub fn stats_snapshot<C: Clock>(ctx: &mut AppContext<C>, now: &ZonedTime) -> (r: Result<SessionStats, CommandError>)
    requires
        zoned_ok(*now),
    ensures
        r is Ok || r matches Err(CommandError::Storage(StorageError::Sqlite(_))),
        only_storage_changed(*old(ctx), *final(ctx)),
        r matches Ok(stats) ==> final(ctx).storage.requests() == old(ctx).storage.requests().push(
            Request::TotalSince { since: day_start_spec(*now) as i64, total: stats.today_secs },
        ).push(Request::TotalSince { since: week_start_spec(*now) as i64, total: stats.week_secs }).push(
            Request::TotalSince { since: 0, total: stats.all_secs },
        ),
{
    let today_secs = match ctx.storage.today_total(now) {
        Ok(v) => v,
        Err(e) => return Err(CommandError::Storage(e)),
    };
    let week_secs = match ctx.storage.week_total(now) {
        Ok(v) => v,
        Err(e) => return Err(CommandError::Storage(e)),
    };
    let all_secs = match ctx.storage.all_total() {
        Ok(v) => v,
        Err(e) => return Err(CommandError::Storage(e)),
    };
    Ok(SessionStats { today_secs, week_secs, all_secs })
}

} // verus!
