//! Work-time tracking core: a three-state session timer, a clock-in/clock-out
//! workday machine, the reduction of a day's events into duty/work/rest time,
//! the continuous-work reminder, settings validation and SQLite-backed storage.

pub mod duration;
pub mod workday;
pub mod session;
pub mod reminder;
pub mod settings;
pub mod period;
pub mod storage;
pub mod commands;
pub mod paths;
