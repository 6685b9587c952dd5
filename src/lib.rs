//! Rest-day bookkeeping for a small set of training routines: decay of the
//! cooldowns by the days that passed, the order in which routines are shown,
//! the routines that are due, and the resolution and completion of the
//! routine that the user names.

pub mod calendar;
pub mod record;
pub mod schedule;
pub mod selection;
