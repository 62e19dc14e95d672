//! The interchangeable stepping strategies.
//!
//! Every strategy fully overwrites the next buffer with
//! [`crate::game_of_life::successor`] of the current buffer; the partitioning
//! of the work (one pass, static bands, dynamically claimed chunks, or a
//! persistent pool's chunks) never affects the result, only its schedule.

pub mod parallel;
pub mod pool;
pub mod serial;
pub mod workers;
