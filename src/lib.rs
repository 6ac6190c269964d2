//! Resolution of compact time-range expressions ("week", "month-1",
//! "2019-01-23..2019-05-09") into inclusive calendar-date intervals.

pub mod activity;
pub mod config;
pub mod date;
pub mod error;
pub mod text;
pub mod time_log;
pub mod time_range;
