//! A cron-style job scheduler core: schedule parsing and validation,
//! crontab document parsing, and the time-reconciliation loop that
//! decides which entries are due as real time drifts or jumps.

pub mod calendar;
pub mod crontab;
pub mod db;
pub mod jobqueue;
pub mod parse;
pub mod schedule;
pub mod scheduler;
