//! Session lifecycle and summary core of a personal time tracker.
//!
//! Timestamps are whole seconds since the Unix epoch, in UTC, within the
//! range that the calendar library can represent.

pub mod calendar;
pub mod models;
pub mod report;
pub mod rows;
pub mod session_store;
pub mod summary;
pub mod timer_manager;
