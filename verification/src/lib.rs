//! Recurrence resolution and windowing engine for calendar event records.
//!
//! The library parses textual timestamps into canonical instants, normalizes
//! raw property-bag event records into typed drafts, expands recurrence rules
//! into a bounded set of concrete occurrences, merges and filters everything
//! to a visibility window, and renders the resulting timeline for display.

pub mod civil;
pub mod pretty;
pub mod record;
pub mod recurrence;
pub mod timeline;
pub mod timestamp;
