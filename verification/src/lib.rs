//! Engine of a monitor for sessions of a CLI coding agent: it decodes the
//! session's line-delimited log, infers a live status from the most recent
//! entries, correlates running processes with the log files they write, and
//! drives a poll/notify cycle with debounced notifications.

pub mod actions;
pub mod auth;
pub mod convo;
pub mod correlate;
pub mod index;
pub mod json;
pub mod parser;
pub mod permissions;
pub mod polling;
pub mod status;
pub mod text;
