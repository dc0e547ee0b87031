//! Core of a small download-supervisor: it frames the byte streams of a
//! child process into logical lines, extracts a display title from progress
//! output, and builds the events that a host shell delivers to its UI.
//!
//! The host shell owns the actual process, threads and window handles; this
//! crate holds the decisions: how bytes become lines, which lines carry a
//! title, which events are emitted on which channel, and how the exit status
//! is reported.

pub mod events;
pub mod framing;
pub mod runner;
pub mod stream;
pub mod title;
