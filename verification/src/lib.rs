//! logtui: an interactive viewer for whatever is piped into it.
//!
//! Input is taken as opaque lines, finite or endless. A capped ring buffer
//! ([`buffer`]) holds the newest of them; every line is also archived in a
//! spill file ([`spill`]), so that the whole history stays scrollable and
//! filterable while memory stays bounded. [`filter`] matches lines against a
//! query, [`app`] holds the state of the viewer, and [`ui`] composes what a
//! frame shows.
//!
//! [`state`] says what the state is and how every event changes it; the
//! functions of [`app`] are proved to do just that, and [`laws`] states what
//! follows for the viewer as a whole. The library performs no input or output
//! itself: it says what to write, read and show, and is told how that went.

pub mod app;
pub mod buffer;
pub mod filter;
pub mod keys;
pub mod laws;
pub mod reader;
pub mod spill;
pub mod state;
pub mod text;
pub mod ui;
pub mod upstream;
