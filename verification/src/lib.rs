//! A streaming pretty-printer for JSON.
//!
//! A producer of JSON events (a parser replaying a document) announces each
//! structural boundary to a [`PrettyFormatter`], which decides from its small
//! state what layout bytes belong there. No document tree is built.

pub mod document;
pub mod events;
pub mod formatter;
pub mod reading;

pub use events::{accepts, emitted, next_state, repeated, Event, Layout, State};
pub use formatter::{indent, PrettyFormatter};
