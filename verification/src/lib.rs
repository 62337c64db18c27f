//! Time-tracking core: duration parsing and encoding, report aggregation,
//! and ticket-resolution decision logic for the command-line tool.
//!
//! The modules here hold the verified logic; network transport, prompts and
//! configuration files live outside the library and hand plain values in.

pub mod dates;
pub mod digits;
pub mod duration;
pub mod links;
pub mod records;
pub mod report;
pub mod resolver;
pub mod text;
