//! A local, single-user time-tracking store: one JSON document that maps
//! calendar days (`dd.mm.yyyy`) to records of work time, rest time and a
//! task-completion ratio.
//!
//! The document is read from text, changed in memory and written back as a
//! whole; reading and writing the file itself is left to the caller.

pub mod text;

pub mod json;

pub mod document;

pub mod days;

pub mod laws;

pub mod store;

pub use days::{category_of_uppercase, parse_category, Category};
pub use document::{Day, Document, Field, StoreError};
pub use text::{format_time, incremented_time, next_time, parse_time, parse_u32_or_zero, tasks_text};
