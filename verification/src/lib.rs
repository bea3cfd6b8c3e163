//! A personal journal: timestamped notes, kept in order, selected by a range
//! of instants and merged into one summary per UTC day.
//!
//! Instants are whole seconds since the Unix epoch. Everything that depends
//! on the calendar, the clock or the machine's time zone is delegated to
//! `chrono`, and the uppercase form of a character to the standard library,
//! through a handful of trusted functions; each of them is marked and
//! documented where it stands.

pub mod daily;
pub mod date;
pub mod entry;
pub mod filter;
pub mod report;
pub mod store;
pub mod text;

pub use daily::DailySummary;
pub use entry::Entry;
pub use filter::filter;
pub use text::capitalize;
