//! A verified core for a personal calendar/agenda tool.
//!
//! The library covers the calendar-date algebra (validation, leap years,
//! month lengths, day-of-week, day-granularity arithmetic), the agenda
//! record model with its sorted timed events and append-only entry blocks,
//! the directory-scan logic that recognises date-named entry files, and the
//! navigation state of the interactive view. All input/output, argument
//! parsing and terminal drawing live outside the library and hand it plain
//! values.

pub mod agenda;
pub mod arguments;
pub mod date;
pub mod date_conversions;
pub mod entry_search;
pub mod navigation;
pub mod text;
