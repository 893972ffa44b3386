//! Core logic of a calendar/to-do reminder application.
//!
//! The library owns the pieces that carry invariants: the todo store with its
//! date-scoped queries, the wall-clock date/time model those queries filter
//! on, the view-selection state machine, and the plain-text rendering of
//! dates and times. Persistence and the user interface live outside; they
//! exchange plain values with this crate.

pub mod date_time;
pub mod format;
pub mod state;
pub mod store;
pub mod todo;
