//! A delta timer queue: pending timed events stored as an ordered sequence of
//! (gap, payload) entries, where each gap is the time between the firing of
//! the previous entry (or "now", for the front entry) and this one.
//!
//! The caller drives the queue by reporting elapsed time with `update` and
//! draining due events with `poll`; `next_in` answers "how long until the
//! next event fires?" from the front gap alone.

pub mod laws;
pub mod model;
pub mod timer;

pub use timer::PullTimer;
