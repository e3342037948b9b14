//! Progress tracking for summary-writing practice: a tolerant parser for
//! graded evaluations, an append-only training log with streaks, badges and a
//! levelling buddy, and read-only statistics over the log.

pub mod evaluation;
pub mod keys;
pub mod models;
pub mod progress;
pub mod reports;
pub mod session;
pub mod time;
