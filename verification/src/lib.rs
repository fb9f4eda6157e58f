//! A cron-driven workflow runner: schedules named scripts, tracks each
//! execution's lifecycle and log, and answers status queries.
//!
//! The crate verifies the decision logic: cron due-detection, the
//! per-workflow run-state machine that enforces at-most-one concurrent
//! execution, the execution record store, the message-script protocol
//! that shapes notifications, and the status service. Process spawning,
//! file I/O and transport live outside, in the surrounding application.
//!
//! Cron expressions are evaluated in UTC: an hour-valued schedule names
//! a UTC time of day, not the host's local one.

#![verifier::loop_isolation(false)]

pub mod engine;
pub mod schedule;
pub mod scheduler;
pub mod server;
pub mod store;
pub mod text;
pub mod types;

