//! The subscriptions: what each channel sends first, and when it sends again.
//!
//! Each channel holds what it last reported and tells the net change since, so that
//! several rebuilds between two wakes give one event, and rebuilds that cancel out
//! give none.

pub mod diagnostics;
pub mod files;
pub mod graphs;
pub mod lifecycle;
pub mod types;
