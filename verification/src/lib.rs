//! Reconstruction of a rollup chain's commit/verify history from layer-1
//! event logs.
//!
//! The heart of the crate is [`events_state::RollUpEvents`], a state
//! container that classifies decoded layer-1 logs into committed/verified
//! block ranges, prunes finalized history, truncates on revert
//! notifications, and answers queries for the fully-verified prefix of the
//! committed ranges.

pub mod database;
pub mod events;
pub mod events_state;
pub mod properties;
pub mod window;
