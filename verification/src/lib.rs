//! A live, queryable spatial index of world-entity positions, fed by a
//! row-event stream from an upstream live-query subscription.
//!
//! The crate holds the verified core: the subscription sequencer that issues
//! query batches one at a time, the connection lifecycle state machine, the
//! event router that turns raw row events into per-category location deltas,
//! and the live index itself. Transport, HTTP serving and configuration I/O
//! live outside this crate and hand plain values in and out.

pub mod config;
pub mod dict;
pub mod digits;
pub mod enums;
pub mod database;
pub mod index;
pub mod laws;
pub mod resource;
pub mod state;
pub mod subscription;

pub use config::Config;
