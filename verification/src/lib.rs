//! Continuous capture-and-persist pipeline: the control protocol, the two
//! capture cadences, the orchestrator that multiplexes them, and the store
//! that keeps what they produce.
//!
//! Time is a `u64` count of nanoseconds on one clock that the caller reads.
//! Every function here is a step that returns at once: the caller sleeps,
//! captures and writes; this crate decides when, what and whether.

pub mod address;
pub mod chunker;
pub mod clock;
pub mod codec;
pub mod control;
pub mod error;
pub mod laws;
pub mod orchestrator;
pub mod query;
pub mod rate;
pub mod schedule;
pub mod service;
pub mod session;
pub mod store;
pub mod ticket;
pub mod unit;
