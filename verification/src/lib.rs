//! Session-tracking core of a passive network sensor.
//!
//! The library observes individual TCP segments captured off the wire and
//! reconstructs the logical state of each connection without taking part in
//! it: a pure state machine infers a session's lifecycle from segment flags,
//! a table keyed by the flow's endpoint 4-tuple holds one session per flow,
//! per-direction registries store payload bytes for reassembly, and periodic
//! sweeps close idle sessions and evict terminal ones.

mod clock;
pub mod device_tagger;
pub mod lemmas;
pub mod registry;
pub mod segment;
pub mod session;
pub mod state_machine;
pub mod table;
pub mod tags;
