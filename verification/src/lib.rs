//! End-to-end encrypted clipboard synchronization core.
//!
//! The crate verifies the four subsystems that carry the hard logic of a
//! multi-device clipboard sync service: the encryption layer (key lifecycle
//! and authenticated encryption of payloads, configuration and strings), the
//! conflict detection and resolution engine, the resilient realtime-channel
//! state machine, and the synchronization orchestrator (queueing, gating and
//! status aggregation). Network and storage I/O stay outside the library;
//! callers hand in plain values and receive plain values and decisions back.

pub mod channel;
pub mod clock;
pub mod codec;
pub mod conflict;
pub mod crypto;
pub mod encryption;
pub mod engine;
pub mod error;
pub mod models;
