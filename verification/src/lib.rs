//! AirBoard: a peer-to-peer LAN clipboard synchronizer.
//!
//! This crate holds the protocol logic: identity and session cryptography,
//! pairing transcripts and their validation, the replay window, clipboard
//! deduplication, peer and trust registries, discovery address planning and
//! the app lifecycle decisions.

pub mod api;
pub mod clipboard;
pub mod clipboard_state;
pub mod connection_registry;
pub mod crypto;
pub mod discovery;
pub mod encoding;
pub mod heartbeat;
pub mod keyed;
pub mod lifecycle;
pub mod pairing;
pub mod protocol;
pub mod reconnect;
pub mod session;
pub mod sync_engine;
pub mod text;
pub mod trust_store;
