//! Whisper: the message delivery plane of a peer-to-peer messenger.
//!
//! The library holds the verified core: identifiers and records (`types`),
//! the wire codec (`wire`), the crypto kernel built on libsodium (`crypto`),
//! the identity vault (`identity`), the store with its ordering and
//! uniqueness rules (`store`) and the key that seals it at rest (`storage`),
//! the per-peer delivery engine (`engine`) with its transport-facing types
//! (`network`), history exchange (`sync`) and the interface's key handling
//! (`ui`).

pub mod types;
pub mod wire;
pub mod store;
pub mod crypto;
pub mod identity;
pub mod engine;
pub mod storage;
pub mod network;
pub mod ui;
pub mod sync;
