//! GrinRelay: a WebSocket-fronted relay that lets wallets exchange
//! end-to-end-encrypted transaction payloads ("slates") without being online
//! at the same time.
//!
//! This crate holds the verified core: the address codec (bech32 over a
//! secp256k1 public key), the signed-challenge envelope protocol, the
//! per-connection session state machine, the broker-side subscription tables,
//! the STOMP frame builder, and the short-suffix address directory.
//! Network transports and JSON framing live outside the library and hand it
//! plain values.

pub mod address;
pub mod bech32;
pub mod broker;
pub mod crypto;
pub mod directory;
pub mod error;
pub mod frame;
pub mod json;
pub mod protocol;
pub mod session;
pub mod tx_proof;
pub mod utils;
