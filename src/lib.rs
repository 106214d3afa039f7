//! A WebRTC rendezvous core: signaling rooms with deterministic fan-out,
//! and the packet logic of an embedded STUN and TURN responder.

pub mod wire;
pub mod stun;
pub mod turn;
pub mod signaling;
pub mod fresh;
pub mod room;
pub mod network;
pub mod config;
