//! Rendezvous and NAT-traversal service for pairing two peers: the session
//! directory, the per-engine address registry, the wire codec, and the decision
//! logic of the hole-punch coordinator and the relay forwarder.

pub mod codec;
pub mod control;
pub mod directory;
pub mod punch;
pub mod registry;
pub mod relay;
