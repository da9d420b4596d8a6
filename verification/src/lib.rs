//! A peer-to-peer node: known-host bookkeeping, the plain-text peer
//! announcement format, and the decisions a node takes on each protocol message.

pub mod client;
pub mod decimal;
pub mod hosts;
pub mod node;
pub mod peer_to_peer;
pub mod split;

