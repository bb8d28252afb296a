//! A minimal networked key-value store with integrated publish/subscribe
//! channels, spoken over a single framed binary protocol.
//!
//! The library holds everything the protocol means: the wire codec
//! ([`codec`]), the textual command grammar ([`command`]), the shared store
//! and channel registry ([`database`]), and the per-connection request
//! handling with its subscription handle ([`session`]). The network itself —
//! sockets, tasks, awaiting — lives outside, around these functions.

pub mod assoc;
pub mod broadcast;
pub mod codec;
pub mod command;
pub mod database;
pub mod error;
pub mod protocol;
pub mod session;
