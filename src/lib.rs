//! Peer discovery and best-effort broadcast of byte payloads over UDP.
//!
//! The library holds the protocol's logic: the wire codec, the peer table,
//! the per-event decisions of a node and the bounded history that received
//! payloads go to. Sockets, timers and the OS clipboard stay with the caller.
pub mod bytes;
pub mod checksum;
pub mod error;
pub mod endpoint;
pub mod wire;
pub mod peers;
pub mod liaison;
pub mod clipboard;
pub mod hotkey;
