//! Peer-to-peer coordination: message schema, peer discovery and gossip.
//!
//! These are the decisions of the transport layer; sockets, timers and the
//! event loop that drive them live outside the library.
pub mod config;
pub mod discovery;
pub mod gossip;
pub mod messages;
pub mod protocol;
pub mod session;
