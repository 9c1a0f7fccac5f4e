//! Core logic of a small multi-client TCP relay.
//!
//! Every byte chunk received from one connected client is prefixed with the
//! sender's connection identifier and rebroadcast to all currently connected
//! clients, including the sender. This crate holds the verified core: the
//! connection registry, the message tagging, the per-session state machine,
//! and the port-argument parser. The sockets, threads and locks that drive
//! these live outside the crate and hand it plain values.

pub mod config;
pub mod message;
pub mod registry;
pub mod session;
