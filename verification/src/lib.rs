//! The verified core of RingLog, a single-node message broker that keeps its
//! messages in an append-only write-ahead log.
//!
//! Nothing in here performs I/O. The library decides: what is to be read, written,
//! received or sent next, and what the outcome means. The program around it carries
//! that out.

pub mod broker;
pub mod cli;
pub mod client;
pub mod delivery;
pub mod error;
pub mod history;
pub mod log;
pub mod server;
pub mod tail;
pub mod text;
pub mod transfer;
pub mod wire;
