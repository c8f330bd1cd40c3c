//! Core of a connectionless datagram relay.
//!
//! Every datagram that arrives from one peer is sent on, unchanged, to every
//! other peer that is currently known, and peers that stay silent for longer
//! than a configured time are dropped. This crate holds the decisions of that
//! relay and no I/O: a driver owns the socket and the clock, performs the
//! action the relay asks for and reports what came of it.

pub mod addr;
pub mod config;
pub mod laws;
pub mod model;
pub mod protocol;
pub mod registry;
pub mod relay;
pub mod time;
