//! Core engine for assigning requester nodes to capacity-bounded worker
//! nodes over a publish/subscribe message bus.
//!
//! The library keeps a registry of worker nodes built from heartbeat
//! messages, makes load-balancing placement decisions, maintains the
//! routing table that records each assignment, and sweeps out nodes whose
//! heartbeats have gone stale.  All transport (publishing, subscribing,
//! timers) lives outside the library; every function here is a pure or
//! state-updating computation over plain values.

pub mod admission;
pub mod client;
pub mod common;
pub mod config;
pub mod node;
pub mod registry;
pub mod routing;
pub mod service;
pub mod text;
pub mod topics;
