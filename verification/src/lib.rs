//! Core of a TCP port-forwarding relay with traffic telemetry.
//!
//! The crate holds the decisions of the relay: the per-connection state
//! machine, the mapping of lifecycle events to stored rows, the batching
//! writer and the per-client traffic aggregation. Sockets, timers, the event
//! channel and the database are driven by the embedding program, which feeds
//! what happened into these state machines and performs what they answer.

pub mod config;
pub mod decimal;
pub mod events;
mod grouping;
pub mod listener;
pub mod relay;
pub mod relay_laws;
pub mod stats;
pub mod store;
mod sorting;
pub mod traffic;
pub mod traffic_laws;
pub mod writer;
pub mod writer_laws;
