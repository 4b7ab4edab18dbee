//! Core of a Raft-replicated configuration and service-registry server,
//! together with the client SDK's merge/flatten logic and load balancing.
//!
//! The crate models the replicated state machine (key-value data, namespaces,
//! config entries with history, services and instances, local cache) as plain
//! in-memory data, states the effect of every command as a contract, and
//! proves the laws the system depends on: replayed commands leave the state
//! unchanged, history ids are a deterministic function of the applied log,
//! unchanged content is never re-replicated, and the discovery state machine
//! moves through its health states exactly as specified.
//!
//! All I/O (HTTP, disk, timers, the consensus engine) stays outside; the
//! functions here take times, random draws and fetched payloads as arguments.

use vstd::prelude::*;

pub mod digest;
pub mod discovery;
pub mod auth;
pub mod cache;
pub mod config_store;
pub mod cluster;
pub mod conf;
pub mod configs;
pub mod enc_dec;
pub mod envelope;
pub mod lb;
pub mod log_store;
pub mod namespace;
pub mod parse;
pub mod registry;
pub mod sdk;
pub mod seqs;
pub mod services;
pub mod state;
pub mod text;
pub mod value;
