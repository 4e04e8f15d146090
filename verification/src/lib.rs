//! WombatKV: the wire, storage and simulation logic of a KV-cache daemon.
//!
//! The crate holds the byte formats, protocol decisions, configuration rules
//! and the deterministic simulation model; every function states what it
//! returns and is proved to return it. Sockets, shared memory, threads and
//! process control live outside, in the application around this library.

pub mod archive;
pub mod arena;
pub mod blocks;
pub mod client;
pub mod config;
pub mod constants;
pub mod dispatch;
pub mod dst_assertions;
pub mod dst_buggify;
pub mod dst_plan;
pub mod dst_rng;
pub mod envelope;
pub mod fault;
pub mod format;
pub mod hashes;
pub mod http_exchange;
pub mod http_head;
pub mod http_transport;
pub mod large;
pub mod le;
pub mod lifecycle;
pub mod message;
pub mod op;
pub mod oracle;
pub mod remote;
pub mod segment;
pub mod serve;
pub mod service;
pub mod session;
pub mod simulation;
pub mod sorted;
pub mod status;
pub mod tcp_transport;
pub mod text;
pub mod wire;
pub mod worker;
