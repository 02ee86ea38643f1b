//! Core of an in-memory key-value server speaking the RESP wire protocol:
//! the protocol codec, the keyspace with lazy expiry, the RDB snapshot
//! parser, the replication state machine and the command engine.
//!
//! Everything here is verified; the surrounding process (sockets, files,
//! the async runtime) lives outside this crate and talks to it in plain
//! values.

pub mod num;
pub mod resp;
pub mod glob;
pub mod database;
pub mod command;
pub mod rdb;
pub mod replication;
pub mod config;
pub mod server_state;
pub mod service;
pub mod util;
