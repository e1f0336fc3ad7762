//! An in-memory key-value server core speaking RESP: the frame codec, the
//! command model, the expiring store, the command executor and the
//! replication handshake, each with a machine-checked contract.

pub mod clock;
pub mod connection;
pub mod handshake;
pub mod info;
pub mod redis;
pub mod resp;
pub mod store;
