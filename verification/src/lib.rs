//! A minimal CQL (Cassandra binary protocol v4) database engine: wire
//! codec, frame assembly, a small CQL parser and planner, a typed row
//! codec, and execution against a log-structured key-value store.

pub mod builtins;
pub mod data;
pub mod dialect;
pub mod error;
pub mod execution;
pub mod frame;
pub mod header;
pub mod operation;
pub mod parse;
pub mod response;
pub mod schema;
pub mod session;
pub mod store;
pub mod string_map;
pub mod wire;
