//! Core of a line-oriented chat relay: the wire codec for the newline-delimited
//! JSON protocol, the subscriber registry, the per-connection state machines of
//! server and client, and configuration resolution. All I/O lives outside this
//! library; every function here is a total, verified computation on plain values.

pub mod msg;
pub mod codec;
pub mod user_table;
pub mod server_handler;
pub mod client_handler;
pub mod config;
