//! The protocol and scheduling core of a gRPC greeter server.
//!
//! Everything here is a function of plain values: the sockets, the poller and the
//! io_uring instance belong to the program around it.

pub mod async_io;
pub mod buffer;
pub mod bytes_be;
pub mod client;
pub mod client_laws;
pub mod config;
pub mod connection_laws;
pub mod error;
pub mod frame_laws;
pub mod header_laws;
pub mod headers;
pub mod hello;
pub mod io_laws;
pub mod message_laws;
pub mod parking;
pub mod protobuf;
pub mod runtime;
pub mod server;
pub mod table;
pub mod wire;
