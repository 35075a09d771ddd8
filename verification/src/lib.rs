//! A gateway library for the simple-query half of the PostgreSQL wire
//! protocol: byte-exact framing, the startup handshake, outbound message
//! encoders, the mapping of engine result values to wire cells, and the
//! per-connection state machine that ties them together.
//!
//! The SQL engine itself, the TCP listener and all socket I/O live outside
//! this crate; the library works on plain byte buffers and values.

pub mod wire;

pub mod packet;

pub mod interface;

pub mod mapper;

pub mod crafter;

pub mod session;
