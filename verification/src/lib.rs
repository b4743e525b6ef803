//! Local-network peer discovery, pairing, and message exchange.
//!
//! Devices announce themselves over UDP, negotiate trust through a
//! PIN-based handshake over TCP, and then exchange typed payloads
//! (files, clipboard contents, chat) one message per TCP connection.
//! This crate holds the protocol engine: the wire codec, the device
//! registry, and the state transitions driven by incoming datagrams
//! and connections. Sockets, timers, and the user interface live
//! outside; they hand byte buffers and addresses in and carry byte
//! buffers and notifications out.

pub mod codec;
pub mod engine;
pub mod message;
pub mod registry;
