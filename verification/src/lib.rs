//! Client-side core of a QUIC-like transport.
//!
//! The crate establishes nothing by itself: it holds the decisions of
//! connection establishment, and leaves sockets and the TLS engine to its
//! caller.
//!
//! - [`types`]: identifiers and where they come from.
//! - [`codec`]: integers on the wire.
//! - [`frame`], [`ack`]: frames and their wire form.
//! - [`packet`]: headers, packets, and the protected datagram.
//! - [`crypto`]: the key schedule and the cipher.
//! - [`connect`]: the handshake state machine.
//! - [`error`]: what can go wrong.

pub mod ack;
pub mod codec;
pub mod connect;
pub mod crypto;
pub mod error;
pub mod frame;
pub mod packet;
pub mod types;

pub use crate::connect::{ConnectFuture, QuicStream};
