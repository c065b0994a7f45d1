//! A connection-oriented, multi-channel reliability layer for unreliable
//! datagram transports.
//!
//! The crate is organised leaves-first: modular sequence arithmetic, byte
//! codecs, buffer pools and ring buffers, then the NACK machinery, the
//! sliding-window receiver, fragmentation, and finally the per-peer channel
//! and endpoint state machines.  All socket, clock and thread concerns stay
//! outside the library: every function here maps plain values (datagram
//! bytes, addresses, a millisecond clock reading) to plain values.

pub mod sequence;
pub mod int_buffer;
pub mod header;
pub mod buffer_pool;
pub mod sequence_buffer;
pub mod nack;
pub mod network_address;
pub mod connection;
pub mod receive_result;
pub mod send_buffer_manager;
pub mod fragmentation;
pub mod receiver;
pub mod channel;
pub mod endpoint;
pub mod pool;
