use vstd::prelude::*;

use crate::network_address::NetworkAddress;

verus! {

pub const RECEIVE_ERROR_UNKNOWN: u32 = 1;

pub const RECEIVE_ERROR_CHANNEL: u32 = 2;

/// Outcome of handling one inbound datagram.
pub enum ReceiveResult {
    /// A reliable payload was admitted on this channel; published messages
    /// may now be available.
    Reliable { network_address: NetworkAddress, channel_id: u8 },
    Error,
    Empty,
    Retry,
    ChannelError,
    UnReliable { received_len: usize, network_address: NetworkAddress },
}

/// The caller-facing receive result: channel, source address, payload length
/// and an error code, zero meaning success.
#[derive(Clone, Copy, PartialEq, Eq, Structural, Debug)]
pub struct TachyonReceiveResult {
    pub channel: u16,
    pub address: NetworkAddress,
    pub length: u32,
    pub error: u32,
}

impl TachyonReceiveResult {
    pub fn default() -> (r: Self)
        ensures
            r == (TachyonReceiveResult {
                channel: 0,
                address: NetworkAddress { a: 0, b: 0, c: 0, d: 0, port: 0 },
                length: 0,
                error: 0,
            }),
    {
        TachyonReceiveResult {
            channel: 0,
            address: NetworkAddress::default(),
            length: 0,
            error: 0,
        }
    }
}

} // verus!
