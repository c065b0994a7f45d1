use vstd::prelude::*;

use crate::int_buffer::{address_at, le16, le32, LengthPrefixed};
use crate::network_address::NetworkAddress;

verus! {

/// Where a pooled send should go: a linked identity when nonzero, else an
/// address.
#[derive(Clone, Copy, PartialEq, Eq, Structural, Debug)]
pub struct SendTarget {
    pub identity_id: u32,
    pub address: NetworkAddress,
}

impl Default for SendTarget {
    fn default() -> (r: Self)
        ensures
            r == (SendTarget {
                identity_id: 0,
                address: NetworkAddress { a: 0, b: 0, c: 0, d: 0, port: 0 },
            }),
    {
        SendTarget { identity_id: 0, address: NetworkAddress::default() }
    }
}

/// A pooled endpoint's bound address and id.
#[derive(Clone, Copy, PartialEq, Eq, Structural, Debug)]
pub struct PoolServerRef {
    pub address: NetworkAddress,
    pub id: u16,
}

impl Default for PoolServerRef {
    fn default() -> (r: Self)
        ensures
            r == (PoolServerRef {
                address: NetworkAddress { a: 0, b: 0, c: 0, d: 0, port: 0 },
                id: 0,
            }),
    {
        PoolServerRef { address: NetworkAddress::default(), id: 0 }
    }
}

/// How much one drained out-buffer held.
#[derive(Clone, Copy, PartialEq, Eq, Structural, Debug)]
pub struct OutBufferCounts {
    pub bytes_written: u32,
    pub count: u32,
}

impl Default for OutBufferCounts {
    fn default() -> (r: Self)
        ensures
            r == (OutBufferCounts { bytes_written: 0, count: 0 }),
    {
        OutBufferCounts { bytes_written: 0, count: 0 }
    }
}

/// One endpoint's staging area for delivered messages: a length-prefixed
/// concatenation of payloads with their channel and source address.
pub struct OutBuffer {
    pub data: Vec<u8>,
    pub bytes_written: u32,
    pub count: u32,
}

impl OutBuffer {
    pub open spec fn wf(self) -> bool {
        self.bytes_written <= self.data@.len()
    }

    pub fn create(capacity: usize) -> (r: Self)
        ensures
            r.wf(),
            r.data@.len() == capacity,
            r.bytes_written == 0,
            r.count == 0,
    {
        OutBuffer { data: vec![0u8; capacity], bytes_written: 0, count: 0 }
    }

    /// Stages one delivered message behind the ones already written, when it
    /// fits; reports whether it was taken.
    pub fn append(&mut self, channel: u16, address: NetworkAddress, payload: &Vec<u8>,
        length: usize) -> (r: bool)
        requires
            old(self).wf(),
            length <= payload.len(),
        ensures
            final(self).wf(),
            final(self).data@.len() == old(self).data@.len(),
            r == (old(self).bytes_written + 18 + length <= old(self).data@.len() && old(
                self,
            ).bytes_written + 18 + length <= 0xffff_ffff && old(self).count < 0xffff_ffff),
            !r ==> *final(self) == *old(self),
            r ==> ({
                let base = old(self).bytes_written as int;
                &&& final(self).bytes_written == old(self).bytes_written + 18 + length
                &&& final(self).count == old(self).count + 1
                &&& le32(final(self).data@[base], final(self).data@[base + 1],
                    final(self).data@[base + 2], final(self).data@[base + 3]) == length
                &&& le16(final(self).data@[base + 4], final(self).data@[base + 5]) == channel
                &&& address_at(final(self).data@, base + 6) == address
                &&& final(self).data@.subrange(base + 18, base + 18 + length) == payload@.take(
                    length as int,
                )
                &&& forall|i: int|
                    0 <= i < base ==> final(self).data@[i] == old(self).data@[i]
            }),
    {
        if length as u64 > 0xffff_ffffu64 {
            return false;
        }
        let total: u64 = self.bytes_written as u64 + 18u64 + length as u64;
        if !(total <= self.data.len() as u64 && total <= 0xffff_ffffu64 && self.count
            < 0xffff_ffffu32) {
            let fits = false;
            return fits;
        }
        let mut body: Vec<u8> = Vec::new();
        crate::int_buffer::append_bytes(&mut body, payload, 0, length);
        let mut writer = LengthPrefixed::default();
        writer.writer.index = self.bytes_written as usize;
        writer.write(channel, address, &body, &mut self.data);
        self.bytes_written = self.bytes_written + 18 + length as u32;
        self.count = self.count + 1;
        proof {
            assert(final(self).data@.subrange(
                old(self).bytes_written as int + 18,
                old(self).bytes_written as int + 18 + length,
            ) =~= payload@.take(length as int));
        }
        true
    }

    /// Drains the staged bytes into the caller's buffer and resets the
    /// counters, handing back how much was staged; nothing moves when the
    /// caller's buffer is too small.
    pub fn drain_into(&mut self, receive_buffer: &mut Vec<u8>) -> (r: OutBufferCounts)
        requires
            old(self).wf(),
        ensures
            final(self).wf(),
            old(self).bytes_written <= old(receive_buffer).len() ==> ({
                &&& r.bytes_written == old(self).bytes_written
                &&& r.count == old(self).count
                &&& final(self).bytes_written == 0
                &&& final(self).count == 0
                &&& final(self).data@ == old(self).data@
                &&& final(receive_buffer)@.take(r.bytes_written as int) == old(
                    self,
                ).data@.take(r.bytes_written as int)
            }),
            old(self).bytes_written > old(receive_buffer).len() ==> r == (OutBufferCounts {
                bytes_written: 0,
                count: 0,
            }) && *final(self) == *old(self) && final(receive_buffer)@ == old(receive_buffer)@,
    {
        if self.bytes_written as usize > receive_buffer.len() {
            return OutBufferCounts::default();
        }
        let bytes = self.bytes_written as usize;
        crate::int_buffer::copy_bytes(receive_buffer, 0, &self.data, 0, bytes);
        let result = OutBufferCounts { bytes_written: self.bytes_written, count: self.count };
        self.bytes_written = 0;
        self.count = 0;
        proof {
            assert(final(receive_buffer)@.take(result.bytes_written as int) =~= old(
                self,
            ).data@.take(result.bytes_written as int));
        }
        result
    }
}

} // verus!
