use vstd::prelude::*;

use crate::buffer_pool::{ByteBuffer, ByteBufferPool, BYTE_BUFFER_SIZE_DEFAULT};
use crate::sequence::{seq_next, Sequence};
use crate::sequence_buffer::SequenceBuffer;

verus! {

pub const SEND_BUFFER_SIZE: u16 = 1024;

/// Milliseconds an unclaimed send buffer lives before an expiry sweep may
/// reclaim it.
pub const SEND_BUFFER_EXPIRE_MS: u64 = 5000;

/// An outgoing payload retained for retransmission, keyed by its assigned
/// sequence.  `created_at` is a caller-supplied clock reading in
/// milliseconds.
pub struct SendBuffer {
    pub sequence: u16,
    pub byte_buffer: ByteBuffer,
    pub created_at: u64,
}

/// Ring of the most recent outgoing payloads, one slot per sequence modulo
/// the ring size, with a pool for their backing buffers.
pub struct SendBufferManager {
    pub current_sequence: u16,
    pub buffers: SequenceBuffer<SendBuffer>,
    pub buffer_pool: ByteBufferPool,
}

impl SendBufferManager {
    pub open spec fn wf(self) -> bool {
        &&& self.current_sequence <= 65534
        &&& self.buffers.wf()
        &&& self.buffers.partition_by == SEND_BUFFER_SIZE
        &&& self.buffer_pool.wf()
        &&& forall|i: int|
            0 <= i < self.buffers.values@.len() && self.buffers.values@[i] is Some
                ==> (#[trigger] self.buffers.values@[i]).unwrap().byte_buffer@.wf()
    }

    pub fn default() -> (r: Self)
        ensures
            r.wf(),
            r.current_sequence == 0,
            forall|i: int| 0 <= i < SEND_BUFFER_SIZE ==> r.buffers.values@[i] is None,
            r.buffer_pool@.buffer_size == BYTE_BUFFER_SIZE_DEFAULT,
            r.buffer_pool@.pool_size == SEND_BUFFER_SIZE,
            r.buffer_pool@.free.len() == 0,
    {
        let mut values: Vec<Option<SendBuffer>> = Vec::new();
        let mut i: usize = 0;
        while i < SEND_BUFFER_SIZE as usize
            invariant
                i <= SEND_BUFFER_SIZE,
                values@.len() == i,
                forall|j: int| 0 <= j < i ==> values@[j] is None,
            decreases SEND_BUFFER_SIZE as usize - i,
        {
            values.push(None);
            i = i + 1;
        }
        let buffers: SequenceBuffer<SendBuffer> = SequenceBuffer {
            values,
            partition_by: SEND_BUFFER_SIZE,
        };
        SendBufferManager {
            current_sequence: 0,
            buffers,
            buffer_pool: ByteBufferPool::create(
                BYTE_BUFFER_SIZE_DEFAULT,
                SEND_BUFFER_SIZE as usize,
            ),
        }
    }

    pub fn get_send_buffer(&mut self, sequence: u16) -> (r: Option<&mut SendBuffer>)
        requires
            old(self).wf(),
        ensures
            final(self).current_sequence == old(self).current_sequence,
            final(self).buffer_pool == old(self).buffer_pool,
            final(self).buffers.partition_by == old(self).buffers.partition_by,
            r is None ==> old(self).buffers.values@[old(self).buffers.slot(sequence)] is None
                && final(self).buffers.values@ == old(self).buffers.values@.update(
                old(self).buffers.slot(sequence),
                None::<SendBuffer>,
            ),
            r is Some ==> old(self).buffers.values@[old(self).buffers.slot(sequence)] == Some(
                *r.unwrap(),
            ) && final(self).buffers.values@ == old(self).buffers.values@.update(
                old(self).buffers.slot(sequence),
                Some(*final(r.unwrap())),
            ),
    {
        self.buffers.get_mut(sequence)
    }

    /// Drops every stored buffer older than the expiry age at the given
    /// clock reading.
    pub fn expire(&mut self, now_ms: u64)
        requires
            old(self).wf(),
        ensures
            final(self).wf(),
            final(self).current_sequence == old(self).current_sequence,
            final(self).buffer_pool == old(self).buffer_pool,
            final(self).buffers.partition_by == old(self).buffers.partition_by,
            final(self).buffers.values@.len() == old(self).buffers.values@.len(),
            forall|i: int|
                0 <= i < old(self).buffers.values@.len() ==> final(self).buffers.values@[i] == (
                match old(self).buffers.values@[i] {
                    Some(b) => if now_ms as int - b.created_at as int > SEND_BUFFER_EXPIRE_MS as int {
                        None
                    } else {
                        Some(b)
                    },
                    None => None::<SendBuffer>,
                }),
    {
        let mut i: usize = 0;
        while i < self.buffers.values.len()
            invariant
                old(self).wf(),
                self.current_sequence == old(self).current_sequence,
                self.buffer_pool == old(self).buffer_pool,
                self.buffers.partition_by == old(self).buffers.partition_by,
                self.buffers.values@.len() == old(self).buffers.values@.len(),
                i <= self.buffers.values@.len(),
                forall|j: int|
                    i <= j < old(self).buffers.values@.len() ==> self.buffers.values@[j] == old(
                        self,
                    ).buffers.values@[j],
                forall|j: int|
                    0 <= j < i ==> self.buffers.values@[j] == (match old(self).buffers.values@[j] {
                        Some(b) => if now_ms as int - b.created_at as int
                            > SEND_BUFFER_EXPIRE_MS as int {
                            None
                        } else {
                            Some(b)
                        },
                        None => None::<SendBuffer>,
                    }),
            decreases self.buffers.values@.len() - i,
        {
            let expired = match self.buffers.get_at_index(i) {
                Some(buffer) => now_ms > buffer.created_at && now_ms - buffer.created_at
                    > SEND_BUFFER_EXPIRE_MS,
                None => false,
            };
            if expired {
                self.buffers.remove_at_index(i);
            }
            i = i + 1;
        }
    }

    /// Assigns the next sequence and stores a freshly allocated, unpooled
    /// buffer in its ring slot; returns the assigned sequence.
    pub fn create_send_buffer_old(&mut self, length: usize, now_ms: u64) -> (r: Option<u16>)
        requires
            old(self).wf(),
        ensures
            final(self).wf(),
            r is Some,
            r.unwrap() == seq_next(old(self).current_sequence),
            final(self).current_sequence == seq_next(old(self).current_sequence),
            final(self).buffers.partition_by == old(self).buffers.partition_by,
            final(self).buffer_pool == old(self).buffer_pool,
            ({
                let slot = old(self).buffers.slot(seq_next(old(self).current_sequence));
                let stored = final(self).buffers.values@[slot];
                &&& stored is Some
                &&& stored.unwrap().sequence == seq_next(old(self).current_sequence)
                &&& stored.unwrap().created_at == now_ms
                &&& stored.unwrap().byte_buffer@.length == length
                &&& stored.unwrap().byte_buffer@.wf()
                &&& forall|i: int|
                    0 <= i < old(self).buffers.values@.len() && i != slot
                        ==> final(self).buffers.values@[i] == old(self).buffers.values@[i]
            }),
    {
        self.current_sequence = Sequence::next_sequence(self.current_sequence);
        let sequence = self.current_sequence;
        let byte_buffer = ByteBuffer::create(length);
        let buffer = SendBuffer { sequence, byte_buffer, created_at: now_ms };
        self.buffers.insert(sequence, buffer);
        Some(sequence)
    }

    /// Assigns the next sequence and stores a buffer of semantic length
    /// `length` in its ring slot, reusing a pooled buffer already there when
    /// it is large enough; returns the assigned sequence.
    pub fn create_send_buffer(&mut self, length: usize, now_ms: u64) -> (r: Option<u16>)
        requires
            old(self).wf(),
        ensures
            final(self).wf(),
            r is Some,
            r.unwrap() == seq_next(old(self).current_sequence),
            final(self).current_sequence == seq_next(old(self).current_sequence),
            final(self).buffers.partition_by == old(self).buffers.partition_by,
            final(self).buffer_pool@.buffer_size == old(self).buffer_pool@.buffer_size,
            final(self).buffer_pool@.pool_size == old(self).buffer_pool@.pool_size,
            ({
                let slot = old(self).buffers.slot(seq_next(old(self).current_sequence));
                let stored = final(self).buffers.values@[slot];
                &&& stored is Some
                &&& stored.unwrap().sequence == seq_next(old(self).current_sequence)
                &&& stored.unwrap().created_at == now_ms
                &&& stored.unwrap().byte_buffer@.length == length
                &&& stored.unwrap().byte_buffer@.wf()
                &&& forall|i: int|
                    0 <= i < old(self).buffers.values@.len() && i != slot
                        ==> final(self).buffers.values@[i] == old(self).buffers.values@[i]
            }),
            // the reuse rule: a pooled occupant that fits is kept in place
            // with its version, only its length adjusted and its storage
            // grown if needed; anything else goes back to the pool and a
            // pool buffer replaces it; an empty slot draws from the pool
            ({
                let slot = old(self).buffers.slot(seq_next(old(self).current_sequence));
                let stored = final(self).buffers.values@[slot].unwrap();
                match old(self).buffers.values@[slot] {
                    Some(sb) => {
                        if sb.byte_buffer@.pooled && length <= old(self).buffer_pool@.buffer_size {
                            &&& stored.byte_buffer@.pooled
                            &&& stored.byte_buffer@.version == sb.byte_buffer@.version
                            &&& final(self).buffer_pool@ == old(self).buffer_pool@
                        } else {
                            let pool1 = crate::buffer_pool::spec_pool_return(
                                old(self).buffer_pool@,
                                sb.byte_buffer@,
                            ).0;
                            &&& stored.byte_buffer@ == crate::buffer_pool::spec_pool_get(
                                pool1,
                                length as nat,
                            ).1
                            &&& final(self).buffer_pool@ == crate::buffer_pool::spec_pool_get(
                                pool1,
                                length as nat,
                            ).0
                        }
                    },
                    None => {
                        &&& stored.byte_buffer@ == crate::buffer_pool::spec_pool_get(
                            old(self).buffer_pool@,
                            length as nat,
                        ).1
                        &&& final(self).buffer_pool@ == crate::buffer_pool::spec_pool_get(
                            old(self).buffer_pool@,
                            length as nat,
                        ).0
                    },
                }
            }),
    {
        self.current_sequence = Sequence::next_sequence(self.current_sequence);
        let sequence = self.current_sequence;
        let taken = self.buffers.take(sequence);
        match taken {
            Some(mut send_buffer) => {
                if send_buffer.byte_buffer.pooled && length <= self.buffer_pool.buffer_size {
                    if send_buffer.byte_buffer.data.len() < length {
                        send_buffer.byte_buffer.data.resize(length, 0u8);
                    }
                    send_buffer.byte_buffer.length = length;
                } else {
                    self.buffer_pool.return_buffer(send_buffer.byte_buffer);
                    send_buffer.byte_buffer = self.buffer_pool.get_buffer(length);
                }
                send_buffer.sequence = sequence;
                send_buffer.created_at = now_ms;
                self.buffers.insert(sequence, send_buffer);
            },
            None => {
                let byte_buffer = self.buffer_pool.get_buffer(length);
                let send_buffer = SendBuffer { sequence, byte_buffer, created_at: now_ms };
                self.buffers.insert(sequence, send_buffer);
            },
        }
        Some(sequence)
    }
}

} // verus!
