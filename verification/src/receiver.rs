use std::collections::VecDeque;

use vstd::prelude::*;

use crate::buffer_pool::{
    spec_pool_get, spec_pool_return, ByteBufView, ByteBuffer, ByteBufferPool, PoolView,
};
use crate::nack::Nack;
use crate::sequence::{seq_greater, seq_less_or_equal, seq_next, seq_next_n, seq_prev, seq_prev_n, Sequence};
use crate::sequence_buffer::SequenceBuffer;

verus! {

/// Ring size of the receive-side occupancy and payload maps.
pub const RECEIVE_BUFFER_SIZE: u16 = 1024;

/// The ring slot that tracks `s`.
pub open spec fn slot_of(s: u16) -> int {
    s as int % 1024
}

/// Mathematical value of a [`Receiver`].
#[verifier::ext_equal]
pub struct RecvView {
    pub is_ordered: bool,
    pub window: nat,
    pub last: u16,
    pub current: u16,
    pub received: Seq<bool>,
    pub buffered: Seq<Option<ByteBufView>>,
    pub published: Seq<ByteBufView>,
    pub skipped: u64,
    pub pool: PoolView,
}

/// The part of the receiver state that the publication walk reads and
/// writes.
#[verifier::ext_equal]
pub struct WalkState {
    pub current: u16,
    pub received: Seq<bool>,
    pub buffered: Seq<Option<ByteBufView>>,
    pub published: Seq<ByteBufView>,
}

/// Whether the window rule forces the current sequence forward: the gap
/// between current and last exceeds the window.
pub open spec fn spec_should_increment(current: u16, last: u16, window: nat) -> bool {
    if current == last {
        false
    } else {
        let start0 = last as int - window;
        let start = if start0 < 0 {
            65535 + start0
        } else {
            start0
        };
        seq_greater(start as u16, current)
    }
}

/// The forced-advance step: one skipped sequence, the vacated slot cleared.
pub open spec fn spec_forced(v: RecvView) -> RecvView {
    if spec_should_increment(v.current, v.last, v.window) {
        RecvView {
            received: v.received.update(slot_of(v.current), false),
            current: seq_next(v.current),
            skipped: v.skipped.wrapping_add(1),
            ..v
        }
    } else {
        v
    }
}

/// One pass of the publication walk, starting at `seq` and ending before
/// `end` or after `fuel` steps: received slots are drained into the
/// published queue; the current sequence follows the drained run while no
/// gap has been seen; on a gap an ordered walk stops and an unordered walk
/// keeps draining without advancing current.
pub open spec fn spec_publish_walk(
    s: WalkState,
    seq: u16,
    end: u16,
    fuel: nat,
    step: bool,
    ordered: bool,
) -> WalkState
    decreases fuel,
{
    if fuel == 0 {
        s
    } else {
        let sl = slot_of(seq);
        if s.received[sl] {
            let s1 = if s.current == seq {
                WalkState { received: s.received.update(sl, false), ..s }
            } else if step && seq_greater(seq, s.current) {
                WalkState { current: seq, received: s.received.update(sl, false), ..s }
            } else {
                s
            };
            let s2 = match s1.buffered[sl] {
                Some(b) => WalkState {
                    buffered: s1.buffered.update(sl, None),
                    published: s1.published.push(b),
                    ..s1
                },
                None => s1,
            };
            let nseq = seq_next(seq);
            if nseq == end {
                s2
            } else {
                spec_publish_walk(s2, nseq, end, (fuel - 1) as nat, step, ordered)
            }
        } else {
            if ordered {
                s
            } else {
                let nseq = seq_next(seq);
                if nseq == end {
                    s
                } else {
                    spec_publish_walk(s, nseq, end, (fuel - 1) as nat, false, ordered)
                }
            }
        }
    }
}

/// A buffer handed out by the pool with the first `length` bytes replaced by
/// the payload.
pub open spec fn spec_store_payload(b: ByteBufView, payload: Seq<u8>, length: nat) -> ByteBufView {
    ByteBufView {
        data: Seq::new(
            b.data.len(),
            |i: int|
                if i < length {
                    payload[i]
                } else {
                    b.data[i]
                },
        ),
        ..b
    }
}

/// The walk state of a receiver view.
pub open spec fn walk_of(v: RecvView) -> WalkState {
    WalkState {
        current: v.current,
        received: v.received,
        buffered: v.buffered,
        published: v.published,
    }
}

/// A view with its walk state replaced.
pub open spec fn with_walk(v: RecvView, w: WalkState) -> RecvView {
    RecvView {
        current: w.current,
        received: w.received,
        buffered: w.buffered,
        published: w.published,
        ..v
    }
}

/// The admission rule: after a possible forced advance, a sequence at or
/// below current is stale; a newer sequence extends last, may advance
/// current when it is the immediate successor, is dropped when its slot is
/// already marked received, and otherwise is buffered, marked, and the
/// publication walk is run.
pub open spec fn spec_receive_packet(v: RecvView, sequence: u16, data: Seq<u8>, length: nat) -> (
    RecvView,
    bool,
) {
    let v1 = spec_forced(v);
    if !seq_greater(sequence, v1.current) {
        (v1, false)
    } else {
        let v2 = RecvView {
            last: if seq_greater(sequence, v1.last) {
                sequence
            } else {
                v1.last
            },
            ..v1
        };
        let v3 = if sequence == seq_next(v2.current) {
            RecvView {
                current: sequence,
                received: v2.received.update(slot_of(v2.current), false),
                ..v2
            }
        } else {
            v2
        };
        if v3.received[slot_of(sequence)] {
            (v3, false)
        } else {
            let (pool1, buf) = spec_pool_get(v3.pool, length);
            let stored = spec_store_payload(buf, data, length);
            let v4 = RecvView {
                received: v3.received.update(slot_of(sequence), true),
                buffered: v3.buffered.update(slot_of(sequence), Some(stored)),
                pool: pool1,
                ..v3
            };
            let w = spec_publish_walk(
                walk_of(v4),
                v4.current,
                seq_next(v4.last),
                v4.window,
                true,
                v4.is_ordered,
            );
            (with_walk(v4, w), true)
        }
    }
}

/// Sliding-window receiver for one direction of one channel: tracks the
/// delivered-up-to and highest-seen sequences, buffers out-of-order
/// payloads, publishes them in order (or in arrival order when unordered),
/// and generates NACK records for the gaps.
pub struct Receiver {
    pub is_ordered: bool,
    pub receive_window_size: u32,
    pub last_sequence: u16,
    pub current_sequence: u16,
    pub buffered: SequenceBuffer<ByteBuffer>,
    pub published: VecDeque<ByteBuffer>,
    pub received: SequenceBuffer<bool>,
    pub resend_list: Vec<u16>,
    pub nack_list: Vec<Nack>,
    pub nack_queue: VecDeque<Nack>,
    pub skipped_sequences: u64,
    pub buffer_pool: ByteBufferPool,
}

impl View for Receiver {
    type V = RecvView;

    open spec fn view(&self) -> RecvView {
        RecvView {
            is_ordered: self.is_ordered,
            window: self.receive_window_size as nat,
            last: self.last_sequence,
            current: self.current_sequence,
            received: Seq::new(1024, |i: int| self.received.values@[i] is Some),
            buffered: Seq::new(
                1024,
                |i: int|
                    match self.buffered.values@[i] {
                        Some(b) => Some(b@),
                        None => None,
                    },
            ),
            published: self.published@.map(|i: int, b: ByteBuffer| b@),
            skipped: self.skipped_sequences,
            pool: self.buffer_pool@,
        }
    }
}

impl Receiver {
    pub open spec fn wf(self) -> bool {
        &&& self.buffered.wf()
        &&& self.buffered.partition_by == RECEIVE_BUFFER_SIZE
        &&& self.received.wf()
        &&& self.received.partition_by == RECEIVE_BUFFER_SIZE
        &&& self.buffer_pool.wf()
        &&& 1 <= self.receive_window_size <= 512
    }

    /// The window size actually adopted: at least one, and at most half the
    /// ring so that live sequences never collide in a slot.
    pub open spec fn spec_clamp_window(w: u32) -> u32 {
        if w == 0 {
            1u32
        } else if w > 512 {
            512u32
        } else {
            w
        }
    }

    pub fn create(is_ordered: bool, receive_window_size: u32) -> (r: Self)
        ensures
            r.wf(),
            r@.is_ordered == is_ordered,
            r@.window == Receiver::spec_clamp_window(receive_window_size),
            r@.last == 0,
            r@.current == 0,
            forall|i: int| 0 <= i < 1024 ==> !r@.received[i],
            forall|i: int| 0 <= i < 1024 ==> r@.buffered[i] is None,
            r@.published.len() == 0,
            r@.skipped == 0,
            r@.pool.free.len() == 0,
            r.resend_list@.len() == 0,
            r.nack_list@.len() == 0,
            r.nack_queue@.len() == 0,
    {
        let window: u32 = if receive_window_size == 0 {
            1
        } else if receive_window_size > 512 {
            512
        } else {
            receive_window_size
        };
        let mut buffered_values: Vec<Option<ByteBuffer>> = Vec::new();
        let mut received_values: Vec<Option<bool>> = Vec::new();
        let mut i: usize = 0;
        while i < RECEIVE_BUFFER_SIZE as usize
            invariant
                i <= 1024,
                buffered_values@.len() == i,
                received_values@.len() == i,
                forall|j: int| 0 <= j < i ==> buffered_values@[j] is None,
                forall|j: int| 0 <= j < i ==> received_values@[j] is None,
            decreases 1024 - i,
        {
            buffered_values.push(None);
            received_values.push(None);
            i = i + 1;
        }
        let receiver = Receiver {
            is_ordered,
            receive_window_size: window,
            last_sequence: 0,
            current_sequence: 0,
            buffered: SequenceBuffer { values: buffered_values, partition_by: RECEIVE_BUFFER_SIZE },
            published: VecDeque::new(),
            received: SequenceBuffer { values: received_values, partition_by: RECEIVE_BUFFER_SIZE },
            resend_list: Vec::new(),
            nack_list: Vec::new(),
            nack_queue: VecDeque::new(),
            skipped_sequences: 0,
            buffer_pool: ByteBufferPool::default(),
        };
        proof {
            assert(receiver@.published =~= Seq::<ByteBufView>::empty());
        }
        receiver
    }

    pub fn default(is_ordered: bool) -> (r: Self)
        ensures
            r.wf(),
            r@.is_ordered == is_ordered,
            r@.window == 512,
            r@.last == 0,
            r@.current == 0,
            forall|i: int| 0 <= i < 1024 ==> !r@.received[i],
            forall|i: int| 0 <= i < 1024 ==> r@.buffered[i] is None,
            r@.published.len() == 0,
            r@.skipped == 0,
            r@.pool.free.len() == 0,
            r.resend_list@.len() == 0,
            r.nack_list@.len() == 0,
            r.nack_queue@.len() == 0,
    {
        Receiver::create(is_ordered, crate::channel::RECEIVE_WINDOW_SIZE_DEFAULT)
    }

    /// Where current would have to sit for last to fit in the default
    /// window.
    pub fn calculate_current_in_window(current: u16, last: u16) -> (r: u16)
        ensures
            r == if spec_should_increment(current, last, 512) {
                ({
                    let start0 = last as int - 512;
                    (if start0 < 0 {
                        65535 + start0
                    } else {
                        start0
                    }) as u16
                })
            } else {
                current
            },
    {
        if current == last {
            return current;
        }
        let mut start: i32 = last as i32 - 512;
        if start < 0 {
            start = 65535 + start;
        }
        if Sequence::is_greater_then(start as u16, current) {
            start as u16
        } else {
            current
        }
    }

    pub fn should_increment_current(current: u16, last: u16, receive_window_size: u32) -> (r: bool)
        requires
            receive_window_size <= 512,
        ensures
            r == spec_should_increment(current, last, receive_window_size as nat),
    {
        if current == last {
            return false;
        }
        let mut start: i32 = last as i32 - receive_window_size as i32;
        if start < 0 {
            start = 65535 + start;
        }
        Sequence::is_greater_then(start as u16, current)
    }

    /// Hands a consumed buffer back to this receiver's pool.
    pub fn return_buffer(&mut self, byte_buffer: ByteBuffer)
        requires
            old(self).wf(),
        ensures
            final(self).wf(),
            final(self)@ == (RecvView {
                pool: spec_pool_return(old(self)@.pool, byte_buffer@).0,
                ..old(self)@
            }),
            final(self).resend_list@ == old(self).resend_list@,
            final(self).nack_list@ == old(self).nack_list@,
            final(self).nack_queue@ == old(self).nack_queue@,
    {
        self.buffer_pool.return_buffer(byte_buffer);
        proof {
            assert(final(self)@ =~= (RecvView {
                pool: spec_pool_return(old(self)@.pool, byte_buffer@).0,
                ..old(self)@
            }));
        }
    }

    /// Takes the oldest published message, if any.
    pub fn take_published(&mut self) -> (r: Option<ByteBuffer>)
        ensures
            old(self)@.published.len() == 0 ==> r is None && final(self)@ == old(self)@,
            old(self)@.published.len() > 0 ==> r is Some && r.unwrap()@ == old(
                self,
            )@.published[0] && final(self)@ == (RecvView {
                published: old(self)@.published.drop_first(),
                ..old(self)@
            }),
            final(self).resend_list@ == old(self).resend_list@,
            final(self).nack_list@ == old(self).nack_list@,
            final(self).nack_queue@ == old(self).nack_queue@,
            final(self).wf() == old(self).wf(),
    {
        let r = self.published.pop_front();
        proof {
            if old(self)@.published.len() == 0 {
                assert(final(self)@ =~= old(self)@);
            } else {
                assert(final(self)@ =~= (RecvView {
                    published: old(self)@.published.drop_first(),
                    ..old(self)@
                }));
            }
        }
        r
    }

    fn is_buffered(&self, sequence: u16) -> (r: bool)
        requires
            self.wf(),
        ensures
            r == self@.buffered[slot_of(sequence)] is Some,
    {
        self.buffered.is_some(sequence)
    }

    pub fn is_received(&self, sequence: u16) -> (r: bool)
        requires
            self.wf(),
        ensures
            r == self@.received[slot_of(sequence)],
    {
        self.received.is_some(sequence)
    }

    pub fn set_received(&mut self, sequence: u16)
        requires
            old(self).wf(),
        ensures
            final(self).wf(),
            final(self)@ == (RecvView {
                received: old(self)@.received.update(slot_of(sequence), true),
                ..old(self)@
            }),
            final(self).resend_list@ == old(self).resend_list@,
            final(self).nack_list@ == old(self).nack_list@,
            final(self).nack_queue@ == old(self).nack_queue@,
    {
        self.received.insert(sequence, true);
        proof {
            assert(final(self)@.received =~= old(self)@.received.update(slot_of(sequence), true));
            assert(final(self)@ =~= (RecvView {
                received: old(self)@.received.update(slot_of(sequence), true),
                ..old(self)@
            }));
        }
    }

    fn set_buffered(&mut self, sequence: u16, data: &Vec<u8>, length: usize)
        requires
            old(self).wf(),
            length <= data.len(),
        ensures
            final(self).wf(),
            final(self)@ == ({
                let (pool1, buf) = spec_pool_get(old(self)@.pool, length as nat);
                RecvView {
                    buffered: old(self)@.buffered.update(
                        slot_of(sequence),
                        Some(spec_store_payload(buf, data@, length as nat)),
                    ),
                    pool: pool1,
                    ..old(self)@
                }
            }),
            final(self).resend_list@ == old(self).resend_list@,
            final(self).nack_list@ == old(self).nack_list@,
            final(self).nack_queue@ == old(self).nack_queue@,
    {
        let mut byte_buffer = self.buffer_pool.get_buffer(length);
        byte_buffer.fill_from(data, length);
        proof {
            let (pool1, buf) = spec_pool_get(old(self)@.pool, length as nat);
            assert(byte_buffer@.data =~= spec_store_payload(buf, data@, length as nat).data);
        }
        self.buffered.insert(sequence, byte_buffer);
        proof {
            let (pool1, buf) = spec_pool_get(old(self)@.pool, length as nat);
            assert(final(self)@.buffered =~= old(self)@.buffered.update(
                slot_of(sequence),
                Some(spec_store_payload(buf, data@, length as nat)),
            ));
            assert(final(self)@ =~= (RecvView {
                buffered: old(self)@.buffered.update(
                    slot_of(sequence),
                    Some(spec_store_payload(buf, data@, length as nat)),
                ),
                pool: pool1,
                ..old(self)@
            }));
        }
    }

    /// Admits one arriving packet under the sliding-window rule and runs the
    /// publication walk; returns whether the packet was accepted.  Stale and
    /// duplicate packets are rejected without touching the published queue.
    pub fn receive_packet(&mut self, sequence: u16, data: &Vec<u8>, length: usize) -> (r: bool)
        requires
            old(self).wf(),
            length <= data.len(),
        ensures
            final(self).wf(),
            final(self)@ == spec_receive_packet(old(self)@, sequence, data@, length as nat).0,
            r == spec_receive_packet(old(self)@, sequence, data@, length as nat).1,
            final(self).resend_list@ == old(self).resend_list@,
            final(self).nack_list@ == old(self).nack_list@,
            final(self).nack_queue@ == old(self).nack_queue@,
    {
        if Receiver::should_increment_current(
            self.current_sequence,
            self.last_sequence,
            self.receive_window_size,
        ) {
            self.received.take(self.current_sequence);
            self.current_sequence = Sequence::next_sequence(self.current_sequence);
            self.skipped_sequences = self.skipped_sequences.wrapping_add(1);
        }
        proof {
            assert(self@.received =~= spec_forced(old(self)@).received);
            assert(self@ =~= spec_forced(old(self)@));
        }
        let ghost v1 = spec_forced(old(self)@);
        if !Sequence::is_greater_then(sequence, self.current_sequence) {
            return false;
        }
        if Sequence::is_greater_then(sequence, self.last_sequence) {
            self.last_sequence = sequence;
        }
        let ghost v2 = RecvView {
            last: if seq_greater(sequence, v1.last) {
                sequence
            } else {
                v1.last
            },
            ..v1
        };
        proof {
            assert(self@ =~= v2);
        }
        let next = Sequence::next_sequence(self.current_sequence);
        if sequence == next {
            let last_sequence = self.current_sequence;
            self.current_sequence = sequence;
            self.received.remove(last_sequence);
        }
        let ghost v3 = if sequence == seq_next(v2.current) {
            RecvView {
                current: sequence,
                received: v2.received.update(slot_of(v2.current), false),
                ..v2
            }
        } else {
            v2
        };
        proof {
            if sequence == seq_next(v2.current) {
                assert(self@.received =~= v3.received);
            }
            assert(self@ =~= v3);
        }
        if self.is_received(sequence) {
            return false;
        }
        self.set_buffered(sequence, data, length);
        self.set_received(sequence);
        let ghost v4 = RecvView {
            received: v3.received.update(slot_of(sequence), true),
            buffered: v3.buffered.update(
                slot_of(sequence),
                Some(
                    spec_store_payload(
                        spec_pool_get(v3.pool, length as nat).1,
                        data@,
                        length as nat,
                    ),
                ),
            ),
            pool: spec_pool_get(v3.pool, length as nat).0,
            ..v3
        };
        proof {
            assert(self@.buffered =~= v4.buffered);
            assert(self@ =~= v4);
        }
        self.publish();
        proof {
            let w = spec_publish_walk(
                walk_of(v4),
                v4.current,
                seq_next(v4.last),
                v4.window,
                true,
                v4.is_ordered,
            );
            assert(self@ =~= with_walk(v4, w));
        }
        true
    }

    /// Runs the publication walk: drains received, buffered slots from
    /// current towards last, advancing current along the drained run.
    pub fn publish(&mut self)
        requires
            old(self).wf(),
        ensures
            final(self).wf(),
            final(self)@ == with_walk(
                old(self)@,
                spec_publish_walk(
                    walk_of(old(self)@),
                    old(self)@.current,
                    seq_next(old(self)@.last),
                    old(self)@.window,
                    true,
                    old(self)@.is_ordered,
                ),
            ),
            final(self).resend_list@ == old(self).resend_list@,
            final(self).nack_list@ == old(self).nack_list@,
            final(self).nack_queue@ == old(self).nack_queue@,
    {
        let ghost target = spec_publish_walk(
            walk_of(old(self)@),
            old(self)@.current,
            seq_next(old(self)@.last),
            old(self)@.window,
            true,
            old(self)@.is_ordered,
        );
        let start = self.current_sequence;
        let end = Sequence::next_sequence(self.last_sequence);
        let mut step_sequence = true;
        let mut seq = start;
        let mut iter: u32 = 0;
        while iter < self.receive_window_size
            invariant_except_break
                target == spec_publish_walk(
                    walk_of(self@),
                    seq,
                    end,
                    (self.receive_window_size - iter) as nat,
                    step_sequence,
                    self.is_ordered,
                ),
            invariant
                iter <= self.receive_window_size,
                self.wf(),
                self.is_ordered == old(self).is_ordered,
                self.receive_window_size == old(self).receive_window_size,
                self.last_sequence == old(self).last_sequence,
                self.skipped_sequences == old(self).skipped_sequences,
                self.buffer_pool == old(self).buffer_pool,
                self.resend_list@ == old(self).resend_list@,
                self.nack_list@ == old(self).nack_list@,
                self.nack_queue@ == old(self).nack_queue@,
            ensures
                self.wf(),
                self.is_ordered == old(self).is_ordered,
                self.receive_window_size == old(self).receive_window_size,
                self.last_sequence == old(self).last_sequence,
                self.skipped_sequences == old(self).skipped_sequences,
                self.buffer_pool == old(self).buffer_pool,
                self.resend_list@ == old(self).resend_list@,
                self.nack_list@ == old(self).nack_list@,
                self.nack_queue@ == old(self).nack_queue@,
                walk_of(self@) == target,
            decreases self.receive_window_size - iter,
        {
            let ghost s0 = walk_of(self@);
            let ghost fuel0 = (self.receive_window_size - iter) as nat;
            if self.is_received(seq) {
                if self.current_sequence == seq {
                    self.received.remove(seq);
                } else if step_sequence && Sequence::is_greater_then(seq, self.current_sequence) {
                    self.current_sequence = seq;
                    self.received.remove(seq);
                }
                proof {
                    let s1 = if s0.current == seq {
                        WalkState { received: s0.received.update(slot_of(seq), false), ..s0 }
                    } else if step_sequence && seq_greater(seq, s0.current) {
                        WalkState {
                            current: seq,
                            received: s0.received.update(slot_of(seq), false),
                            ..s0
                        }
                    } else {
                        s0
                    };
                    assert(walk_of(self@).received =~= s1.received);
                    assert(walk_of(self@) =~= s1);
                }
                if self.is_buffered(seq) {
                    match self.buffered.take(seq) {
                        Some(byte_buffer) => {
                            self.published.push_back(byte_buffer);
                        },
                        None => {},
                    }
                }
                proof {
                    let s1 = if s0.current == seq {
                        WalkState { received: s0.received.update(slot_of(seq), false), ..s0 }
                    } else if step_sequence && seq_greater(seq, s0.current) {
                        WalkState {
                            current: seq,
                            received: s0.received.update(slot_of(seq), false),
                            ..s0
                        }
                    } else {
                        s0
                    };
                    let s2 = match s1.buffered[slot_of(seq)] {
                        Some(b) => WalkState {
                            buffered: s1.buffered.update(slot_of(seq), None),
                            published: s1.published.push(b),
                            ..s1
                        },
                        None => s1,
                    };
                    assert(walk_of(self@).buffered =~= s2.buffered);
                    assert(walk_of(self@).published =~= s2.published);
                    assert(walk_of(self@) =~= s2);
                }
            } else {
                if self.is_ordered {
                    proof {
                        assert(target =~= walk_of(self@));
                    }
                    break ;
                } else {
                    step_sequence = false;
                }
            }
            seq = Sequence::next_sequence(seq);
            iter = iter + 1;
            if seq == end {
                proof {
                    assert(target =~= walk_of(self@));
                }
                break ;
            }
        }
        proof {
            assert(final(self)@ =~= with_walk(old(self)@, target));
        }
    }

    /// Rebuilds the resend list: every missing sequence strictly between
    /// current and last, scanned newest first, at most one window's worth.
    pub fn set_resend_list(&mut self)
        requires
            old(self).wf(),
        ensures
            final(self).wf(),
            final(self)@ == old(self)@,
            final(self).nack_list@ == old(self).nack_list@,
            final(self).nack_queue@ == old(self).nack_queue@,
            final(self).resend_list@ == if old(self)@.current == old(self)@.last {
                Seq::<u16>::empty()
            } else {
                spec_resend_walk(
                    old(self)@.received,
                    seq_prev(old(self)@.last),
                    old(self)@.current,
                    old(self)@.window,
                    Seq::empty(),
                )
            },
    {
        self.resend_list.clear();
        proof {
            assert(self@ =~= old(self)@);
        }
        if self.current_sequence == self.last_sequence {
            return ;
        }
        let ghost target = spec_resend_walk(
            old(self)@.received,
            seq_prev(old(self)@.last),
            old(self)@.current,
            old(self)@.window,
            Seq::empty(),
        );
        let start = Sequence::previous_sequence(self.last_sequence);
        let end = self.current_sequence;
        let mut seq = start;
        let mut iter: u32 = 0;
        while iter < self.receive_window_size
            invariant_except_break
                target == spec_resend_walk(
                    self@.received,
                    seq,
                    end,
                    (self.receive_window_size - iter) as nat,
                    self.resend_list@,
                ),
            invariant
                iter <= self.receive_window_size,
                self.wf(),
                *self == (Receiver { resend_list: self.resend_list, ..*old(self) }),
                end == old(self).current_sequence,
            ensures
                self.wf(),
                *self == (Receiver { resend_list: self.resend_list, ..*old(self) }),
                self.resend_list@ == target,
            decreases self.receive_window_size - iter,
        {
            if !self.is_received(seq) {
                self.resend_list.push(seq);
            }
            seq = Sequence::previous_sequence(seq);
            iter = iter + 1;
            if seq == end {
                break ;
            }
        }
        proof {
            assert(self@ =~= old(self)@);
        }
    }

    /// Scans backward from just below last toward current, emitting one
    /// record per run of up to 33 sequences, capped at a window's worth of
    /// records; fills both the outgoing list and the piggyback queue and
    /// returns how many sequences were nacked.
    pub fn create_nacks(&mut self) -> (r: u32)
        requires
            old(self).wf(),
        ensures
            final(self).wf(),
            final(self)@ == old(self)@,
            final(self).resend_list@ == old(self).resend_list@,
            ({
                let (recs, cnt) = spec_nack_outer(
                    old(self)@.received,
                    old(self)@.current,
                    seq_prev(old(self)@.last),
                    Seq::empty(),
                    0u32,
                    (old(self)@.window / 32) as nat,
                );
                &&& final(self).nack_list@ == recs
                &&& final(self).nack_queue@ == recs
                &&& r == cnt
            }),
    {
        self.nack_list.clear();
        self.nack_queue.clear();
        proof {
            assert(self.nack_queue@ =~= Seq::<Nack>::empty());
        }
        let ghost target = spec_nack_outer(
            old(self)@.received,
            old(self)@.current,
            seq_prev(old(self)@.last),
            Seq::empty(),
            0u32,
            (old(self)@.window / 32) as nat,
        );
        let mut nacked_count: u32 = 0;
        let mut seq = Sequence::previous_sequence(self.last_sequence);
        if Sequence::is_equal_to_or_less_than(seq, self.current_sequence) {
            proof {
                assert(self@ =~= old(self)@);
            }
            return nacked_count;
        }
        let count = self.receive_window_size / 32;
        let mut k: u32 = 0;
        while k < count
            invariant_except_break
                target == spec_nack_outer(
                    self@.received,
                    self@.current,
                    seq,
                    self.nack_list@,
                    nacked_count,
                    (count - k) as nat,
                ),
            invariant
                k <= count,
                count == self.receive_window_size / 32,
                target == spec_nack_outer(
                    old(self)@.received,
                    old(self)@.current,
                    seq_prev(old(self)@.last),
                    Seq::empty(),
                    0u32,
                    (old(self)@.window / 32) as nat,
                ),
                self.wf(),
                *self == (Receiver {
                    nack_list: self.nack_list,
                    nack_queue: self.nack_queue,
                    ..*old(self)
                }),
                self.nack_queue@ == self.nack_list@,
            ensures
                self.wf(),
                *self == (Receiver {
                    nack_list: self.nack_list,
                    nack_queue: self.nack_queue,
                    ..*old(self)
                }),
                self.nack_queue@ == self.nack_list@,
                (self.nack_list@, nacked_count) == target,
            decreases count - k,
        {
            if Sequence::is_equal_to_or_less_than(seq, self.current_sequence) {
                proof {
                    assert((self.nack_list@, nacked_count) == target);
                }
                break ;
            }
            if self.is_received(seq) {
                seq = Sequence::previous_sequence(seq);
                if Sequence::is_equal_to_or_less_than(seq, self.current_sequence) {
                    proof {
                        assert((self.nack_list@, nacked_count) == target);
                    }
                    break ;
                }
                k = k + 1;
                continue ;
            }
            nacked_count = nacked_count.wrapping_add(1);
            let mut record = Nack {
                start_sequence: seq,
                flags: 0,
                nacked_count,
                sent_count: 0,
            };
            let ghost rounds_left = (count - k - 1) as nat;
            let mut i: i32 = 0;
            let mut stopped = false;
            while i < 32
                invariant_except_break
                    ({
                        let (rec1, cnt1, s1, st) = spec_nack_inner(
                            self@.received,
                            self@.current,
                            seq,
                            record,
                            nacked_count,
                            i as int,
                        );
                        target == if st {
                            (self.nack_list@.push(rec1), cnt1)
                        } else {
                            spec_nack_outer(
                                self@.received,
                                self@.current,
                                seq_prev(s1),
                                self.nack_list@.push(rec1),
                                cnt1,
                                rounds_left,
                            )
                        }
                    }),
                    !stopped,
                invariant
                    0 <= i <= 32,
                    self.wf(),
                    *self == (Receiver {
                        nack_list: self.nack_list,
                        nack_queue: self.nack_queue,
                        ..*old(self)
                    }),
                    self.nack_queue@ == self.nack_list@,
                ensures
                    self.wf(),
                    *self == (Receiver {
                        nack_list: self.nack_list,
                        nack_queue: self.nack_queue,
                        ..*old(self)
                    }),
                    self.nack_queue@ == self.nack_list@,
                    stopped ==> target == (self.nack_list@.push(record), nacked_count),
                    !stopped ==> target == spec_nack_outer(
                        self@.received,
                        self@.current,
                        seq_prev(seq),
                        self.nack_list@.push(record),
                        nacked_count,
                        rounds_left,
                    ),
                decreases 32 - i,
            {
                seq = Sequence::previous_sequence(seq);
                if Sequence::is_equal_to_or_less_than(seq, self.current_sequence) {
                    stopped = true;
                    break ;
                }
                if !self.is_received(seq) {
                    record.set_bits(i, true);
                    nacked_count = nacked_count.wrapping_add(1);
                    record.nacked_count = nacked_count;
                }
                i = i + 1;
            }
            self.nack_list.push(record);
            self.nack_queue.push_back(record);
            if stopped {
                proof {
                    assert((self.nack_list@, nacked_count) == target);
                    assert(self@ =~= old(self)@);
                }
                return nacked_count;
            }
            seq = Sequence::previous_sequence(seq);
            k = k + 1;
        }
        proof {
            assert(self@ =~= old(self)@);
        }
        nacked_count
    }
}

/// Backward scan over the window collecting sequences not yet received, in
/// scan order.
pub open spec fn spec_resend_walk(
    received: Seq<bool>,
    seq: u16,
    end: u16,
    fuel: nat,
    acc: Seq<u16>,
) -> Seq<u16>
    decreases fuel,
{
    if fuel == 0 {
        acc
    } else {
        let acc1 = if !received[slot_of(seq)] {
            acc.push(seq)
        } else {
            acc
        };
        let s1 = seq_prev(seq);
        if s1 == end {
            acc1
        } else {
            spec_resend_walk(received, s1, end, (fuel - 1) as nat, acc1)
        }
    }
}

/// One NACK record under construction: from the base at `seq`, the next 32
/// predecessors are inspected; missing ones are flagged.  The scan stops
/// early when it reaches current; the result carries the updated record,
/// the running nacked count, the final cursor and whether the scan stopped.
pub open spec fn spec_nack_inner(
    received: Seq<bool>,
    current: u16,
    seq: u16,
    rec: Nack,
    cnt: u32,
    i: int,
) -> (Nack, u32, u16, bool)
    decreases 32 - i,
{
    if i >= 32 {
        (rec, cnt, seq, false)
    } else {
        let s1 = seq_prev(seq);
        if seq_less_or_equal(s1, current) {
            (rec, cnt, s1, true)
        } else if !received[slot_of(s1)] {
            let cnt1 = cnt.wrapping_add(1);
            let rec1 = Nack { flags: rec.flags | (1u32 << (i as u32)), nacked_count: cnt1, ..rec };
            spec_nack_inner(received, current, s1, rec1, cnt1, i + 1)
        } else {
            spec_nack_inner(received, current, s1, rec, cnt, i + 1)
        }
    }
}

/// The backward NACK scan: skips received sequences, opens a record at each
/// missing one, and stops at current or after `rounds` records' worth of
/// sequence space.
pub open spec fn spec_nack_outer(
    received: Seq<bool>,
    current: u16,
    seq: u16,
    records: Seq<Nack>,
    cnt: u32,
    rounds: nat,
) -> (Seq<Nack>, u32)
    decreases rounds,
{
    if rounds == 0 {
        (records, cnt)
    } else if seq_less_or_equal(seq, current) {
        (records, cnt)
    } else if received[slot_of(seq)] {
        let s1 = seq_prev(seq);
        if seq_less_or_equal(s1, current) {
            (records, cnt)
        } else {
            spec_nack_outer(received, current, s1, records, cnt, (rounds - 1) as nat)
        }
    } else {
        let cnt0 = cnt.wrapping_add(1);
        let rec0 = Nack { start_sequence: seq, flags: 0, nacked_count: cnt0, sent_count: 0 };
        let (rec1, cnt1, s1, stopped) = spec_nack_inner(received, current, seq, rec0, cnt0, 0);
        if stopped {
            (records.push(rec1), cnt1)
        } else {
            spec_nack_outer(
                received,
                current,
                seq_prev(s1),
                records.push(rec1),
                cnt1,
                (rounds - 1) as nat,
            )
        }
    }
}

/// The scan emits at most one record per round.
pub proof fn lemma_nack_outer_len(
    received: Seq<bool>,
    current: u16,
    seq: u16,
    records: Seq<Nack>,
    cnt: u32,
    rounds: nat,
)
    ensures
        spec_nack_outer(received, current, seq, records, cnt, rounds).0.len() <= records.len()
            + rounds,
    decreases rounds,
{
    if rounds > 0 && !seq_less_or_equal(seq, current) {
        if received[slot_of(seq)] {
            let s1 = seq_prev(seq);
            if !seq_less_or_equal(s1, current) {
                lemma_nack_outer_len(received, current, s1, records, cnt, (rounds - 1) as nat);
            }
        } else {
            let cnt0 = cnt.wrapping_add(1);
            let rec0 = Nack { start_sequence: seq, flags: 0, nacked_count: cnt0, sent_count: 0 };
            let (rec1, cnt1, s1, stopped) = spec_nack_inner(received, current, seq, rec0, cnt0, 0);
            if !stopped {
                lemma_nack_outer_len(
                    received,
                    current,
                    seq_prev(s1),
                    records.push(rec1),
                    cnt1,
                    (rounds - 1) as nat,
                );
            }
        }
    }
}

/// The publication pairs of one walk: the sequence at which each publish
/// happened together with the buffer that was moved to the published queue,
/// in publication order.  This mirrors [`spec_publish_walk`] step for step.
pub open spec fn spec_publish_pairs(
    s: WalkState,
    seq: u16,
    end: u16,
    fuel: nat,
    step: bool,
    ordered: bool,
) -> Seq<(u16, ByteBufView)>
    decreases fuel,
{
    if fuel == 0 {
        Seq::empty()
    } else {
        let sl = slot_of(seq);
        if s.received[sl] {
            let s1 = if s.current == seq {
                WalkState { received: s.received.update(sl, false), ..s }
            } else if step && seq_greater(seq, s.current) {
                WalkState { current: seq, received: s.received.update(sl, false), ..s }
            } else {
                s
            };
            let here = match s1.buffered[sl] {
                Some(b) => seq![(seq, b)],
                None => Seq::empty(),
            };
            let s2 = match s1.buffered[sl] {
                Some(b) => WalkState {
                    buffered: s1.buffered.update(sl, None),
                    published: s1.published.push(b),
                    ..s1
                },
                None => s1,
            };
            let nseq = seq_next(seq);
            if nseq == end {
                here
            } else {
                here + spec_publish_pairs(s2, nseq, end, (fuel - 1) as nat, step, ordered)
            }
        } else {
            if ordered {
                Seq::empty()
            } else {
                let nseq = seq_next(seq);
                if nseq == end {
                    Seq::empty()
                } else {
                    spec_publish_pairs(s, nseq, end, (fuel - 1) as nat, false, ordered)
                }
            }
        }
    }
}

/// One publication walk appends exactly its publication pairs' buffers to
/// the published queue, in order.
pub proof fn lemma_publish_walk_publishes_pairs(
    s: WalkState,
    seq: u16,
    end: u16,
    fuel: nat,
    step: bool,
    ordered: bool,
)
    ensures
        spec_publish_walk(s, seq, end, fuel, step, ordered).published == s.published
            + spec_publish_pairs(s, seq, end, fuel, step, ordered).map(
            |i: int, p: (u16, ByteBufView)| p.1,
        ),
    decreases fuel,
{
    let walk = spec_publish_walk(s, seq, end, fuel, step, ordered);
    let pairs = spec_publish_pairs(s, seq, end, fuel, step, ordered);
    let bufs = pairs.map(|i: int, p: (u16, ByteBufView)| p.1);
    if fuel == 0 {
        assert(walk.published =~= s.published + bufs);
    } else {
        let sl = slot_of(seq);
        if s.received[sl] {
            let s1 = if s.current == seq {
                WalkState { received: s.received.update(sl, false), ..s }
            } else if step && seq_greater(seq, s.current) {
                WalkState { current: seq, received: s.received.update(sl, false), ..s }
            } else {
                s
            };
            let here = match s1.buffered[sl] {
                Some(b) => seq![(seq, b)],
                None => Seq::<(u16, ByteBufView)>::empty(),
            };
            let s2 = match s1.buffered[sl] {
                Some(b) => WalkState {
                    buffered: s1.buffered.update(sl, None),
                    published: s1.published.push(b),
                    ..s1
                },
                None => s1,
            };
            let nseq = seq_next(seq);
            if nseq == end {
                assert(walk.published =~= s.published + here.map(
                    |i: int, p: (u16, ByteBufView)| p.1,
                ));
                assert(here.map(|i: int, p: (u16, ByteBufView)| p.1) =~= bufs);
            } else {
                lemma_publish_walk_publishes_pairs(s2, nseq, end, (fuel - 1) as nat, step, ordered);
                let rest = spec_publish_pairs(s2, nseq, end, (fuel - 1) as nat, step, ordered);
                assert(pairs =~= here + rest);
                assert((here + rest).map(|i: int, p: (u16, ByteBufView)| p.1) =~= here.map(
                    |i: int, p: (u16, ByteBufView)| p.1,
                ) + rest.map(|i: int, p: (u16, ByteBufView)| p.1));
                assert(walk.published =~= s.published + bufs);
            }
        } else {
            if ordered {
                assert(walk.published =~= s.published + bufs);
            } else {
                let nseq = seq_next(seq);
                if nseq == end {
                    assert(walk.published =~= s.published + bufs);
                } else {
                    lemma_publish_walk_publishes_pairs(
                        s,
                        nseq,
                        end,
                        (fuel - 1) as nat,
                        false,
                        ordered,
                    );
                    assert(walk.published =~= s.published + bufs);
                }
            }
        }
    }
}

/// The walk positions, counted as steps from a base position, at which one
/// publication walk publishes; mirrors [`spec_publish_pairs`] with the
/// cursor written as `base + j`.
pub open spec fn spec_publish_offsets(
    s: WalkState,
    base: u16,
    j: nat,
    end: u16,
    fuel: nat,
    step: bool,
    ordered: bool,
) -> Seq<nat>
    decreases fuel,
{
    if fuel == 0 {
        Seq::empty()
    } else {
        let seq = seq_next_n(base, j);
        let sl = slot_of(seq);
        if s.received[sl] {
            let s1 = if s.current == seq {
                WalkState { received: s.received.update(sl, false), ..s }
            } else if step && seq_greater(seq, s.current) {
                WalkState { current: seq, received: s.received.update(sl, false), ..s }
            } else {
                s
            };
            let here = match s1.buffered[sl] {
                Some(b) => seq![j],
                None => Seq::<nat>::empty(),
            };
            let s2 = match s1.buffered[sl] {
                Some(b) => WalkState {
                    buffered: s1.buffered.update(sl, None),
                    published: s1.published.push(b),
                    ..s1
                },
                None => s1,
            };
            let nseq = seq_next(seq);
            if nseq == end {
                here
            } else {
                here + spec_publish_offsets(s2, base, j + 1, end, (fuel - 1) as nat, step, ordered)
            }
        } else {
            if ordered {
                Seq::empty()
            } else {
                let nseq = seq_next(seq);
                if nseq == end {
                    Seq::empty()
                } else {
                    spec_publish_offsets(s, base, j + 1, end, (fuel - 1) as nat, false, ordered)
                }
            }
        }
    }
}

/// The publication pairs carry exactly the walk positions of the offsets.
pub proof fn lemma_pairs_are_offsets(
    s: WalkState,
    base: u16,
    j: nat,
    end: u16,
    fuel: nat,
    step: bool,
    ordered: bool,
)
    ensures
        spec_publish_pairs(s, seq_next_n(base, j), end, fuel, step, ordered).map(
            |i: int, p: (u16, ByteBufView)| p.0,
        ) == spec_publish_offsets(s, base, j, end, fuel, step, ordered).map(
            |i: int, o: nat| seq_next_n(base, o),
        ),
    decreases fuel,
{
    let seq = seq_next_n(base, j);
    let pairs = spec_publish_pairs(s, seq, end, fuel, step, ordered);
    let offsets = spec_publish_offsets(s, base, j, end, fuel, step, ordered);
    if fuel == 0 {
        assert(pairs.map(|i: int, p: (u16, ByteBufView)| p.0) =~= offsets.map(
            |i: int, o: nat| seq_next_n(base, o),
        ));
    } else {
        crate::sequence::lemma_next_n_add(base, j, 1);
        assert(seq_next_n(seq, 1) == seq_next(seq_next_n(seq, 0)));
        assert(seq_next_n(seq, 0) == seq);
        let sl = slot_of(seq);
        let nseq = seq_next(seq);
        if s.received[sl] {
            let s1 = if s.current == seq {
                WalkState { received: s.received.update(sl, false), ..s }
            } else if step && seq_greater(seq, s.current) {
                WalkState { current: seq, received: s.received.update(sl, false), ..s }
            } else {
                s
            };
            let s2 = match s1.buffered[sl] {
                Some(b) => WalkState {
                    buffered: s1.buffered.update(sl, None),
                    published: s1.published.push(b),
                    ..s1
                },
                None => s1,
            };
            if nseq != end {
                lemma_pairs_are_offsets(s2, base, j + 1, end, (fuel - 1) as nat, step, ordered);
                let rest_pairs = spec_publish_pairs(s2, nseq, end, (fuel - 1) as nat, step, ordered);
                let rest_offsets = spec_publish_offsets(
                    s2,
                    base,
                    j + 1,
                    end,
                    (fuel - 1) as nat,
                    step,
                    ordered,
                );
                assert(rest_pairs.map(|i: int, p: (u16, ByteBufView)| p.0) == rest_offsets.map(
                    |i: int, o: nat| seq_next_n(base, o),
                ));
                let mp = pairs.map(|i2: int, p: (u16, ByteBufView)| p.0);
                let mo = offsets.map(|i2: int, o: nat| seq_next_n(base, o));
                assert forall|i: int| 0 <= i < pairs.len() implies #[trigger] mp[i] == mo[i] by {
                    let hl: int = pairs.len() - rest_pairs.len();
                    if i >= hl {
                        assert(pairs[i] == rest_pairs[i - hl]);
                        assert(offsets[i] == rest_offsets[i - hl]);
                        assert(rest_pairs.map(|i2: int, p: (u16, ByteBufView)| p.0)[i - hl]
                            == rest_offsets.map(|i2: int, o: nat| seq_next_n(base, o))[i - hl]);
                    }
                }
                assert(mp =~= mo);
            } else {
                assert(pairs.map(|i: int, p: (u16, ByteBufView)| p.0) =~= offsets.map(
                    |i: int, o: nat| seq_next_n(base, o),
                ));
            }
        } else {
            if !ordered && nseq != end {
                lemma_pairs_are_offsets(s, base, j + 1, end, (fuel - 1) as nat, false, ordered);
            }
            assert(pairs.map(|i: int, p: (u16, ByteBufView)| p.0) =~= offsets.map(
                |i: int, o: nat| seq_next_n(base, o),
            ));
        }
    }
}

/// The offsets of one publication walk are strictly increasing and fit in
/// the walk's step budget.
#[verifier::rlimit(60)]
pub proof fn lemma_offsets_increasing(
    s: WalkState,
    base: u16,
    j: nat,
    end: u16,
    fuel: nat,
    step: bool,
    ordered: bool,
)
    ensures
        ({
            let offsets = spec_publish_offsets(s, base, j, end, fuel, step, ordered);
            &&& forall|k: int|
                0 <= k < offsets.len() ==> j <= #[trigger] offsets[k] < j + fuel
            &&& forall|k: int|
                0 <= k < offsets.len() - 1 ==> #[trigger] offsets[k] < offsets[k + 1]
        }),
    decreases fuel,
{
    let offsets = spec_publish_offsets(s, base, j, end, fuel, step, ordered);
    if fuel == 0 {
    } else {
        let seq = seq_next_n(base, j);
        let sl = slot_of(seq);
        let nseq = seq_next(seq);
        if s.received[sl] {
            let s1 = if s.current == seq {
                WalkState { received: s.received.update(sl, false), ..s }
            } else if step && seq_greater(seq, s.current) {
                WalkState { current: seq, received: s.received.update(sl, false), ..s }
            } else {
                s
            };
            let s2 = match s1.buffered[sl] {
                Some(b) => WalkState {
                    buffered: s1.buffered.update(sl, None),
                    published: s1.published.push(b),
                    ..s1
                },
                None => s1,
            };
            if nseq != end {
                lemma_offsets_increasing(s2, base, j + 1, end, (fuel - 1) as nat, step, ordered);
                let rest = spec_publish_offsets(s2, base, j + 1, end, (fuel - 1) as nat, step, ordered);
                let hl: int = offsets.len() - rest.len();
                assert forall|k: int| 0 <= k < offsets.len() implies j <= #[trigger] offsets[k] < j
                    + fuel by {
                    if k >= hl {
                        assert(offsets[k] == rest[k - hl]);
                    }
                }
                assert forall|k: int| 0 <= k < offsets.len() - 1 implies #[trigger] offsets[k]
                    < offsets[k + 1] by {
                    if k + 1 >= hl && k >= hl {
                        assert(offsets[k] == rest[k - hl]);
                        assert(offsets[k + 1] == rest[k + 1 - hl]);
                    } else if k + 1 == hl {
                        assert(offsets[k] == j);
                        assert(offsets[k + 1] == rest[0]);
                    }
                }
            }
        } else {
            if !ordered && nseq != end {
                lemma_offsets_increasing(s, base, j + 1, end, (fuel - 1) as nat, false, ordered);
                let rest = spec_publish_offsets(s, base, j + 1, end, (fuel - 1) as nat, false, ordered);
                assert forall|k: int| 0 <= k < offsets.len() implies j <= #[trigger] offsets[k] < j
                    + fuel by {
                    assert(offsets[k] == rest[k]);
                }
                assert forall|k: int| 0 <= k < offsets.len() - 1 implies #[trigger] offsets[k]
                    < offsets[k + 1] by {
                    assert(offsets[k] == rest[k]);
                    assert(offsets[k + 1] == rest[k + 1]);
                }
            }
        }
    }
}

/// In-order delivery: the sequences at which one publication walk publishes
/// are strictly increasing under the half-range rule, so an ordered
/// channel's published queue grows in ascending sequence order within each
/// pass.
pub proof fn lemma_publish_pairs_ascending(
    s: WalkState,
    base: u16,
    end: u16,
    fuel: nat,
    step: bool,
    ordered: bool,
)
    requires
        base <= 65534,
        fuel <= 512,
    ensures
        ({
            let pairs = spec_publish_pairs(s, base, end, fuel, step, ordered);
            forall|k: int|
                0 <= k < pairs.len() - 1 ==> seq_greater((#[trigger] pairs[k + 1]).0, pairs[k].0)
        }),
{
    assert(seq_next_n(base, 0) == base);
    lemma_pairs_are_offsets(s, base, 0, end, fuel, step, ordered);
    lemma_offsets_increasing(s, base, 0, end, fuel, step, ordered);
    let pairs = spec_publish_pairs(s, base, end, fuel, step, ordered);
    let offsets = spec_publish_offsets(s, base, 0, end, fuel, step, ordered);
    assert(pairs.map(|i: int, p: (u16, ByteBufView)| p.0).len() == offsets.map(
        |i: int, o: nat| seq_next_n(base, o),
    ).len());
    assert forall|k: int| 0 <= k < pairs.len() - 1 implies seq_greater(
        (#[trigger] pairs[k + 1]).0,
        pairs[k].0,
    ) by {
        let o1 = offsets[k];
        let o2 = offsets[k + 1];
        assert(pairs.map(|i: int, p: (u16, ByteBufView)| p.0)[k] == pairs[k].0);
        assert(pairs.map(|i: int, p: (u16, ByteBufView)| p.0)[k + 1] == pairs[k + 1].0);
        assert(pairs[k].0 == seq_next_n(base, o1));
        assert(pairs[k + 1].0 == seq_next_n(base, o2));
        assert(o1 < o2 < fuel);
        crate::sequence::lemma_next_n_add(base, o1, (o2 - o1) as nat);
        crate::sequence::lemma_next_n_stays_low(base, o1);
        crate::sequence::lemma_next_n_greater(seq_next_n(base, o1), (o2 - o1) as nat);
    }
}

/// No duplicate delivery: a packet the admission rule rejects, stale or
/// already received, leaves the published queue untouched.
pub proof fn lemma_rejected_packet_publishes_nothing(
    v: RecvView,
    sequence: u16,
    data: Seq<u8>,
    length: nat,
)
    ensures
        !spec_receive_packet(v, sequence, data, length).1 ==> spec_receive_packet(
            v,
            sequence,
            data,
            length,
        ).0.published == v.published,
{
}

/// No duplicate delivery: a sequence whose slot is already marked received,
/// and which is not the immediate successor that the window just cleared,
/// is rejected outright.
pub proof fn lemma_duplicate_dropped(v: RecvView, sequence: u16, data: Seq<u8>, length: nat)
    requires
        seq_greater(sequence, spec_forced(v).current),
        sequence != seq_next(spec_forced(v).current),
        spec_forced(v).received[slot_of(sequence)],
    ensures
        !spec_receive_packet(v, sequence, data, length).1,
        spec_receive_packet(v, sequence, data, length).0.published == v.published,
{
}

/// Window progress: whenever the gap between current and last exceeds the
/// window, one admission advances current by one step and counts one
/// skipped sequence, whatever else the packet does.
pub proof fn lemma_window_forced_advance(v: RecvView, sequence: u16, data: Seq<u8>, length: nat)
    requires
        spec_should_increment(v.current, v.last, v.window),
    ensures
        spec_forced(v).current == seq_next(v.current),
        spec_receive_packet(v, sequence, data, length).0.skipped == v.skipped.wrapping_add(1),
{
}

/// All of the positions `lo ..= hi` steps below `start` lie strictly above
/// `current`.
pub open spec fn scan_above(start: u16, current: u16, lo: int, hi: int) -> bool {
    forall|p: int|
        lo <= p <= hi ==> !seq_less_or_equal(#[trigger] seq_prev_n(start, p as nat), current)
}

/// One bit of a bitwise-or with a single mask bit.
proof fn lemma_or_bit(f: u32, i: u32, b: u32)
    requires
        i < 32,
        b < 32,
    ensures
        crate::nack::nack_bit(f | (1u32 << i), b as int) == (b == i || crate::nack::nack_bit(
            f,
            b as int,
        )),
{
    assert(i < 32 && b < 32 ==> ((f | (1u32 << i)) >> b & 1 == 1) == (b == i || f >> b & 1 == 1))
        by (bit_vector);
}

/// What one record's scan flags: starting at bit `i` with all higher bits
/// clear, the finished record has bit `b` set exactly when the scan reached
/// the `(b + 1)`-fold predecessor of the base without hitting current, and
/// that predecessor's slot was not received.
pub proof fn lemma_nack_inner_bitmap(
    received: Seq<bool>,
    current: u16,
    seq: u16,
    rec: Nack,
    cnt: u32,
    i: int,
)
    requires
        0 <= i <= 32,
        seq == seq_prev_n(rec.start_sequence, i as nat),
        forall|b: int| i <= b < 32 ==> !crate::nack::nack_bit(rec.flags, b),
    ensures
        ({
            let (rec1, cnt1, s1, stopped) = spec_nack_inner(received, current, seq, rec, cnt, i);
            &&& rec1.start_sequence == rec.start_sequence
            &&& forall|b: int|
                0 <= b < i ==> #[trigger] crate::nack::nack_bit(rec1.flags, b)
                    == crate::nack::nack_bit(rec.flags, b)
            &&& forall|b: int|
                i <= b < 32 ==> #[trigger] crate::nack::nack_bit(rec1.flags, b) == (scan_above(
                    rec.start_sequence,
                    current,
                    i + 1,
                    b + 1,
                ) && !received[slot_of(seq_prev_n(rec.start_sequence, (b + 1) as nat))])
        }),
    decreases 32 - i,
{
    let start = rec.start_sequence;
    let (rec1, cnt1, s1f, stopped) = spec_nack_inner(received, current, seq, rec, cnt, i);
    if i >= 32 {
    } else {
        let s1 = seq_prev(seq);
        assert(seq_prev_n(start, (i + 1) as nat) == seq_prev(seq_prev_n(start, i as nat)));
        assert(s1 == seq_prev_n(start, (i + 1) as nat));
        if seq_less_or_equal(s1, current) {
            assert forall|b: int| i <= b < 32 implies #[trigger] crate::nack::nack_bit(
                rec1.flags,
                b,
            ) == (scan_above(start, current, i + 1, b + 1) && !received[slot_of(
                seq_prev_n(start, (b + 1) as nat),
            )]) by {
                assert(!scan_above(start, current, i + 1, b + 1));
            }
        } else if !received[slot_of(s1)] {
            let cntn = cnt.wrapping_add(1);
            let recn = Nack {
                flags: rec.flags | (1u32 << (i as u32)),
                nacked_count: cntn,
                ..rec
            };
            assert forall|b: int| i + 1 <= b < 32 implies !crate::nack::nack_bit(
                recn.flags,
                b,
            ) by {
                lemma_or_bit(rec.flags, i as u32, b as u32);
            }
            lemma_nack_inner_bitmap(received, current, s1, recn, cntn, i + 1);
            let (rec2, cnt2, s2, st2) = spec_nack_inner(received, current, s1, recn, cntn, i + 1);
            assert(rec1 == rec2);
            assert forall|b: int| 0 <= b < i implies #[trigger] crate::nack::nack_bit(
                rec1.flags,
                b,
            ) == crate::nack::nack_bit(rec.flags, b) by {
                lemma_or_bit(rec.flags, i as u32, b as u32);
            }
            assert forall|b: int| i <= b < 32 implies #[trigger] crate::nack::nack_bit(
                rec1.flags,
                b,
            ) == (scan_above(start, current, i + 1, b + 1) && !received[slot_of(
                seq_prev_n(start, (b + 1) as nat),
            )]) by {
                if b == i {
                    lemma_or_bit(rec.flags, i as u32, b as u32);
                    assert(crate::nack::nack_bit(rec1.flags, i));
                    assert(scan_above(start, current, i + 1, i + 1));
                } else {
                    assert(crate::nack::nack_bit(rec1.flags, b) == (scan_above(
                        start,
                        current,
                        i + 2,
                        b + 1,
                    ) && !received[slot_of(seq_prev_n(start, (b + 1) as nat))]));
                    assert(scan_above(start, current, i + 1, b + 1) == (scan_above(
                        start,
                        current,
                        i + 2,
                        b + 1,
                    ) && !seq_less_or_equal(seq_prev_n(start, (i + 1) as nat), current)));
                }
            }
        } else {
            lemma_nack_inner_bitmap(received, current, s1, rec, cnt, i + 1);
            assert forall|b: int| i <= b < 32 implies #[trigger] crate::nack::nack_bit(
                rec1.flags,
                b,
            ) == (scan_above(start, current, i + 1, b + 1) && !received[slot_of(
                seq_prev_n(start, (b + 1) as nat),
            )]) by {
                if b == i {
                    assert(crate::nack::nack_bit(rec1.flags, i) == crate::nack::nack_bit(
                        rec.flags,
                        i,
                    ));
                    assert(!crate::nack::nack_bit(rec.flags, i));
                    assert(received[slot_of(seq_prev_n(start, (i + 1) as nat))]);
                } else {
                    assert(crate::nack::nack_bit(rec1.flags, b) == (scan_above(
                        start,
                        current,
                        i + 2,
                        b + 1,
                    ) && !received[slot_of(seq_prev_n(start, (b + 1) as nat))]));
                    assert(scan_above(start, current, i + 1, b + 1) == (scan_above(
                        start,
                        current,
                        i + 2,
                        b + 1,
                    ) && !seq_less_or_equal(seq_prev_n(start, (i + 1) as nat), current)));
                }
            }
        }
    }
}

/// NACK coverage, per record: a record opened at a missing base sequence
/// flags bit `b` exactly when the `(b + 1)`-fold predecessor of the base is
/// still above current on the whole path down to it and its slot is not
/// received.  With [`crate::nack::nack_expansion`], the record therefore
/// stands for the base and precisely the missing sequences in its 32-wide
/// span, stopping at current.
pub proof fn lemma_nack_record_bitmap(received: Seq<bool>, current: u16, base: u16, cnt: u32)
    ensures
        ({
            let rec0 = Nack { start_sequence: base, flags: 0, nacked_count: cnt, sent_count: 0 };
            let (rec1, cnt1, s1, stopped) = spec_nack_inner(received, current, base, rec0, cnt, 0);
            &&& rec1.start_sequence == base
            &&& forall|b: int|
                0 <= b < 32 ==> #[trigger] crate::nack::nack_bit(rec1.flags, b) == (scan_above(
                    base,
                    current,
                    1,
                    b + 1,
                ) && !received[slot_of(seq_prev_n(base, (b + 1) as nat))])
        }),
{
    let rec0 = Nack { start_sequence: base, flags: 0, nacked_count: cnt, sent_count: 0 };
    assert(seq_prev_n(base, 0) == base);
    assert forall|b: int| 0 <= b < 32 implies !crate::nack::nack_bit(rec0.flags, b) by {
        let bu = b as u32;
        assert(0u32 >> bu & 1 == 0) by (bit_vector);
    }
    lemma_nack_inner_bitmap(received, current, base, rec0, cnt, 0);
}

/// NACK soundness, at the record level: every sequence a produced record
/// stands for, other than its base, had not been received when the record
/// was built.
pub proof fn lemma_nack_record_sound(
    received: Seq<bool>,
    current: u16,
    base: u16,
    cnt: u32,
    s: u16,
)
    requires
        ({
            let rec0 = Nack { start_sequence: base, flags: 0, nacked_count: cnt, sent_count: 0 };
            let rec1 = spec_nack_inner(received, current, base, rec0, cnt, 0).0;
            crate::nack::nack_covers(rec1, s) && s != base
        }),
    ensures
        !received[slot_of(s)],
{
    lemma_nack_record_bitmap(received, current, base, cnt);
    let rec0 = Nack { start_sequence: base, flags: 0, nacked_count: cnt, sent_count: 0 };
    let rec1 = spec_nack_inner(received, current, base, rec0, cnt, 0).0;
    let i = choose|i: int|
        0 <= i < 32 && crate::nack::nack_bit(rec1.flags, i) && s == seq_prev_n(
            rec1.start_sequence,
            (i + 1) as nat,
        );
    assert(crate::nack::nack_bit(rec1.flags, i));
}

} // verus!
