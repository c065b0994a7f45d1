use std::collections::HashMap;

use vstd::prelude::*;

use crate::header::{fragmented_header_at, spec_header_default, Header, MESSAGE_TYPE_FRAGMENT, TACHYON_FRAGMENTED_HEADER_SIZE};
use crate::send_buffer_manager::SendBufferManager;
use crate::sequence::{seq_next, seq_next_n, Sequence};

verus! {

/// Milliseconds a fragment group lives without completing before an expiry
/// sweep may drop it.
pub const GROUP_EXPIRE_MS: u64 = 5000;

/// Payload bytes per fragment; payloads at or above this size are split.
pub const FRAG_SIZE: usize = 1200;

/// Splits oversized payloads into numbered fragments and reassembles
/// arriving fragments by group.  Groups are keyed by a rotating nonzero
/// group id; arrival times are kept for expiry.
pub struct Fragmentation {
    pub next_group: u16,
    pub received: HashMap<u16, HashMap<u16, Vec<u8>>>,
    pub received_at: Vec<(u16, u64)>,
}

/// The byte sequences stored for one group, keyed by fragment sequence.
pub open spec fn spec_group(m: Map<u16, HashMap<u16, Vec<u8>>>, g: u16) -> Map<u16, Seq<u8>> {
    m[g]@.map_values(|v: Vec<u8>| v@)
}

/// The reassembled body: the stored fragments for `count` consecutive
/// sequences from `start`, each with its fragment header stripped,
/// concatenated in sequence order; nothing when one is missing.
pub open spec fn spec_assembled(m: Map<u16, Seq<u8>>, start: u16, count: nat) -> Option<Seq<u8>>
    decreases count,
{
    if count == 0 {
        Some(Seq::empty())
    } else if !m.contains_key(start) {
        None
    } else {
        match spec_assembled(m, seq_next(start), (count - 1) as nat) {
            None => None,
            Some(rest) => Some(m[start].skip(TACHYON_FRAGMENTED_HEADER_SIZE as int) + rest),
        }
    }
}

/// The group id following `g`, skipping 0 and the top of the range.
pub open spec fn spec_next_group(g: u16) -> u16 {
    if g + 1 >= 65534 {
        1u16
    } else {
        (g + 1) as u16
    }
}

/// Payload bytes in chunk `k` of a payload of `length` bytes.
pub open spec fn spec_chunk_len(length: int, k: int) -> int {
    if (k + 1) * FRAG_SIZE as int <= length {
        FRAG_SIZE as int
    } else {
        length - k * FRAG_SIZE as int
    }
}

impl Fragmentation {
    pub open spec fn wf(self) -> bool {
        &&& 1 <= self.next_group <= 65533
        &&& forall|g: u16, s: u16| #![auto]
            self.received@.contains_key(g) && self.received@[g]@.contains_key(s)
                ==> self.received@[g]@[s]@.len() >= TACHYON_FRAGMENTED_HEADER_SIZE
    }

    pub fn default() -> (r: Self)
        ensures
            r.wf(),
            r.next_group == 1,
            r.received@ == Map::<u16, HashMap<u16, Vec<u8>>>::empty(),
            r.received_at@.len() == 0,
    {
        Fragmentation { next_group: 1, received: HashMap::new(), received_at: Vec::new() }
    }

    /// The arrival clock reading recorded for a group, if any.
    pub fn group_seen_at(&self, group: u16) -> (r: Option<u64>)
        ensures
            r is Some ==> exists|i: int|
                0 <= i < self.received_at@.len() && self.received_at@[i] == (group, r.unwrap()),
            r is None ==> forall|i: int|
                0 <= i < self.received_at@.len() ==> (#[trigger] self.received_at@[i]).0 != group,
    {
        let mut i: usize = 0;
        while i < self.received_at.len()
            invariant
                i <= self.received_at@.len(),
                forall|j: int| 0 <= j < i ==> (#[trigger] self.received_at@[j]).0 != group,
            decreases self.received_at@.len() - i,
        {
            if self.received_at[i].0 == group {
                return Some(self.received_at[i].1);
            }
            i = i + 1;
        }
        None
    }

    /// Drops every group first seen more than the expiry age before the
    /// given clock reading.
    pub fn expire_groups(&mut self, now_ms: u64)
        requires
            old(self).wf(),
        ensures
            final(self).wf(),
            final(self).next_group == old(self).next_group,
            final(self).received_at@ == old(self).received_at@.filter(
                |e: (u16, u64)| !(now_ms as int - e.1 as int > GROUP_EXPIRE_MS as int),
            ),
            forall|g: u16|
                final(self).received@.contains_key(g) <==> old(self).received@.contains_key(g)
                    && !exists|i: int|
                    0 <= i < old(self).received_at@.len() && (#[trigger] old(
                        self,
                    ).received_at@[i]).0 == g && now_ms as int - old(self).received_at@[i].1 as int
                    > GROUP_EXPIRE_MS as int,
            forall|g: u16| #![auto]
                final(self).received@.contains_key(g) ==> final(self).received@[g] == old(
                    self,
                ).received@[g],
    {
        let mut kept: Vec<(u16, u64)> = Vec::new();
        let mut i: usize = 0;
        proof {
            reveal(Seq::filter);
            assert(old(self).received_at@.take(0).filter(
                |e: (u16, u64)| !(now_ms as int - e.1 as int > GROUP_EXPIRE_MS as int),
            ) =~= Seq::<(u16, u64)>::empty());
        }
        while i < self.received_at.len()
            invariant
                i <= self.received_at@.len(),
                self.received_at@ == old(self).received_at@,
                self.next_group == old(self).next_group,
                self.wf(),
                kept@ == old(self).received_at@.take(i as int).filter(
                    |e: (u16, u64)| !(now_ms as int - e.1 as int > GROUP_EXPIRE_MS as int),
                ),
                forall|g: u16|
                    self.received@.contains_key(g) <==> old(self).received@.contains_key(g)
                        && !exists|j: int|
                        0 <= j < i && (#[trigger] old(self).received_at@[j]).0 == g && now_ms as int
                            - old(self).received_at@[j].1 as int > GROUP_EXPIRE_MS as int,
                forall|g: u16| #![auto]
                    self.received@.contains_key(g) ==> self.received@[g] == old(self).received@[g],
            decreases self.received_at@.len() - i,
        {
            let entry = self.received_at[i];
            let expired = now_ms > entry.1 && now_ms - entry.1 > GROUP_EXPIRE_MS;
            if expired {
                self.received.remove(&entry.0);
            } else {
                kept.push(entry);
            }
            i = i + 1;
            proof {
                reveal(Seq::filter);
                assert(old(self).received_at@.take(i as int).drop_last() =~= old(
                    self,
                ).received_at@.take(i as int - 1));
                assert(old(self).received_at@.take(i as int).filter(
                    |e: (u16, u64)| !(now_ms as int - e.1 as int > GROUP_EXPIRE_MS as int),
                ) =~= kept@);
            }
        }
        proof {
            assert(old(self).received_at@.take(i as int) =~= old(self).received_at@);
        }
        self.received_at = kept;
    }

    pub fn should_fragment(length: usize) -> (r: bool)
        ensures
            r == (length >= FRAG_SIZE),
    {
        length >= FRAG_SIZE
    }

    fn get_next_group(&mut self) -> (r: u16)
        requires
            old(self).wf(),
        ensures
            final(self).wf(),
            r == spec_next_group(old(self).next_group),
            *final(self) == (Fragmentation { next_group: r, ..*old(self) }),
    {
        self.next_group = self.next_group + 1;
        if self.next_group >= u16::MAX - 1 {
            self.next_group = 1;
        }
        self.next_group
    }

    /// Stores one arriving fragment under its group and sequence, recording
    /// a first-seen time for new groups; returns whether the fragment was
    /// taken and whether its group is now complete.  Fragments too short to
    /// carry a fragment header are rejected.
    pub fn receive_fragment(&mut self, data: &Vec<u8>, length: usize, now_ms: u64) -> (r: (
        bool,
        bool,
    ))
        requires
            old(self).wf(),
            length <= data.len(),
        ensures
            final(self).wf(),
            final(self).next_group == old(self).next_group,
            length < TACHYON_FRAGMENTED_HEADER_SIZE ==> r == (false, false) && *final(self)
                == *old(self),
            length >= TACHYON_FRAGMENTED_HEADER_SIZE ==> ({
                let header = fragmented_header_at(data@);
                let g = header.fragment_group;
                let s = header.sequence;
                let existed = old(self).received@.contains_key(g);
                let old_group = if existed {
                    spec_group(old(self).received@, g)
                } else {
                    Map::<u16, Seq<u8>>::empty()
                };
                let new_group = if old_group.contains_key(s) {
                    old_group
                } else {
                    old_group.insert(s, data@.take(length as int))
                };
                &&& r.0 == true
                &&& r.1 == (new_group.len() == header.fragment_count)
                &&& final(self).received@.contains_key(g)
                &&& spec_group(final(self).received@, g) == new_group
                &&& forall|g2: u16| #![auto]
                    g2 != g ==> final(self).received@.contains_key(g2) == old(
                        self,
                    ).received@.contains_key(g2) && (old(self).received@.contains_key(g2)
                        ==> final(self).received@[g2] == old(self).received@[g2])
                &&& final(self).received_at@ == if existed {
                    old(self).received_at@
                } else {
                    old(self).received_at@.push((g, now_ms))
                }
            }),
    {
        if length < TACHYON_FRAGMENTED_HEADER_SIZE {
            return (false, false);
        }
        let header = Header::read_fragmented(data);
        let group = header.fragment_group;
        let existed = self.received.contains_key(&group);
        let mut group_map: HashMap<u16, Vec<u8>> = if existed {
            match self.received.remove(&group) {
                Some(m) => m,
                None => HashMap::new(),
            }
        } else {
            self.received_at.push((group, now_ms));
            HashMap::new()
        };
        let ghost old_group_view = group_map@.map_values(|v: Vec<u8>| v@);
        if !group_map.contains_key(&header.sequence) {
            let mut fragment: Vec<u8> = Vec::new();
            crate::int_buffer::append_bytes(&mut fragment, data, 0, length);
            group_map.insert(header.sequence, fragment);
        }
        let complete = group_map.len() == header.fragment_count as usize;
        let ghost new_group_view = group_map@.map_values(|v: Vec<u8>| v@);
        self.received.insert(group, group_map);
        proof {
            let g = fragmented_header_at(data@).fragment_group;
            let s = fragmented_header_at(data@).sequence;
            if existed {
                assert(old_group_view =~= spec_group(old(self).received@, g));
            } else {
                assert(old_group_view =~= Map::<u16, Seq<u8>>::empty());
            }
            if !old_group_view.contains_key(s) {
                assert(new_group_view =~= old_group_view.insert(s, data@.take(length as int)));
            } else {
                assert(new_group_view =~= old_group_view);
            }
            assert(new_group_view.dom() =~= group_map@.dom());
            assert(spec_group(final(self).received@, g) =~= new_group_view);
        }
        (true, complete)
    }

    /// Reassembles a completed group in sequence order and drops the group;
    /// reports an error when the group is unknown, still incomplete, or has
    /// a gap where a fragment sequence is missing (the group is dropped in
    /// that last case too).
    pub fn assemble(&mut self, header: Header) -> (r: Result<Vec<u8>, ()>)
        requires
            old(self).wf(),
        ensures
            final(self).wf(),
            final(self).next_group == old(self).next_group,
            final(self).received_at@ == old(self).received_at@,
            !old(self).received@.contains_key(header.fragment_group) ==> r is Err
                && final(self).received@ == old(self).received@,
            old(self).received@.contains_key(header.fragment_group) && spec_group(
                old(self).received@,
                header.fragment_group,
            ).len() != header.fragment_count ==> r is Err && final(self).received@
                == old(self).received@,
            old(self).received@.contains_key(header.fragment_group) && spec_group(
                old(self).received@,
                header.fragment_group,
            ).len() == header.fragment_count ==> ({
                let assembled = spec_assembled(
                    spec_group(old(self).received@, header.fragment_group),
                    header.fragment_start_sequence,
                    header.fragment_count as nat,
                );
                &&& final(self).received@ == old(self).received@.remove(header.fragment_group)
                &&& r is Ok <==> assembled is Some
                &&& r is Ok ==> r.unwrap()@ == assembled.unwrap()
            }),
    {
        let group_map = match self.received.remove(&header.fragment_group) {
            Some(m) => m,
            None => {
                proof {
                    assert(self.received@ =~= old(self).received@);
                }
                return Err(());
            },
        };
        proof {
            assert(spec_group(old(self).received@, header.fragment_group).dom()
                =~= group_map@.dom());
        }
        if group_map.len() != header.fragment_count as usize {
            self.received.insert(header.fragment_group, group_map);
            proof {
                assert(self.received@ =~= old(self).received@);
            }
            return Err(());
        }
        let ghost gv = group_map@.map_values(|v: Vec<u8>| v@);
        proof {
            assert(gv =~= spec_group(old(self).received@, header.fragment_group));
        }
        let mut buffer: Vec<u8> = Vec::new();
        let mut seq = header.fragment_start_sequence;
        let mut k: u16 = 0;
        while k < header.fragment_count
            invariant
                k <= header.fragment_count,
                self.wf(),
                self.next_group == old(self).next_group,
                self.received_at@ == old(self).received_at@,
                self.received@ == old(self).received@.remove(header.fragment_group),
                old(self).received@.contains_key(header.fragment_group),
                gv == spec_group(old(self).received@, header.fragment_group),
                gv.len() == header.fragment_count,
                gv == group_map@.map_values(|v: Vec<u8>| v@),
                forall|s: u16| #![auto]
                    gv.contains_key(s) ==> gv[s].len() >= TACHYON_FRAGMENTED_HEADER_SIZE,
                spec_assembled(gv, header.fragment_start_sequence, header.fragment_count as nat)
                    == (match spec_assembled(
                    gv,
                    seq,
                    (header.fragment_count - k) as nat,
                ) {
                    None => None::<Seq<u8>>,
                    Some(rest) => Some(buffer@ + rest),
                }),
            decreases header.fragment_count - k,
        {
            let ghost seq0 = seq;
            let fragment = match group_map.get(&seq) {
                Some(f) => f,
                None => {
                    return Err(());
                },
            };
            proof {
                assert(gv.contains_key(seq0) && gv[seq0] == fragment@);
            }
            let ghost buffer0 = buffer@;
            crate::int_buffer::append_bytes(
                &mut buffer,
                fragment,
                TACHYON_FRAGMENTED_HEADER_SIZE,
                fragment.len() - TACHYON_FRAGMENTED_HEADER_SIZE,
            );
            proof {
                assert(buffer@ =~= buffer0 + gv[seq0].skip(TACHYON_FRAGMENTED_HEADER_SIZE as int));
            }
            seq = Sequence::next_sequence(seq);
            k = k + 1;
            proof {
                match spec_assembled(gv, seq, (header.fragment_count - k) as nat) {
                    Some(rest) => {
                        assert(buffer0 + (gv[seq0].skip(TACHYON_FRAGMENTED_HEADER_SIZE as int)
                            + rest) =~= buffer@ + rest);
                    },
                    None => {},
                }
            }
        }
        proof {
            assert(buffer@ + Seq::<u8>::empty() =~= buffer@);
        }
        Ok(buffer)
    }

    /// Splits the first `length` bytes of `data` into fragments, assigns
    /// each a fresh consecutive sequence from the sender under a new group
    /// id, and stores the framed fragment in the sender's ring; returns the
    /// assigned sequences.
    pub fn create_fragments(
        &mut self,
        sender: &mut SendBufferManager,
        channel: u8,
        data: &Vec<u8>,
        length: usize,
        now_ms: u64,
    ) -> (r: Vec<u16>)
        requires
            old(self).wf(),
            old(sender).wf(),
            1 <= length <= data.len(),
            length <= 512 * FRAG_SIZE,
        ensures
            final(self).wf(),
            final(sender).wf(),
            *final(self) == (Fragmentation {
                next_group: spec_next_group(old(self).next_group),
                ..*old(self)
            }),
            ({
                let count = (length + FRAG_SIZE - 1) as int / FRAG_SIZE as int;
                let group = spec_next_group(old(self).next_group);
                let start = seq_next(old(sender).current_sequence);
                &&& r@.len() == count
                &&& final(sender).current_sequence == seq_next_n(
                    old(sender).current_sequence,
                    count as nat,
                )
                &&& forall|k: int|
                    0 <= k < count ==> r@[k] == seq_next_n(
                        old(sender).current_sequence,
                        (k + 1) as nat,
                    )
                &&& forall|k: int| #![trigger r@[k]]
                    0 <= k < count ==> ({
                        let stored = final(sender).buffers.values@[r@[k] as int % 1024];
                        let body = spec_chunk_len(length as int, k);
                        &&& stored is Some
                        &&& stored.unwrap().sequence == r@[k]
                        &&& stored.unwrap().created_at == now_ms
                        &&& stored.unwrap().byte_buffer@.wf()
                        &&& stored.unwrap().byte_buffer@.length == body
                            + TACHYON_FRAGMENTED_HEADER_SIZE
                        &&& fragmented_header_at(stored.unwrap().byte_buffer@.data) == (Header {
                            message_type: MESSAGE_TYPE_FRAGMENT,
                            channel,
                            sequence: r@[k],
                            fragment_group: group,
                            fragment_start_sequence: start,
                            fragment_count: count as u16,
                            ..spec_header_default()
                        })
                        &&& stored.unwrap().byte_buffer@.data.subrange(
                            TACHYON_FRAGMENTED_HEADER_SIZE as int,
                            TACHYON_FRAGMENTED_HEADER_SIZE + body,
                        ) == data@.subrange(k * FRAG_SIZE as int, k * FRAG_SIZE as int + body)
                    })
            }),
    {
        let group = self.get_next_group();
        let fragment_count_usize = (length + FRAG_SIZE - 1) / FRAG_SIZE;
        let fragment_count = fragment_count_usize as u16;
        let ghost count = fragment_count_usize as int;
        let ghost cur0 = old(sender).current_sequence;
        let mut fragments: Vec<u16> = Vec::new();
        let start_sequence = Sequence::next_sequence(sender.current_sequence);
        let mut k: usize = 0;
        proof {
            assert(seq_next_n(cur0, 0) == cur0);
            assert(seq_next_n(cur0, 1) == seq_next(seq_next_n(cur0, 0)));
        }
        while k < fragment_count_usize
            invariant
                k <= fragment_count_usize,
                fragment_count_usize as int == (length + FRAG_SIZE - 1) as int / FRAG_SIZE as int,
                fragment_count_usize <= 512,
                fragment_count == fragment_count_usize as u16,
                1 <= length <= data.len(),
                length <= 512 * FRAG_SIZE,
                cur0 == old(sender).current_sequence,
                cur0 <= 65534,
                sender.wf(),
                sender.current_sequence == seq_next_n(cur0, k as nat),
                sender.buffer_pool@.buffer_size == old(sender).buffer_pool@.buffer_size,
                start_sequence == seq_next(cur0),
                fragments@.len() == k,
                forall|j: int| 0 <= j < k ==> fragments@[j] == seq_next_n(cur0, (j + 1) as nat),
                forall|j: int| #![trigger fragments@[j]]
                    0 <= j < k ==> ({
                        let stored = sender.buffers.values@[fragments@[j] as int % 1024];
                        let body = spec_chunk_len(length as int, j);
                        &&& stored is Some
                        &&& stored.unwrap().sequence == fragments@[j]
                        &&& stored.unwrap().created_at == now_ms
                        &&& stored.unwrap().byte_buffer@.wf()
                        &&& stored.unwrap().byte_buffer@.length == body
                            + TACHYON_FRAGMENTED_HEADER_SIZE
                        &&& fragmented_header_at(stored.unwrap().byte_buffer@.data) == (Header {
                            message_type: MESSAGE_TYPE_FRAGMENT,
                            channel,
                            sequence: fragments@[j],
                            fragment_group: group,
                            fragment_start_sequence: start_sequence,
                            fragment_count: fragment_count_usize as u16,
                            ..spec_header_default()
                        })
                        &&& stored.unwrap().byte_buffer@.data.subrange(
                            TACHYON_FRAGMENTED_HEADER_SIZE as int,
                            TACHYON_FRAGMENTED_HEADER_SIZE + body,
                        ) == data@.subrange(j * FRAG_SIZE as int, j * FRAG_SIZE as int + body)
                    }),
            decreases fragment_count_usize - k,
        {
            let offset = k * FRAG_SIZE;
            let chunk_len = if offset + FRAG_SIZE <= length {
                FRAG_SIZE
            } else {
                length - offset
            };
            let fragment_len = chunk_len + TACHYON_FRAGMENTED_HEADER_SIZE;
            proof {
                crate::sequence::lemma_next_n_stays_low(cur0, (k + 1) as nat);
            }
            let sequence = match sender.create_send_buffer(fragment_len, now_ms) {
                Some(s) => s,
                None => {
                    vstd::pervasive::unreached()
                },
            };
            proof {
                crate::sequence::lemma_next_n_add(cur0, k as nat, 1);
                assert(seq_next_n(seq_next_n(cur0, k as nat), 1) == seq_next(
                    seq_next_n(seq_next_n(cur0, k as nat), 0),
                ));
            }
            let ghost sl = sequence as int % 1024;
            match sender.get_send_buffer(sequence) {
                Some(send_buffer) => {
                    let fragment_header = Header::create_fragmented(
                        sequence,
                        channel,
                        group,
                        start_sequence,
                        fragment_count,
                    );
                    fragment_header.write_fragmented(&mut send_buffer.byte_buffer.data);
                    crate::int_buffer::copy_bytes(
                        &mut send_buffer.byte_buffer.data,
                        TACHYON_FRAGMENTED_HEADER_SIZE,
                        data,
                        offset,
                        chunk_len,
                    );
                },
                None => {
                    vstd::pervasive::unreached()
                },
            }
            fragments.push(sequence);
            k = k + 1;
            proof {
                let frags = fragments@;
                assert forall|j: int| #![trigger frags[j]] 0 <= j < k - 1 implies frags[j] as int
                    % 1024 != frags[k - 1] as int % 1024 by {
                    crate::sequence::lemma_next_n_slots_distinct(cur0, (j + 1) as nat, k as nat);
                }
                let stored = sender.buffers.values@[sl];
                assert(fragments@[k - 1] == sequence);
                assert(sequence == seq_next_n(cur0, k as nat));
                assert(chunk_len as int == spec_chunk_len(length as int, k - 1));
                assert(stored is Some);
                assert(stored.unwrap().sequence == sequence);
                assert(stored.unwrap().created_at == now_ms);
                assert(stored.unwrap().byte_buffer@.length == chunk_len
                    + TACHYON_FRAGMENTED_HEADER_SIZE);
                let h = fragmented_header_at(stored.unwrap().byte_buffer@.data);
                assert(h.message_type == MESSAGE_TYPE_FRAGMENT);
                assert(h.channel == channel);
                assert(h.sequence == sequence);
                assert(h.fragment_group == group);
                assert(h.fragment_start_sequence == start_sequence);
                assert(h.fragment_count == fragment_count_usize as u16);
                assert(h.start_sequence == 0 && h.flags == 0);
                assert(h == (Header {
                    message_type: MESSAGE_TYPE_FRAGMENT,
                    channel,
                    sequence,
                    fragment_group: group,
                    fragment_start_sequence: start_sequence,
                    fragment_count: fragment_count_usize as u16,
                    ..spec_header_default()
                }));
                assert(stored.unwrap().byte_buffer@.data.subrange(
                    TACHYON_FRAGMENTED_HEADER_SIZE as int,
                    TACHYON_FRAGMENTED_HEADER_SIZE + chunk_len,
                ) =~= data@.subrange(
                    (k - 1) * FRAG_SIZE as int,
                    (k - 1) * FRAG_SIZE as int + chunk_len,
                ));
            }
        }
        fragments
    }
}

/// Assembly of a stored suffix: from chunk `k` on, the stored fragments
/// reproduce the payload's tail.
proof fn lemma_assemble_suffix(m: Map<u16, Seq<u8>>, payload: Seq<u8>, start: u16, count: nat,
    k: nat)
    requires
        count >= 1,
        k <= count,
        payload.len() > (count - 1) * FRAG_SIZE,
        payload.len() <= count * FRAG_SIZE,
        forall|j: int| 0 <= j < count ==> m.contains_key(#[trigger] seq_next_n(start, j as nat)),
        forall|j: int|
            0 <= j < count ==> (#[trigger] m[seq_next_n(start, j as nat)]).skip(
                TACHYON_FRAGMENTED_HEADER_SIZE as int,
            ) == payload.subrange(
                j * FRAG_SIZE as int,
                j * FRAG_SIZE as int + spec_chunk_len(payload.len() as int, j),
            ),
    ensures
        spec_assembled(m, seq_next_n(start, k), (count - k) as nat) == Some(
            if k == count {
                Seq::<u8>::empty()
            } else {
                payload.skip(k * FRAG_SIZE as int)
            },
        ),
    decreases count - k,
{
    if k == count {
    } else {
        lemma_assemble_suffix(m, payload, start, count, k + 1);
        let seq_k = seq_next_n(start, k);
        crate::sequence::lemma_next_n_add(start, k, 1);
        assert(seq_next_n(seq_k, 1) == seq_next(seq_next_n(seq_k, 0)));
        assert(seq_next_n(seq_k, 0) == seq_k);
        assert(seq_next(seq_k) == seq_next_n(start, k + 1));
        let clen = spec_chunk_len(payload.len() as int, k as int);
        let chunk = payload.subrange(k * FRAG_SIZE as int, k * FRAG_SIZE as int + clen);
        assert(m[seq_k].skip(TACHYON_FRAGMENTED_HEADER_SIZE as int) == chunk);
        if k + 1 == count {
            assert(chunk + Seq::<u8>::empty() =~= payload.skip(k * FRAG_SIZE as int));
        } else {
            assert(chunk + payload.skip((k + 1) * FRAG_SIZE as int) =~= payload.skip(
                k * FRAG_SIZE as int,
            ));
        }
    }
}

/// Fragment round trip: when a group holds, for each chunk position, a
/// stored fragment whose body is that chunk of the payload, assembling from
/// the first assigned sequence reproduces the payload byte for byte --
/// whatever order the fragments arrived in, since the store is keyed by
/// sequence.
pub proof fn lemma_fragment_round_trip(m: Map<u16, Seq<u8>>, payload: Seq<u8>, start: u16,
    count: nat)
    requires
        count >= 1,
        payload.len() > (count - 1) * FRAG_SIZE,
        payload.len() <= count * FRAG_SIZE,
        forall|j: int| 0 <= j < count ==> m.contains_key(#[trigger] seq_next_n(start, j as nat)),
        forall|j: int|
            0 <= j < count ==> (#[trigger] m[seq_next_n(start, j as nat)]).skip(
                TACHYON_FRAGMENTED_HEADER_SIZE as int,
            ) == payload.subrange(
                j * FRAG_SIZE as int,
                j * FRAG_SIZE as int + spec_chunk_len(payload.len() as int, j),
            ),
    ensures
        spec_assembled(m, start, count) == Some(payload),
{
    lemma_assemble_suffix(m, payload, start, count, 0);
    assert(seq_next_n(start, 0) == start);
    assert(payload.skip(0) =~= payload);
}

} // verus!
