use vstd::prelude::*;

use crate::fragmentation::Fragmentation;
use crate::header::{
    spec_header_default, Header, MESSAGE_TYPE_NACK, MESSAGE_TYPE_NONE, MESSAGE_TYPE_RELIABLE,
    MESSAGE_TYPE_RELIABLE_WITH_NACK, TACHYON_HEADER_SIZE, TACHYON_NACKED_HEADER_SIZE,
};
use crate::int_buffer::le16;
use crate::nack::{expansions, nack_varint_stream, parse_nack_message, record_at, Nack};
use crate::network_address::NetworkAddress;
use crate::receiver::{spec_receive_packet, Receiver};
use crate::send_buffer_manager::SendBufferManager;
use crate::sequence::seq_next;

verus! {

pub const RECEIVE_WINDOW_SIZE_DEFAULT: u32 = 512;

pub const NACK_REDUNDANCY_DEFAULT: u32 = 1;

/// Per-channel counters; all additions wrap, the counters are advisory.
#[derive(Clone, Copy, PartialEq, Eq, Structural, Debug)]
pub struct ChannelStats {
    pub sent: u64,
    pub received: u64,
    pub bytes_sent: u64,
    pub bytes_received: u64,
    pub fragments_sent: u64,
    pub fragments_received: u64,
    pub fragments_assembled: u64,
    pub published: u64,
    pub published_consumed: u64,
    pub nacks_sent: u64,
    pub nacks_received: u64,
    pub resent: u64,
    pub nones_sent: u64,
    pub nones_received: u64,
    pub nones_accepted: u64,
    pub skipped_sequences: u64,
}

impl Default for ChannelStats {
    fn default() -> (r: Self)
        ensures
            r == spec_channel_stats_zero(),
    {
        ChannelStats {
            sent: 0,
            received: 0,
            bytes_sent: 0,
            bytes_received: 0,
            fragments_sent: 0,
            fragments_received: 0,
            fragments_assembled: 0,
            published: 0,
            published_consumed: 0,
            nacks_sent: 0,
            nacks_received: 0,
            resent: 0,
            nones_sent: 0,
            nones_received: 0,
            nones_accepted: 0,
            skipped_sequences: 0,
        }
    }
}

pub open spec fn spec_channel_stats_zero() -> ChannelStats {
    ChannelStats {
        sent: 0,
        received: 0,
        bytes_sent: 0,
        bytes_received: 0,
        fragments_sent: 0,
        fragments_received: 0,
        fragments_assembled: 0,
        published: 0,
        published_consumed: 0,
        nacks_sent: 0,
        nacks_received: 0,
        resent: 0,
        nones_sent: 0,
        nones_received: 0,
        nones_accepted: 0,
        skipped_sequences: 0,
    }
}

impl ChannelStats {
    /// Adds the other side's counters into this one, wrapping on overflow.
    pub fn add_from(&mut self, other: &ChannelStats)
        ensures
            final(self).sent == old(self).sent.wrapping_add(other.sent),
            final(self).received == old(self).received.wrapping_add(other.received),
            final(self).bytes_sent == old(self).bytes_sent.wrapping_add(other.bytes_sent),
            final(self).bytes_received == old(self).bytes_received.wrapping_add(
                other.bytes_received,
            ),
            final(self).fragments_sent == old(self).fragments_sent.wrapping_add(
                other.fragments_sent,
            ),
            final(self).fragments_received == old(self).fragments_received.wrapping_add(
                other.fragments_received,
            ),
            final(self).fragments_assembled == old(self).fragments_assembled.wrapping_add(
                other.fragments_assembled,
            ),
            final(self).published == old(self).published.wrapping_add(other.published),
            final(self).published_consumed == old(self).published_consumed.wrapping_add(
                other.published_consumed,
            ),
            final(self).nacks_sent == old(self).nacks_sent.wrapping_add(other.nacks_sent),
            final(self).nacks_received == old(self).nacks_received.wrapping_add(
                other.nacks_received,
            ),
            final(self).resent == old(self).resent.wrapping_add(other.resent),
            final(self).nones_sent == old(self).nones_sent.wrapping_add(other.nones_sent),
            final(self).nones_received == old(self).nones_received.wrapping_add(
                other.nones_received,
            ),
            final(self).nones_accepted == old(self).nones_accepted.wrapping_add(
                other.nones_accepted,
            ),
            final(self).skipped_sequences == old(self).skipped_sequences.wrapping_add(
                other.skipped_sequences,
            ),
    {
        self.sent = self.sent.wrapping_add(other.sent);
        self.received = self.received.wrapping_add(other.received);
        self.bytes_sent = self.bytes_sent.wrapping_add(other.bytes_sent);
        self.bytes_received = self.bytes_received.wrapping_add(other.bytes_received);
        self.fragments_sent = self.fragments_sent.wrapping_add(other.fragments_sent);
        self.fragments_received = self.fragments_received.wrapping_add(other.fragments_received);
        self.fragments_assembled = self.fragments_assembled.wrapping_add(
            other.fragments_assembled,
        );
        self.published = self.published.wrapping_add(other.published);
        self.published_consumed = self.published_consumed.wrapping_add(other.published_consumed);
        self.nacks_sent = self.nacks_sent.wrapping_add(other.nacks_sent);
        self.nacks_received = self.nacks_received.wrapping_add(other.nacks_received);
        self.resent = self.resent.wrapping_add(other.resent);
        self.nones_sent = self.nones_sent.wrapping_add(other.nones_sent);
        self.nones_received = self.nones_received.wrapping_add(other.nones_received);
        self.nones_accepted = self.nones_accepted.wrapping_add(other.nones_accepted);
        self.skipped_sequences = self.skipped_sequences.wrapping_add(other.skipped_sequences);
    }
}

/// How a channel is to behave: delivery order, receive window, and how often
/// a pending NACK is piggybacked.
#[derive(Clone, Copy, PartialEq, Eq, Structural, Debug)]
pub struct ChannelConfig {
    pub receive_window_size: u32,
    pub nack_redundancy: u32,
    pub ordered: u32,
}

impl Default for ChannelConfig {
    fn default() -> (r: Self)
        ensures
            r == (ChannelConfig { receive_window_size: 0, nack_redundancy: 0, ordered: 0 }),
    {
        ChannelConfig { receive_window_size: 0, nack_redundancy: 0, ordered: 0 }
    }
}

impl ChannelConfig {
    pub fn default_ordered() -> (r: Self)
        ensures
            r == (ChannelConfig {
                ordered: 1,
                receive_window_size: RECEIVE_WINDOW_SIZE_DEFAULT,
                nack_redundancy: NACK_REDUNDANCY_DEFAULT,
            }),
    {
        ChannelConfig {
            ordered: 1,
            receive_window_size: RECEIVE_WINDOW_SIZE_DEFAULT,
            nack_redundancy: NACK_REDUNDANCY_DEFAULT,
        }
    }

    pub fn default_unordered() -> (r: Self)
        ensures
            r == (ChannelConfig {
                ordered: 0,
                receive_window_size: RECEIVE_WINDOW_SIZE_DEFAULT,
                nack_redundancy: NACK_REDUNDANCY_DEFAULT,
            }),
    {
        ChannelConfig {
            ordered: 0,
            receive_window_size: RECEIVE_WINDOW_SIZE_DEFAULT,
            nack_redundancy: NACK_REDUNDANCY_DEFAULT,
        }
    }

    pub fn is_ordered(&self) -> (r: bool)
        ensures
            r == (self.ordered == 1),
    {
        self.ordered == 1
    }
}

/// Whether a channel's published queue starts with a well-formed fragment
/// marker whose group is complete and assembles to a nonempty body that
/// fits a buffer of the given size.
pub open spec fn spec_head_completes_group(c: Channel, buffer_len: int) -> bool {
    let msg = c.receiver@.published[0].payload();
    &&& msg.len() >= crate::header::TACHYON_FRAGMENTED_HEADER_SIZE
    &&& msg[0] == crate::header::MESSAGE_TYPE_FRAGMENT
    &&& ({
        let fh = crate::header::fragmented_header_at(msg);
        let group = crate::fragmentation::spec_group(c.frag.received@, fh.fragment_group);
        let assembled = crate::fragmentation::spec_assembled(
            group,
            fh.fragment_start_sequence,
            fh.fragment_count as nat,
        );
        &&& c.frag.received@.contains_key(fh.fragment_group)
        &&& group.len() == fh.fragment_count
        &&& assembled is Some
        &&& 0 < assembled.unwrap().len() <= buffer_len
        &&& assembled.unwrap().len() <= 0xffff_ffff
    })
}

/// One datagram the caller must transmit: destination and bytes.
pub struct OutgoingDatagram {
    pub address: NetworkAddress,
    pub data: Vec<u8>,
}

/// What one pending entry of the inbound-NACK accumulator turns into on the
/// next update: the retained frame (a piggybacked frame rewritten to plain
/// reliable), or a placeholder that advances the remote window when the
/// frame has been evicted.
pub open spec fn spec_resend_bytes(
    stored: Option<crate::send_buffer_manager::SendBuffer>,
    channel_id: u8,
    sequence: u16,
) -> Seq<u8> {
    match stored {
        Some(sb) => {
            let bytes = sb.byte_buffer@.data.take(sb.byte_buffer@.length as int);
            if bytes.len() >= TACHYON_NACKED_HEADER_SIZE && bytes[0]
                == MESSAGE_TYPE_RELIABLE_WITH_NACK {
                seq![MESSAGE_TYPE_RELIABLE, bytes[1], bytes[2], bytes[3]] + bytes.skip(
                    TACHYON_NACKED_HEADER_SIZE as int,
                )
            } else {
                bytes
            }
        },
        None => seq![
            MESSAGE_TYPE_NONE,
            channel_id,
            crate::int_buffer::le16_bytes(sequence).0,
            crate::int_buffer::le16_bytes(sequence).1,
        ],
    }
}

/// A NACK list folded into the accumulator: each sequence keeps the newest
/// address that nacked it.
pub open spec fn spec_nack_map_upsert(
    m: Seq<(u16, NetworkAddress)>,
    s: u16,
    address: NetworkAddress,
) -> Seq<(u16, NetworkAddress)> {
    if exists|i: int| 0 <= i < m.len() && (#[trigger] m[i]).0 == s {
        let i = choose|i: int| 0 <= i < m.len() && (#[trigger] m[i]).0 == s;
        m.update(i, (s, address))
    } else {
        m.push((s, address))
    }
}

pub open spec fn spec_nack_map_fold(
    m: Seq<(u16, NetworkAddress)>,
    seqs: Seq<u16>,
    address: NetworkAddress,
) -> Seq<(u16, NetworkAddress)>
    decreases seqs.len(),
{
    if seqs.len() == 0 {
        m
    } else {
        spec_nack_map_fold(
            spec_nack_map_upsert(m, seqs[0], address),
            seqs.drop_first(),
            address,
        )
    }
}

/// One logical channel to one peer: ties the receiver, the send-buffer ring
/// and the fragment assembler together, dispatches inbound messages by type
/// and frames outbound ones.
pub struct Channel {
    pub id: u8,
    pub address: NetworkAddress,
    pub frag: Fragmentation,
    pub send_buffers: SendBufferManager,
    pub receiver: Receiver,
    pub stats: ChannelStats,
    pub nacked_sequences: Vec<u16>,
    pub nacked_sequence_map: Vec<(u16, NetworkAddress)>,
    pub resend_rewrite_buffer: Vec<u8>,
    pub nack_redundancy: u32,
}

impl Channel {
    pub open spec fn wf(self) -> bool {
        &&& self.frag.wf()
        &&& self.send_buffers.wf()
        &&& self.receiver.wf()
        &&& forall|i: int, j: int|
            0 <= i < j < self.nacked_sequence_map@.len() ==> (
            #[trigger] self.nacked_sequence_map@[i]).0 != (
            #[trigger] self.nacked_sequence_map@[j]).0
    }

    pub fn create(id: u8, address: NetworkAddress, config: ChannelConfig) -> (r: Self)
        ensures
            r.wf(),
            r.id == id,
            r.address == address,
            r.receiver@.is_ordered == (config.ordered == 1),
            r.receiver@.window == Receiver::spec_clamp_window(config.receive_window_size),
            r.nack_redundancy == config.nack_redundancy,
            r.stats == spec_channel_stats_zero(),
            r.nacked_sequences@.len() == 0,
            r.nacked_sequence_map@.len() == 0,
            r.receiver.nack_queue@.len() == 0,
            r.receiver.nack_list@.len() == 0,
            r.receiver@.published.len() == 0,
    {
        Channel {
            id,
            address,
            frag: Fragmentation::default(),
            send_buffers: SendBufferManager::default(),
            receiver: Receiver::create(config.is_ordered(), config.receive_window_size),
            stats: ChannelStats::default(),
            nacked_sequences: Vec::new(),
            nacked_sequence_map: Vec::new(),
            resend_rewrite_buffer: vec![0u8; 2048],
            nack_redundancy: config.nack_redundancy,
        }
    }

    pub fn is_ordered(&self) -> (r: bool)
        ensures
            r == self.receiver.is_ordered,
    {
        self.receiver.is_ordered
    }

    pub fn update_stats(&mut self)
        ensures
            *final(self) == (Channel {
                stats: ChannelStats {
                    skipped_sequences: old(self).receiver.skipped_sequences,
                    ..old(self).stats
                },
                ..*old(self)
            }),
    {
        self.stats.skipped_sequences = self.receiver.skipped_sequences;
    }

    /// Hands the next pending piggyback NACK out, charging one emission:
    /// a record is emitted at most `nack_redundancy` times and leaves the
    /// queue with its last emission.
    pub fn next_piggyback(&mut self) -> (r: Option<Nack>)
        ensures
            *final(self) == (Channel { receiver: final(self).receiver, ..*old(self) }),
            final(self).receiver == (Receiver {
                nack_queue: final(self).receiver.nack_queue,
                ..old(self).receiver
            }),
            old(self).nack_redundancy == 0 || old(self).receiver.nack_queue@.len() == 0 ==> r
                is None && final(self).receiver.nack_queue@ == old(self).receiver.nack_queue@,
            old(self).nack_redundancy > 0 && old(self).receiver.nack_queue@.len() > 0 ==> ({
                let head = old(self).receiver.nack_queue@[0];
                let rest = old(self).receiver.nack_queue@.drop_first();
                if head.sent_count < old(self).nack_redundancy {
                    let charged = Nack { sent_count: (head.sent_count + 1) as u32, ..head };
                    &&& r == Some(charged)
                    &&& final(self).receiver.nack_queue@ == if charged.sent_count < old(self).nack_redundancy {
                        rest.push(charged)
                    } else {
                        rest
                    }
                } else {
                    &&& r is None
                    &&& final(self).receiver.nack_queue@ == rest
                }
            }),
    {
        if self.nack_redundancy == 0 {
            return None;
        }
        let popped = self.receiver.nack_queue.pop_front();
        match popped {
            Some(mut nack) => {
                if nack.sent_count < self.nack_redundancy {
                    nack.sent_count = nack.sent_count + 1;
                    if nack.sent_count < self.nack_redundancy {
                        self.receiver.nack_queue.push_back(nack);
                    }
                    Some(nack)
                } else {
                    None
                }
            },
            None => None,
        }
    }

    /// Frames one reliable message: assigns the next sequence, retains the
    /// frame for retransmission, optionally piggybacks one pending NACK, and
    /// returns the send result together with the datagram to transmit.
    pub fn send_reliable(
        &mut self,
        address: NetworkAddress,
        data: &Vec<u8>,
        body_len: usize,
        now_ms: u64,
    ) -> (r: (crate::endpoint::TachyonSendResult, OutgoingDatagram))
        requires
            old(self).wf(),
            body_len <= data.len(),
            body_len + TACHYON_NACKED_HEADER_SIZE < 0x1_0000_0000,
        ensures
            final(self).wf(),
            final(self).id == old(self).id,
            final(self).address == old(self).address,
            r.0.error == 0,
            r.1.address == address,
            // the piggyback law: at most one pending record is embedded per
            // send, charged one emission, and it leaves the queue with its
            // last emission; without a chargeable record the frame is plain
            // reliable and the queue is untouched
            old(self).nack_redundancy == 0 || old(self).receiver.nack_queue@.len() == 0
                ==> r.0.header.message_type == MESSAGE_TYPE_RELIABLE && final(self).receiver.nack_queue@ == old(self).receiver.nack_queue@,
            old(self).nack_redundancy > 0 && old(self).receiver.nack_queue@.len() > 0 ==> ({
                let head = old(self).receiver.nack_queue@[0];
                let rest = old(self).receiver.nack_queue@.drop_first();
                if head.sent_count < old(self).nack_redundancy {
                    &&& r.0.header.message_type == MESSAGE_TYPE_RELIABLE_WITH_NACK
                    &&& r.0.header.start_sequence == head.start_sequence
                    &&& r.0.header.flags == head.flags
                    &&& final(self).receiver.nack_queue@ == if head.sent_count + 1 < old(self).nack_redundancy {
                        rest.push(Nack { sent_count: (head.sent_count + 1) as u32, ..head })
                    } else {
                        rest
                    }
                } else {
                    &&& r.0.header.message_type == MESSAGE_TYPE_RELIABLE
                    &&& final(self).receiver.nack_queue@ == rest
                }
            }),
            ({
                let header_len = if r.0.header.message_type == MESSAGE_TYPE_RELIABLE_WITH_NACK {
                    TACHYON_NACKED_HEADER_SIZE as int
                } else {
                    TACHYON_HEADER_SIZE as int
                };
                &&& (r.0.header.message_type == MESSAGE_TYPE_RELIABLE
                    || r.0.header.message_type == MESSAGE_TYPE_RELIABLE_WITH_NACK)
                &&& r.0.header.channel == old(self).id
                &&& r.0.header.sequence == seq_next(old(self).send_buffers.current_sequence)
                &&& r.0.sent_len == body_len + header_len
                &&& r.1.data@.len() == body_len + header_len
                &&& r.1.data@[0] == r.0.header.message_type
                &&& r.1.data@[1] == old(self).id
                &&& le16(r.1.data@[2], r.1.data@[3]) == r.0.header.sequence
                &&& r.1.data@.subrange(header_len, header_len + body_len) == data@.subrange(
                    0,
                    body_len as int,
                )
                &&& final(self).send_buffers.current_sequence == seq_next(
                    old(self).send_buffers.current_sequence,
                )
                &&& ({
                    let slot = seq_next(old(self).send_buffers.current_sequence) as int % 1024;
                    let stored = final(self).send_buffers.buffers.values@[slot];
                    &&& stored is Some
                    &&& stored.unwrap().sequence == r.0.header.sequence
                    &&& stored.unwrap().byte_buffer@.length == body_len + header_len
                    &&& stored.unwrap().byte_buffer@.data.take(body_len + header_len)
                        == r.1.data@
                })
            }),
    {
        let nack_option = self.next_piggyback();
        let header_len = match nack_option {
            Some(_) => TACHYON_NACKED_HEADER_SIZE,
            None => TACHYON_HEADER_SIZE,
        };
        let send_buffer_len = body_len + header_len;
        let sequence = match self.send_buffers.create_send_buffer(send_buffer_len, now_ms) {
            Some(s) => s,
            None => {
                vstd::pervasive::unreached()
            },
        };
        let mut header = Header::default();
        header.channel = self.id;
        header.sequence = sequence;
        match nack_option {
            Some(nack) => {
                header.message_type = MESSAGE_TYPE_RELIABLE_WITH_NACK;
                header.start_sequence = nack.start_sequence;
                header.flags = nack.flags;
                self.stats.nacks_sent = self.stats.nacks_sent.wrapping_add(
                    nack.nacked_count as u64,
                );
            },
            None => {
                header.message_type = MESSAGE_TYPE_RELIABLE;
            },
        }
        let mut frame: Vec<u8> = vec![0u8; send_buffer_len];
        match nack_option {
            Some(_) => {
                header.write_nacked(&mut frame);
            },
            None => {
                header.write(&mut frame);
            },
        }
        crate::int_buffer::copy_bytes(&mut frame, header_len, data, 0, body_len);
        match self.send_buffers.get_send_buffer(sequence) {
            Some(send_buffer) => {
                send_buffer.byte_buffer.fill_from(&frame, send_buffer_len);
                proof {
                    assert(send_buffer.byte_buffer@.data.take(send_buffer_len as int) =~= frame@);
                }
            },
            None => {
                vstd::pervasive::unreached()
            },
        }
        self.stats.bytes_sent = self.stats.bytes_sent.wrapping_add(send_buffer_len as u64);
        self.stats.sent = self.stats.sent.wrapping_add(1);
        let mut result = crate::endpoint::TachyonSendResult::default();
        result.sent_len = send_buffer_len as u32;
        result.header = header;
        proof {
            assert(frame@.subrange(header_len as int, header_len + body_len) =~= data@.subrange(
                0,
                body_len as int,
            ));
        }
        (result, OutgoingDatagram { address, data: frame })
    }

    /// Handles an inbound placeholder: it only advances the receive window.
    pub fn process_none_message(&mut self, sequence: u16, receive_buffer: &Vec<u8>,
        received_len: usize)
        requires
            old(self).wf(),
            received_len <= receive_buffer.len(),
        ensures
            final(self).wf(),
            final(self).id == old(self).id,
            final(self).address == old(self).address,
            final(self).nacked_sequence_map@ == old(self).nacked_sequence_map@,
            final(self).receiver@ == spec_receive_packet(
                old(self).receiver@,
                sequence,
                receive_buffer@,
                received_len as nat,
            ).0,
    {
        self.stats.nones_received = self.stats.nones_received.wrapping_add(1);
        if self.receiver.receive_packet(sequence, receive_buffer, received_len) {
            self.stats.nones_accepted = self.stats.nones_accepted.wrapping_add(1);
        }
    }

    /// Handles an inbound fragment: stores it in the assembler, and admits
    /// its sequence to the receiver carrying just the fragment header.
    pub fn process_fragment_message(
        &mut self,
        sequence: u16,
        receive_buffer: &Vec<u8>,
        received_len: usize,
        now_ms: u64,
    )
        requires
            old(self).wf(),
            received_len <= receive_buffer.len(),
        ensures
            final(self).wf(),
            final(self).id == old(self).id,
            final(self).address == old(self).address,
            final(self).nacked_sequence_map@ == old(self).nacked_sequence_map@,
            received_len < crate::header::TACHYON_FRAGMENTED_HEADER_SIZE ==> final(self).receiver@
                == old(self).receiver@,
            received_len >= crate::header::TACHYON_FRAGMENTED_HEADER_SIZE ==> final(self).receiver@ == spec_receive_packet(
                old(self).receiver@,
                sequence,
                receive_buffer@,
                crate::header::TACHYON_FRAGMENTED_HEADER_SIZE as nat,
            ).0,
    {
        let received_frag_res = self.frag.receive_fragment(receive_buffer, received_len, now_ms);
        if received_frag_res.0 {
            if self.receiver.receive_packet(
                sequence,
                receive_buffer,
                crate::header::TACHYON_FRAGMENTED_HEADER_SIZE,
            ) {
                self.stats.fragments_received = self.stats.fragments_received.wrapping_add(1);
            }
        }
    }

    /// Parses a standalone NACK message and folds every nacked sequence into
    /// the resend accumulator; malformed messages change nothing.
    pub fn process_nack_message(&mut self, address: NetworkAddress, receive_buffer: &Vec<u8>) -> (r:
        bool)
        requires
            old(self).wf(),
        ensures
            final(self).wf(),
            final(self).id == old(self).id,
            final(self).address == old(self).address,
            final(self).receiver == old(self).receiver,
            r == parse_nack_message(receive_buffer@, TACHYON_HEADER_SIZE as int) is Some,
            r ==> final(self).nacked_sequence_map@ == spec_nack_map_fold(
                old(self).nacked_sequence_map@,
                expansions(
                    parse_nack_message(receive_buffer@, TACHYON_HEADER_SIZE as int).unwrap().0,
                ),
                address,
            ),
            !r ==> final(self).nacked_sequence_map@ == old(self).nacked_sequence_map@,
    {
        self.nacked_sequences.clear();
        let ok = Nack::read_varint(&mut self.nacked_sequences, receive_buffer, TACHYON_HEADER_SIZE);
        if ok {
            self.copy_nacked_to_map(address);
        }
        ok
    }

    /// Folds the single piggybacked NACK of a reliable frame into the resend
    /// accumulator; a zero start sequence means no NACK was attached.
    pub fn process_single_nack(&mut self, address: NetworkAddress, receive_buffer: &Vec<u8>)
        requires
            old(self).wf(),
            TACHYON_HEADER_SIZE + 6 <= receive_buffer.len(),
        ensures
            final(self).wf(),
            final(self).id == old(self).id,
            final(self).address == old(self).address,
            final(self).receiver == old(self).receiver,
            ({
                let rec = record_at(receive_buffer@, TACHYON_HEADER_SIZE as int);
                if rec.start_sequence == 0 {
                    final(self).nacked_sequence_map@ == old(self).nacked_sequence_map@
                } else {
                    final(self).nacked_sequence_map@ == spec_nack_map_fold(
                        old(self).nacked_sequence_map@,
                        crate::nack::nack_expansion(rec),
                        address,
                    )
                }
            }),
    {
        self.nacked_sequences.clear();
        Nack::read_single(&mut self.nacked_sequences, receive_buffer, TACHYON_HEADER_SIZE);
        self.copy_nacked_to_map(address);
        proof {
            let rec = record_at(receive_buffer@, TACHYON_HEADER_SIZE as int);
            if rec.start_sequence == 0 {
                assert(spec_nack_map_fold(
                    old(self).nacked_sequence_map@,
                    Seq::<u16>::empty(),
                    address,
                ) == old(self).nacked_sequence_map@);
            }
        }
    }

    /// Records each listed sequence as nacked by `address`, newest address
    /// winning.
    fn copy_nacked_to_map(&mut self, address: NetworkAddress)
        requires
            old(self).wf(),
        ensures
            final(self).wf(),
            *final(self) == (Channel {
                nacked_sequence_map: final(self).nacked_sequence_map,
                ..*old(self)
            }),
            final(self).nacked_sequence_map@ == spec_nack_map_fold(
                old(self).nacked_sequence_map@,
                old(self).nacked_sequences@,
                address,
            ),
    {
        let ghost seqs = self.nacked_sequences@;
        let mut k: usize = 0;
        proof {
            assert(seqs.skip(0) =~= seqs);
        }
        while k < self.nacked_sequences.len()
            invariant
                k <= seqs.len(),
                seqs == self.nacked_sequences@,
                *self == (Channel {
                    nacked_sequence_map: self.nacked_sequence_map,
                    ..*old(self)
                }),
                forall|a: int, b: int|
                    0 <= a < b < self.nacked_sequence_map@.len() ==> (
                    #[trigger] self.nacked_sequence_map@[a]).0 != (
                    #[trigger] self.nacked_sequence_map@[b]).0,
                spec_nack_map_fold(old(self).nacked_sequence_map@, seqs, address)
                    == spec_nack_map_fold(
                    self.nacked_sequence_map@,
                    seqs.skip(k as int),
                    address,
                ),
            decreases seqs.len() - k,
        {
            let sequence = self.nacked_sequences[k];
            let ghost before = self.nacked_sequence_map@;
            let mut found = false;
            let mut j: usize = 0;
            while j < self.nacked_sequence_map.len()
                invariant_except_break
                    !found,
                    forall|i: int|
                        0 <= i < j ==> (#[trigger] self.nacked_sequence_map@[i]).0 != sequence,
                invariant
                    j <= self.nacked_sequence_map@.len(),
                    sequence == seqs[k as int],
                    0 <= k < seqs.len(),
                    seqs == self.nacked_sequences@,
                    forall|a: int, b: int|
                        0 <= a < b < before.len() ==> (#[trigger] before[a]).0 != (
                        #[trigger] before[b]).0,
                    !found ==> self.nacked_sequence_map@ == before,
                    found ==> self.nacked_sequence_map@ == spec_nack_map_upsert(
                        before,
                        sequence,
                        address,
                    ),
                    *self == (Channel {
                        nacked_sequence_map: self.nacked_sequence_map,
                        ..*old(self)
                    }),
                ensures
                    found ==> self.nacked_sequence_map@ == spec_nack_map_upsert(
                        before,
                        sequence,
                        address,
                    ),
                    !found ==> self.nacked_sequence_map@ == before && forall|i: int|
                        0 <= i < before.len() ==> (#[trigger] before[i]).0 != sequence,
                decreases self.nacked_sequence_map@.len() - j,
            {
                if self.nacked_sequence_map[j].0 == sequence {
                    self.nacked_sequence_map.set(j, (sequence, address));
                    found = true;
                    proof {
                        let w = choose|i: int|
                            0 <= i < before.len() && (#[trigger] before[i]).0 == sequence;
                        assert(before[j as int].0 == sequence);
                        assert(w == j);
                    }
                    break ;
                }
                j = j + 1;
            }
            if !found {
                self.nacked_sequence_map.push((sequence, address));
                proof {
                    assert(self.nacked_sequence_map@ == spec_nack_map_upsert(
                        before,
                        sequence,
                        address,
                    ));
                }
            }
            k = k + 1;
            proof {
                assert(seqs.skip(k as int - 1).drop_first() =~= seqs.skip(k as int));
                assert(seqs.skip(k as int - 1)[0] == sequence);
            }
        }
        proof {
            assert(seqs.skip(seqs.len() as int) =~= Seq::<u16>::empty());
        }
    }

    /// Takes one published message off the receiver's queue: placeholders
    /// are dropped, fragment markers trigger reassembly, reliable payloads
    /// are copied into `receive_buffer` with their headers stripped.
    /// Whatever the message was, its byte buffer is offered back to the
    /// receiver's pool exactly once.  Returns the payload length, the
    /// peer's address, and whether the queue is worth another look.
    pub fn receive_published_internal(&mut self, receive_buffer: &mut Vec<u8>) -> (r: (
        u32,
        NetworkAddress,
        bool,
    ))
        requires
            old(self).wf(),
        ensures
            final(self).wf(),
            final(self).id == old(self).id,
            final(self).address == old(self).address,
            r.1 == old(self).address,
            final(receive_buffer).len() == old(receive_buffer).len(),
            old(self).receiver@.published.len() == 0 ==> r == (0u32, old(self).address, false)
                && final(self).receiver@ == old(self).receiver@,
            old(self).receiver@.published.len() > 0 ==> final(self).receiver@.published == old(self).receiver@.published.drop_first() && r.2,
            // buffer accounting: the consumed message's buffer goes back to
            // the pool exactly once, whatever kind of message it was
            old(self).receiver@.published.len() > 0 ==> final(self).receiver@.pool
                == crate::buffer_pool::spec_pool_return(
                old(self).receiver@.pool,
                old(self).receiver@.published[0],
            ).0,
            old(self).receiver@.published.len() > 0 && old(self).receiver@.published[0].wf()
                && ({
                let msg = old(self).receiver@.published[0].payload();
                msg.len() >= TACHYON_HEADER_SIZE && msg[0] == MESSAGE_TYPE_RELIABLE && msg.len()
                    - TACHYON_HEADER_SIZE <= old(receive_buffer).len() && msg.len()
                    <= 0xffff_ffff
            }) ==> ({
                let msg = old(self).receiver@.published[0].payload();
                &&& r.0 == msg.len() - TACHYON_HEADER_SIZE
                &&& final(receive_buffer)@.take(r.0 as int) == msg.skip(
                    TACHYON_HEADER_SIZE as int,
                )
            }),
            old(self).receiver@.published.len() > 0 && old(self).receiver@.published[0].wf()
                && ({
                let msg = old(self).receiver@.published[0].payload();
                msg.len() >= TACHYON_NACKED_HEADER_SIZE && msg[0]
                    == MESSAGE_TYPE_RELIABLE_WITH_NACK && msg.len() - TACHYON_NACKED_HEADER_SIZE
                    <= old(receive_buffer).len() && msg.len() <= 0xffff_ffff
            }) ==> ({
                let msg = old(self).receiver@.published[0].payload();
                &&& r.0 == msg.len() - TACHYON_NACKED_HEADER_SIZE
                &&& final(receive_buffer)@.take(r.0 as int) == msg.skip(
                    TACHYON_NACKED_HEADER_SIZE as int,
                )
            }),
            old(self).receiver@.published.len() > 0 && old(self).receiver@.published[0].wf()
                && ({
                let msg = old(self).receiver@.published[0].payload();
                msg.len() >= TACHYON_HEADER_SIZE && msg[0] == MESSAGE_TYPE_NONE
            }) ==> r.0 == 0,
            // a fragment marker whose group is complete hands back the
            // assembled body and drops the group
            old(self).receiver@.published.len() > 0 && old(self).receiver@.published[0].wf()
                && ({
                let msg = old(self).receiver@.published[0].payload();
                &&& msg.len() >= crate::header::TACHYON_FRAGMENTED_HEADER_SIZE
                &&& msg[0] == crate::header::MESSAGE_TYPE_FRAGMENT
                &&& ({
                    let fh = crate::header::fragmented_header_at(msg);
                    let group = crate::fragmentation::spec_group(
                        old(self).frag.received@,
                        fh.fragment_group,
                    );
                    let assembled = crate::fragmentation::spec_assembled(
                        group,
                        fh.fragment_start_sequence,
                        fh.fragment_count as nat,
                    );
                    &&& old(self).frag.received@.contains_key(fh.fragment_group)
                    &&& group.len() == fh.fragment_count
                    &&& assembled is Some
                    &&& assembled.unwrap().len() <= old(receive_buffer).len()
                    &&& assembled.unwrap().len() <= 0xffff_ffff
                })
            }) ==> ({
                let msg = old(self).receiver@.published[0].payload();
                let fh = crate::header::fragmented_header_at(msg);
                let body = crate::fragmentation::spec_assembled(
                    crate::fragmentation::spec_group(
                        old(self).frag.received@,
                        fh.fragment_group,
                    ),
                    fh.fragment_start_sequence,
                    fh.fragment_count as nat,
                ).unwrap();
                &&& r.0 == body.len()
                &&& final(receive_buffer)@.take(r.0 as int) == body
                &&& final(self).frag.received@ == old(self).frag.received@.remove(
                    fh.fragment_group,
                )
            }),
    {
        let taken = self.receiver.take_published();
        let byte_buffer = match taken {
            Some(b) => b,
            None => {
                return (0, self.address, false);
            },
        };
        let buffer_len = byte_buffer.length;
        if buffer_len < TACHYON_HEADER_SIZE || buffer_len > byte_buffer.data.len() {
            self.receiver.return_buffer(byte_buffer);
            return (0, self.address, true);
        }
        let message_type = byte_buffer.data[0];
        if message_type == MESSAGE_TYPE_NONE {
            self.receiver.return_buffer(byte_buffer);
            return (0, self.address, true);
        }
        if message_type == crate::header::MESSAGE_TYPE_FRAGMENT {
            if buffer_len < crate::header::TACHYON_FRAGMENTED_HEADER_SIZE {
                self.receiver.return_buffer(byte_buffer);
                return (0, self.address, true);
            }
            let header = Header::read_fragmented(&byte_buffer.data);
            proof {
                let msg = old(self).receiver@.published[0].payload();
                assert(crate::header::fragmented_header_at(byte_buffer@.data)
                    == crate::header::fragmented_header_at(msg));
            }
            match self.frag.assemble(header) {
                Ok(res) => {
                    self.receiver.return_buffer(byte_buffer);
                    if res.len() <= receive_buffer.len() {
                        let assembled_len = res.len();
                        crate::int_buffer::copy_bytes(receive_buffer, 0, &res, 0, assembled_len);
                        proof {
                            assert(receive_buffer@.take(assembled_len as int) =~= res@);
                        }
                        self.stats.received = self.stats.received.wrapping_add(1);
                        self.stats.fragments_assembled = self.stats.fragments_assembled
                            .wrapping_add(header.fragment_count as u64);
                        self.stats.published_consumed = self.stats.published_consumed.wrapping_add(
                            1,
                        );
                        return (assembled_len as u32, self.address, true);
                    } else {
                        return (0, self.address, true);
                    }
                },
                Err(_) => {
                    self.receiver.return_buffer(byte_buffer);
                    return (0, self.address, true);
                },
            }
        }
        let header_size: usize = if message_type == MESSAGE_TYPE_RELIABLE_WITH_NACK {
            TACHYON_NACKED_HEADER_SIZE
        } else if message_type == MESSAGE_TYPE_RELIABLE {
            TACHYON_HEADER_SIZE
        } else {
            self.receiver.return_buffer(byte_buffer);
            return (0, self.address, true);
        };
        if buffer_len < header_size || buffer_len - header_size > receive_buffer.len()
            || buffer_len > 0xffff_ffffusize {
            self.receiver.return_buffer(byte_buffer);
            return (0, self.address, true);
        }
        let body_len = buffer_len - header_size;
        crate::int_buffer::copy_bytes(receive_buffer, 0, &byte_buffer.data, header_size, body_len);
        self.receiver.return_buffer(byte_buffer);
        self.stats.published_consumed = self.stats.published_consumed.wrapping_add(1);
        proof {
            let msg = old(self).receiver@.published[0].payload();
            assert(receive_buffer@.take(body_len as int) =~= msg.skip(header_size as int));
        }
        (body_len as u32, self.address, true)
    }

    /// Drains published messages until one with a payload arrives or the
    /// queue runs dry, returning the payload length and the peer's address.
    /// When the queue head is a well-formed reliable message with a payload
    /// that fits, that payload is what comes back, its buffer returned to
    /// the pool.
    pub fn receive_published(&mut self, receive_buffer: &mut Vec<u8>) -> (r: (u32, NetworkAddress))
        requires
            old(self).wf(),
        ensures
            final(self).wf(),
            final(self).id == old(self).id,
            final(self).address == old(self).address,
            r.1 == old(self).address,
            final(receive_buffer).len() == old(receive_buffer).len(),
            old(self).receiver@.published.len() == 0 ==> r.0 == 0 && final(self).receiver@ == old(self).receiver@,
            old(self).receiver@.published.len() > 0 && old(self).receiver@.published[0].wf()
                && ({
                let msg = old(self).receiver@.published[0].payload();
                &&& msg.len() > TACHYON_HEADER_SIZE
                &&& msg[0] == MESSAGE_TYPE_RELIABLE
                &&& msg.len() - TACHYON_HEADER_SIZE <= old(receive_buffer).len()
                &&& msg.len() <= 0xffff_ffff
            }) ==> ({
                let msg = old(self).receiver@.published[0].payload();
                &&& r.0 == msg.len() - TACHYON_HEADER_SIZE
                &&& final(receive_buffer)@.take(r.0 as int) == msg.skip(TACHYON_HEADER_SIZE as int)
                &&& final(self).receiver@.published == old(self).receiver@.published.drop_first()
                &&& final(self).receiver@.pool == crate::buffer_pool::spec_pool_return(
                    old(self).receiver@.pool,
                    old(self).receiver@.published[0],
                ).0
            }),
            old(self).receiver@.published.len() > 0 && old(self).receiver@.published[0].wf()
                && ({
                let msg = old(self).receiver@.published[0].payload();
                &&& msg.len() > TACHYON_NACKED_HEADER_SIZE
                &&& msg[0] == MESSAGE_TYPE_RELIABLE_WITH_NACK
                &&& msg.len() - TACHYON_NACKED_HEADER_SIZE <= old(receive_buffer).len()
                &&& msg.len() <= 0xffff_ffff
            }) ==> ({
                let msg = old(self).receiver@.published[0].payload();
                &&& r.0 == msg.len() - TACHYON_NACKED_HEADER_SIZE
                &&& final(receive_buffer)@.take(r.0 as int) == msg.skip(
                    TACHYON_NACKED_HEADER_SIZE as int,
                )
                &&& final(self).receiver@.published == old(self).receiver@.published.drop_first()
            }),
            old(self).receiver@.published.len() > 0 && old(self).receiver@.published[0].wf()
                && spec_head_completes_group(*old(self), old(receive_buffer).len() as int) ==> ({
                let msg = old(self).receiver@.published[0].payload();
                let fh = crate::header::fragmented_header_at(msg);
                let body = crate::fragmentation::spec_assembled(
                    crate::fragmentation::spec_group(
                        old(self).frag.received@,
                        fh.fragment_group,
                    ),
                    fh.fragment_start_sequence,
                    fh.fragment_count as nat,
                ).unwrap();
                &&& r.0 == body.len()
                &&& final(receive_buffer)@.take(r.0 as int) == body
                &&& final(self).receiver@.published == old(self).receiver@.published.drop_first()
                &&& final(self).frag.received@ == old(self).frag.received@.remove(
                    fh.fragment_group,
                )
            }),
    {
        let first = self.receive_published_internal(receive_buffer);
        if first.0 > 0 {
            return (first.0, first.1);
        }
        if !first.2 {
            return (0, self.address);
        }
        let mut attempts: u32 = 0;
        while attempts < 1000
            invariant
                self.wf(),
                self.id == old(self).id,
                self.address == old(self).address,
                receive_buffer.len() == old(receive_buffer).len(),
                old(self).receiver@.published.len() > 0,
                !(old(self).receiver@.published[0].wf() && ({
                    let msg = old(self).receiver@.published[0].payload();
                    &&& msg.len() > TACHYON_HEADER_SIZE
                    &&& msg[0] == MESSAGE_TYPE_RELIABLE
                    &&& msg.len() - TACHYON_HEADER_SIZE <= old(receive_buffer).len()
                    &&& msg.len() <= 0xffff_ffff
                })),
                !(old(self).receiver@.published[0].wf() && ({
                    let msg = old(self).receiver@.published[0].payload();
                    &&& msg.len() > TACHYON_NACKED_HEADER_SIZE
                    &&& msg[0] == MESSAGE_TYPE_RELIABLE_WITH_NACK
                    &&& msg.len() - TACHYON_NACKED_HEADER_SIZE <= old(receive_buffer).len()
                    &&& msg.len() <= 0xffff_ffff
                })),
                !(old(self).receiver@.published[0].wf() && spec_head_completes_group(
                    *old(self),
                    old(receive_buffer).len() as int,
                )),
            ensures
                self.wf(),
                self.id == old(self).id,
                self.address == old(self).address,
                receive_buffer.len() == old(receive_buffer).len(),
            decreases 1000 - attempts,
        {
            let res = self.receive_published_internal(receive_buffer);
            if res.0 > 0 {
                return (res.0, res.1);
            }
            if !res.2 {
                break ;
            }
            attempts = attempts + 1;
        }
        (0, self.address)
    }

    /// One update tick: publishes what is ready, rebuilds and emits a
    /// standalone NACK sweep for the gaps, and answers every accumulated
    /// inbound NACK with a retransmission — the retained frame, rewritten to
    /// plain reliable if it carried a piggybacked NACK, or a placeholder
    /// when the frame is gone.
    pub fn update(&mut self) -> (r: Vec<OutgoingDatagram>)
        requires
            old(self).wf(),
        ensures
            final(self).wf(),
            final(self).id == old(self).id,
            final(self).address == old(self).address,
            final(self).nacked_sequence_map@.len() == 0,
            final(self).send_buffers == old(self).send_buffers,
            // the tick rebuilds the NACK lists from the current gaps and
            // runs one publication walk
            ({
                let recs = crate::receiver::spec_nack_outer(
                    old(self).receiver@.received,
                    old(self).receiver@.current,
                    crate::sequence::seq_prev(old(self).receiver@.last),
                    Seq::empty(),
                    0u32,
                    (old(self).receiver@.window / 32) as nat,
                ).0;
                &&& final(self).receiver.nack_list@ == recs
                &&& final(self).receiver.nack_queue@ == recs
            }),
            final(self).receiver@ == crate::receiver::with_walk(
                old(self).receiver@,
                crate::receiver::spec_publish_walk(
                    crate::receiver::walk_of(old(self).receiver@),
                    old(self).receiver@.current,
                    crate::sequence::seq_next(old(self).receiver@.last),
                    old(self).receiver@.window,
                    true,
                    old(self).receiver@.is_ordered,
                ),
            ),
            ({
                let sweeps: int = if final(self).receiver.nack_list@.len() > 0 {
                    1int
                } else {
                    0int
                };
                &&& r@.len() == sweeps + old(self).nacked_sequence_map@.len()
                &&& (final(self).receiver.nack_list@.len() > 0 ==> r@[0].address == old(self).address && r@[0].data@ == seq![
                    MESSAGE_TYPE_NACK,
                    old(self).id,
                    0u8,
                    0u8,
                ] + nack_varint_stream(final(self).receiver.nack_list@))
                &&& forall|e: int| #![auto]
                    0 <= e < old(self).nacked_sequence_map@.len() ==> r@[sweeps + e].address
                        == old(self).nacked_sequence_map@[e].1 && r@[sweeps + e].data@
                        == spec_resend_bytes(
                        old(self).send_buffers.buffers.values@[old(self).nacked_sequence_map@[e].0 as int % 1024],
                        old(self).id,
                        old(self).nacked_sequence_map@[e].0,
                    )
            }),
    {
        let mut out: Vec<OutgoingDatagram> = Vec::new();
        let nack_count = self.receiver.create_nacks();
        proof {
            crate::receiver::lemma_nack_outer_len(
                old(self).receiver@.received,
                old(self).receiver@.current,
                crate::sequence::seq_prev(old(self).receiver@.last),
                Seq::empty(),
                0u32,
                (old(self).receiver@.window / 32) as nat,
            );
        }
        if self.receiver.nack_list.len() > 0 {
            let mut sweep: Vec<u8> = vec![0u8; TACHYON_HEADER_SIZE + 3 + 8 * self.receiver.nack_list.len()];
            sweep.set(0, MESSAGE_TYPE_NACK);
            sweep.set(1, self.id);
            proof {
                crate::nack::lemma_varint_records_upto_len(
                    self.receiver.nack_list@,
                    self.receiver.nack_list@.len() as int,
                );
            }
            let position = Nack::write_varint(
                &self.receiver.nack_list,
                &mut sweep,
                TACHYON_HEADER_SIZE as u64,
            );
            sweep.truncate(position as usize);
            proof {
                assert(sweep@ =~= seq![MESSAGE_TYPE_NACK, old(self).id, 0u8, 0u8]
                    + nack_varint_stream(self.receiver.nack_list@));
            }
            out.push(OutgoingDatagram { address: self.address, data: sweep });
            self.stats.nacks_sent = self.stats.nacks_sent.wrapping_add(nack_count as u64);
        }
        let ghost sweeps: int = out@.len() as int;
        let ghost out0 = out@;
        let ghost entries = self.nacked_sequence_map@;
        let ghost recv0 = self.receiver;
        let mut e: usize = 0;
        while e < self.nacked_sequence_map.len()
            invariant
                e <= entries.len(),
                entries == self.nacked_sequence_map@,
                self.wf(),
                self.id == old(self).id,
                self.address == old(self).address,
                self.send_buffers == old(self).send_buffers,
                self.receiver == recv0,
                out@.len() == sweeps + e,
                sweeps == out0.len(),
                out@.subrange(0, sweeps) == out0,
                forall|j: int| #![auto]
                    0 <= j < e ==> out@[sweeps + j].address == entries[j].1 && out@[sweeps
                        + j].data@ == spec_resend_bytes(
                        old(self).send_buffers.buffers.values@[entries[j].0 as int % 1024],
                        old(self).id,
                        entries[j].0,
                    ),
            decreases entries.len() - e,
        {
            let entry = self.nacked_sequence_map[e];
            let sequence = entry.0;
            let address = entry.1;
            self.stats.nacks_received = self.stats.nacks_received.wrapping_add(1);
            let ghost out_before = out@;
            match self.send_buffers.buffers.get(sequence) {
                Some(send_buffer) => {
                    let len = send_buffer.byte_buffer.length;
                    let mut stored_bytes: Vec<u8> = Vec::new();
                    crate::int_buffer::append_bytes(
                        &mut stored_bytes,
                        &send_buffer.byte_buffer.data,
                        0,
                        len,
                    );
                    proof {
                        assert(stored_bytes@ =~= send_buffer.byte_buffer@.data.take(len as int));
                    }
                    let rewrite = len >= TACHYON_NACKED_HEADER_SIZE && stored_bytes[0]
                        == MESSAGE_TYPE_RELIABLE_WITH_NACK;
                    if rewrite {
                        let mut rb: Vec<u8> = vec![0u8; len];
                        let r_len = Channel::rewrite_reliable_nack_to_reliable(
                            &mut rb,
                            &stored_bytes,
                        );
                        rb.truncate(r_len);
                        proof {
                            assert(rb@ =~= spec_resend_bytes(
                                old(self).send_buffers.buffers.values@[sequence as int % 1024],
                                old(self).id,
                                sequence,
                            ));
                        }
                        out.push(OutgoingDatagram { address, data: rb });
                    } else {
                        out.push(OutgoingDatagram { address, data: stored_bytes });
                    }
                    self.stats.resent = self.stats.resent.wrapping_add(1);
                },
                None => {
                    let mut none_packet: Vec<u8> = Vec::new();
                    none_packet.push(MESSAGE_TYPE_NONE);
                    none_packet.push(self.id);
                    none_packet.push((sequence & 0xff) as u8);
                    none_packet.push(((sequence >> 8) & 0xff) as u8);
                    proof {
                        assert(none_packet@ =~= spec_resend_bytes(
                            old(self).send_buffers.buffers.values@[sequence as int % 1024],
                            old(self).id,
                            sequence,
                        ));
                    }
                    out.push(OutgoingDatagram { address, data: none_packet });
                    self.stats.nones_sent = self.stats.nones_sent.wrapping_add(1);
                },
            }
            e = e + 1;
            proof {
                assert(out@.subrange(0, sweeps) =~= out0);
            }
        }
        self.nacked_sequence_map.clear();
        self.receiver.publish();
        proof {
            assert(out@.subrange(0, sweeps) =~= out0);
            if recv0.nack_list@.len() > 0 {
                assert(sweeps == 1);
                assert(out@[0] == out0[0]);
                assert(out0[0].address == old(self).address);
                assert(out0[0].data@ == seq![MESSAGE_TYPE_NACK, old(self).id, 0u8, 0u8]
                    + nack_varint_stream(recv0.nack_list@));
            }
            assert(final(self).receiver.nack_list@ == recv0.nack_list@);
        }
        out
    }

    /// Rewrites a retained piggybacked frame into a plain reliable frame so
    /// stale NACK information is not resent: the ten-byte header shrinks to
    /// four bytes, the body is kept.
    pub fn rewrite_reliable_nack_to_reliable(rewrite_buffer: &mut Vec<u8>, send_buffer: &Vec<u8>)
        -> (r: usize)
        requires
            send_buffer.len() >= TACHYON_NACKED_HEADER_SIZE,
            old(rewrite_buffer).len() >= send_buffer.len(),
        ensures
            final(rewrite_buffer).len() == old(rewrite_buffer).len(),
            r == send_buffer.len() - 6,
            final(rewrite_buffer)@.take(r as int) == seq![
                MESSAGE_TYPE_RELIABLE,
                send_buffer@[1],
                send_buffer@[2],
                send_buffer@[3],
            ] + send_buffer@.skip(TACHYON_NACKED_HEADER_SIZE as int),
    {
        let src_body_len = send_buffer.len() - TACHYON_NACKED_HEADER_SIZE;
        crate::int_buffer::copy_bytes(
            rewrite_buffer,
            TACHYON_HEADER_SIZE,
            send_buffer,
            TACHYON_NACKED_HEADER_SIZE,
            src_body_len,
        );
        rewrite_buffer.set(0, MESSAGE_TYPE_RELIABLE);
        crate::int_buffer::copy_bytes(rewrite_buffer, 1, send_buffer, 1, 3);
        proof {
            assert(rewrite_buffer@.take((send_buffer.len() - 6) as int) =~= seq![
                MESSAGE_TYPE_RELIABLE,
                send_buffer@[1],
                send_buffer@[2],
                send_buffer@[3],
            ] + send_buffer@.skip(TACHYON_NACKED_HEADER_SIZE as int));
        }
        TACHYON_HEADER_SIZE + src_body_len
    }
}

} // verus!
