use std::collections::HashMap;

use vstd::prelude::*;

use crate::channel::{Channel, ChannelConfig, ChannelStats, OutgoingDatagram};
use crate::connection::{Connection, Identity};
use crate::fragmentation::Fragmentation;
use crate::header::{
    spec_header_default, ConnectionHeader, Header, MESSAGE_TYPE_FRAGMENT,
    MESSAGE_TYPE_IDENTITY_LINKED, MESSAGE_TYPE_IDENTITY_UNLINKED, MESSAGE_TYPE_LINK_IDENTITY,
    MESSAGE_TYPE_NACK, MESSAGE_TYPE_NONE, MESSAGE_TYPE_RELIABLE, MESSAGE_TYPE_RELIABLE_WITH_NACK,
    MESSAGE_TYPE_UNLINK_IDENTITY, MESSAGE_TYPE_UNRELIABLE, TACHYON_CONNECTION_HEADER_SIZE,
    TACHYON_HEADER_SIZE,
};
use crate::network_address::NetworkAddress;
use crate::receive_result::{ReceiveResult, TachyonReceiveResult};

verus! {

pub const SEND_ERROR_CHANNEL: u32 = 2;

pub const SEND_ERROR_SOCKET: u32 = 1;

pub const SEND_ERROR_FRAGMENT: u32 = 3;

pub const SEND_ERROR_UNKNOWN: u32 = 4;

pub const SEND_ERROR_LENGTH: u32 = 5;

pub const SEND_ERROR_IDENTITY: u32 = 6;

/// Milliseconds between identity link attempts from an unlinked client.
pub const IDENTITY_SEND_INTERVAL_MS: u64 = 300;

/// Result of one send call: bytes framed for the wire, an error code (zero
/// meaning success) and the header that was written.
#[derive(Clone, Copy, PartialEq, Eq, Structural, Debug)]
pub struct TachyonSendResult {
    pub sent_len: u32,
    pub error: u32,
    pub header: Header,
}

impl Default for TachyonSendResult {
    fn default() -> (r: Self)
        ensures
            r == (TachyonSendResult { sent_len: 0, error: 0, header: spec_header_default() }),
    {
        TachyonSendResult { sent_len: 0, error: 0, header: Header::default() }
    }
}

/// Outcome of creating, binding or connecting a socket.
pub enum CreateConnectResult {
    Success,
    Error,
}

/// What one socket read produced: a datagram with its source, nothing,
/// a failure, or a simulated drop.
pub enum SocketReceiveResult {
    Success { bytes_received: usize, network_address: NetworkAddress },
    Empty,
    Error,
    Dropped,
}

/// Endpoint-wide counters on top of the per-channel ones.
#[derive(Clone, Copy, PartialEq, Eq, Structural, Debug)]
pub struct TachyonStats {
    pub channel_stats: ChannelStats,
    pub packets_dropped: u64,
    pub unreliable_sent: u64,
    pub unreliable_received: u64,
}

impl Default for TachyonStats {
    fn default() -> (r: Self)
        ensures
            r == (TachyonStats {
                channel_stats: crate::channel::spec_channel_stats_zero(),
                packets_dropped: 0,
                unreliable_sent: 0,
                unreliable_received: 0,
            }),
    {
        TachyonStats {
            channel_stats: ChannelStats::default(),
            packets_dropped: 0,
            unreliable_sent: 0,
            unreliable_received: 0,
        }
    }
}

/// Endpoint configuration: identity gating and the simulated-drop settings
/// that the socket layer reads.
#[derive(Clone, Copy, PartialEq, Eq, Structural, Debug)]
pub struct TachyonConfig {
    pub use_identity: u32,
    pub drop_packet_chance: u64,
    pub drop_reliable_only: u32,
}

impl Default for TachyonConfig {
    fn default() -> (r: Self)
        ensures
            r == (TachyonConfig { use_identity: 0, drop_packet_chance: 0, drop_reliable_only: 0 }),
    {
        TachyonConfig { use_identity: 0, drop_packet_chance: 0, drop_reliable_only: 0 }
    }
}

/// One endpoint's protocol state: its peer connections, identity table and
/// per-peer channels.  The socket itself lives with the caller, which feeds
/// arriving datagrams in and transmits what comes back out.
pub struct Tachyon {
    pub id: u16,
    pub is_server: bool,
    pub has_socket: bool,
    pub identities: HashMap<u32, u32>,
    pub connections: Vec<Connection>,
    pub identity_to_address_map: HashMap<u32, NetworkAddress>,
    pub channels: Vec<Channel>,
    pub channel_config: Vec<(u8, ChannelConfig)>,
    pub config: TachyonConfig,
    pub stats: TachyonStats,
    pub last_identity_link_request: u64,
    pub identity: Identity,
}

/// When an unlinked client owes the server a link request: gating is on, a
/// socket exists, the identity is set and not linked, and the retry
/// interval has passed (or no request was ever sent).
pub open spec fn spec_link_request_due(t: Tachyon, now_ms: u64) -> bool {
    &&& t.config.use_identity == 1
    &&& t.has_socket
    &&& !t.is_server
    &&& t.identity.id > 0
    &&& t.identity.session_id > 0
    &&& t.identity.linked != 1
    &&& ((now_ms > t.last_identity_link_request && now_ms - t.last_identity_link_request
        > IDENTITY_SEND_INTERVAL_MS) || t.last_identity_link_request == 0)
}

/// The identity carried by the connection at `address`, or the zero
/// identity when the peer has no connection.
pub open spec fn spec_connection_identity(t: Tachyon, address: NetworkAddress) -> Identity {
    if exists|i: int|
        0 <= i < t.connections@.len() && (#[trigger] t.connections@[i]).address == address {
        let i = choose|i: int|
            0 <= i < t.connections@.len() && (#[trigger] t.connections@[i]).address == address;
        t.connections@[i].identity
    } else {
        Identity { id: 0, session_id: 0, linked: 0 }
    }
}

/// Whether a connection at `address` already carries this identity and
/// session.
pub open spec fn spec_connection_linked_here(
    t: Tachyon,
    address: NetworkAddress,
    id: u32,
    session_id: u32,
) -> bool {
    spec_connection_identity(t, address).id == id && spec_connection_identity(
        t,
        address,
    ).session_id == session_id
}

/// Whether `channels` holds a channel for this peer and id.
pub open spec fn spec_has_channel(channels: Seq<Channel>, address: NetworkAddress, id: u8) -> bool {
    exists|i: int|
        0 <= i < channels.len() && (#[trigger] channels[i]).address == address && channels[i].id
            == id
}

/// Whether `i` is the first index holding this peer's channel with this id
/// -- the one every lookup resolves to.
pub open spec fn spec_first_channel_match(
    channels: Seq<Channel>,
    address: NetworkAddress,
    id: u8,
    i: int,
) -> bool {
    &&& 0 <= i < channels.len()
    &&& channels[i].address == address
    &&& channels[i].id == id
    &&& forall|j: int|
        0 <= j < i ==> !((#[trigger] channels[j]).address == address && channels[j].id == id)
}

/// Whether an arriving data packet passes the identity gate: servers under
/// gating require an identity-bearing connection at the source address;
/// clients under gating must themselves be linked; without gating everyone
/// passes.
pub open spec fn spec_gate_passes(t: Tachyon, address: NetworkAddress) -> bool {
    if t.is_server {
        t.config.use_identity != 1 || spec_connection_identity(t, address).id != 0
    } else {
        t.config.use_identity != 1 || (t.identity.id > 0 && t.identity.session_id > 0
            && t.identity.linked == 1)
    }
}

/// Whether a message type falls through to the channel dispatcher rather
/// than being consumed by the identity handshake or the unreliable path.
pub open spec fn spec_reaches_channel(t: Tachyon, message_type: u8) -> bool {
    &&& message_type != MESSAGE_TYPE_UNRELIABLE
    &&& !(t.is_server && t.config.use_identity == 1 && (message_type == MESSAGE_TYPE_LINK_IDENTITY
        || message_type == MESSAGE_TYPE_UNLINK_IDENTITY))
    &&& !(!t.is_server && t.config.use_identity == 1 && (message_type
        == MESSAGE_TYPE_IDENTITY_LINKED || message_type == MESSAGE_TYPE_IDENTITY_UNLINKED))
}

/// How many datagrams one channel's tick emits: one NACK sweep when the
/// scan finds gaps, plus one resend (or placeholder) per accumulated
/// inbound NACK.
pub open spec fn spec_channel_update_len(c: Channel) -> int {
    (if crate::receiver::spec_nack_outer(
        c.receiver@.received,
        c.receiver@.current,
        crate::sequence::seq_prev(c.receiver@.last),
        Seq::empty(),
        0u32,
        (c.receiver@.window / 32) as nat,
    ).0.len() > 0 {
        1int
    } else {
        0int
    }) + c.nacked_sequence_map@.len()
}

/// What one tick does to one channel: the NACK lists are rebuilt from the
/// current gaps, the inbound-NACK accumulator is emptied, one publication
/// walk runs, and the channel keeps its identity.
pub open spec fn spec_channel_ticked(c0: Channel, c1: Channel) -> bool {
    let recs = crate::receiver::spec_nack_outer(
        c0.receiver@.received,
        c0.receiver@.current,
        crate::sequence::seq_prev(c0.receiver@.last),
        Seq::empty(),
        0u32,
        (c0.receiver@.window / 32) as nat,
    ).0;
    &&& c1.nacked_sequence_map@.len() == 0
    &&& c1.receiver.nack_list@ == recs
    &&& c1.receiver.nack_queue@ == recs
    &&& c1.receiver@ == crate::receiver::with_walk(
        c0.receiver@,
        crate::receiver::spec_publish_walk(
            crate::receiver::walk_of(c0.receiver@),
            c0.receiver@.current,
            crate::sequence::seq_next(c0.receiver@.last),
            c0.receiver@.window,
            true,
            c0.receiver@.is_ordered,
        ),
    )
    &&& c1.id == c0.id
    &&& c1.address == c0.address
}

/// Total datagrams an endpoint tick emits across its channels.
pub open spec fn spec_update_out_len(channels: Seq<Channel>) -> int
    decreases channels.len(),
{
    if channels.len() == 0 {
        0
    } else {
        spec_update_out_len(channels.drop_last()) + spec_channel_update_len(channels.last())
    }
}

/// The tick budget of a prefix grows one channel at a time.
pub proof fn lemma_update_out_len_take(channels: Seq<Channel>, i: int)
    requires
        0 <= i < channels.len(),
    ensures
        spec_update_out_len(channels.take(i + 1)) == spec_update_out_len(channels.take(i))
            + spec_channel_update_len(channels[i]),
{
    assert(channels.take(i + 1).drop_last() =~= channels.take(i));
    assert(channels.take(i + 1).last() == channels[i]);
}

/// Whether a channel's published queue starts with a well-formed plain
/// reliable message whose stripped payload is nonempty and fits a buffer of
/// the given size.
pub open spec fn spec_head_fits_reliable(c: Channel, buffer_len: int) -> bool {
    &&& c.receiver@.published.len() > 0
    &&& c.receiver@.published[0].wf()
    &&& c.receiver@.published[0].payload().len() > crate::header::TACHYON_HEADER_SIZE
    &&& c.receiver@.published[0].payload()[0] == MESSAGE_TYPE_RELIABLE
    &&& c.receiver@.published[0].payload().len() - crate::header::TACHYON_HEADER_SIZE
        <= buffer_len
    &&& c.receiver@.published[0].payload().len() <= 0xffff_ffff
}

impl Tachyon {
    pub open spec fn wf(self) -> bool {
        &&& forall|i: int|
            0 <= i < self.channels@.len() ==> (#[trigger] self.channels@[i]).wf()
        &&& forall|i: int, j: int|
            0 <= i < j < self.connections@.len() ==> (#[trigger] self.connections@[i]).address
                != (#[trigger] self.connections@[j]).address
    }

    pub fn create(config: TachyonConfig) -> (r: Self)
        ensures
            r.wf(),
            r.id == 0,
            r.config == config,
            r.channels@.len() == 0,
            r.connections@.len() == 0,
            r.channel_config@.len() == 2,
            r.channel_config@[0] == (1u8, ChannelConfig {
                ordered: 1,
                receive_window_size: crate::channel::RECEIVE_WINDOW_SIZE_DEFAULT,
                nack_redundancy: crate::channel::NACK_REDUNDANCY_DEFAULT,
            }),
            r.channel_config@[1] == (2u8, ChannelConfig {
                ordered: 0,
                receive_window_size: crate::channel::RECEIVE_WINDOW_SIZE_DEFAULT,
                nack_redundancy: crate::channel::NACK_REDUNDANCY_DEFAULT,
            }),
            r.identity == (Identity { id: 0, session_id: 0, linked: 0 }),
            !r.is_server,
            !r.has_socket,
    {
        Tachyon::create_with_id(config, 0)
    }

    pub fn create_with_id(config: TachyonConfig, id: u16) -> (r: Self)
        ensures
            r.wf(),
            r.id == id,
            r.config == config,
            r.channels@.len() == 0,
            r.connections@.len() == 0,
            r.channel_config@.len() == 2,
            r.channel_config@[0] == (1u8, ChannelConfig {
                ordered: 1,
                receive_window_size: crate::channel::RECEIVE_WINDOW_SIZE_DEFAULT,
                nack_redundancy: crate::channel::NACK_REDUNDANCY_DEFAULT,
            }),
            r.channel_config@[1] == (2u8, ChannelConfig {
                ordered: 0,
                receive_window_size: crate::channel::RECEIVE_WINDOW_SIZE_DEFAULT,
                nack_redundancy: crate::channel::NACK_REDUNDANCY_DEFAULT,
            }),
            r.identity == (Identity { id: 0, session_id: 0, linked: 0 }),
            !r.is_server,
            !r.has_socket,
    {
        let mut channel_config: Vec<(u8, ChannelConfig)> = Vec::new();
        channel_config.push((1, ChannelConfig::default_ordered()));
        channel_config.push((2, ChannelConfig::default_unordered()));
        Tachyon {
            id,
            is_server: false,
            has_socket: false,
            identities: HashMap::new(),
            connections: Vec::new(),
            identity_to_address_map: HashMap::new(),
            channels: Vec::new(),
            channel_config,
            config,
            stats: TachyonStats::default(),
            last_identity_link_request: 0,
            identity: Identity::default(),
        }
    }

    /// Index of this peer's first channel with this id, if configured.
    fn find_channel_index(&self, address: NetworkAddress, channel_id: u8) -> (r: Option<usize>)
        ensures
            match r {
                Some(i) => spec_first_channel_match(self.channels@, address, channel_id, i as int),
                None => !spec_has_channel(self.channels@, address, channel_id),
            },
    {
        let mut i: usize = 0;
        while i < self.channels.len()
            invariant
                i <= self.channels@.len(),
                forall|j: int|
                    0 <= j < i ==> !((#[trigger] self.channels@[j]).address == address
                        && self.channels@[j].id == channel_id),
            decreases self.channels@.len() - i,
        {
            if self.channels[i].address == address && self.channels[i].id == channel_id {
                return Some(i);
            }
            i = i + 1;
        }
        None
    }

    pub fn get_channel(&mut self, address: NetworkAddress, channel_id: u8) -> (r: Option<
        &mut Channel,
    >)
        requires
            old(self).wf(),
        ensures
            r is None ==> *final(self) == *old(self) && !spec_has_channel(
                old(self).channels@,
                address,
                channel_id,
            ),
            r is Some ==> exists|i: int|
                0 <= i < old(self).channels@.len() && old(self).channels@[i] == *r.unwrap() && (
                #[trigger] old(self).channels@[i]).address == address && old(self).channels@[i].id
                    == channel_id && final(self).channels@ == old(self).channels@.update(
                    i,
                    *final(r.unwrap()),
                ) && *final(self) == (Tachyon { channels: final(self).channels, ..*old(self) }),
    {
        match self.find_channel_index(address, channel_id) {
            Some(i) => Some(&mut self.channels[i]),
            None => None,
        }
    }

    /// Creates the configured channels for a new peer, skipping ids the peer
    /// already has; existing channels stay in place.
    fn create_configured_channels(&mut self, address: NetworkAddress)
        requires
            old(self).wf(),
        ensures
            final(self).wf(),
            *final(self) == (Tachyon { channels: final(self).channels, ..*old(self) }),
            old(self).channels@.is_prefix_of(final(self).channels@),
            forall|j: int|
                0 <= j < old(self).channel_config@.len() ==> spec_has_channel(
                    final(self).channels@,
                    address,
                    (#[trigger] old(self).channel_config@[j]).0,
                ),
    {
        let mut k: usize = 0;
        while k < self.channel_config.len()
            invariant
                k <= self.channel_config@.len(),
                self.wf(),
                *self == (Tachyon { channels: self.channels, ..*old(self) }),
                old(self).channels@.is_prefix_of(self.channels@),
                forall|j: int|
                    0 <= j < k ==> spec_has_channel(
                        self.channels@,
                        address,
                        (#[trigger] old(self).channel_config@[j]).0,
                    ),
            decreases self.channel_config@.len() - k,
        {
            let entry = self.channel_config[k];
            let ghost pre = self.channels@;
            match self.find_channel_index(address, entry.0) {
                Some(i) => {
                    proof {
                        assert(spec_has_channel(self.channels@, address, entry.0));
                    }
                },
                None => {
                    let channel = Channel::create(entry.0, address, entry.1);
                    self.channels.push(channel);
                    proof {
                        let n = self.channels@.len() - 1;
                        assert(self.channels@[n].address == address && self.channels@[n].id
                            == entry.0);
                        assert(spec_has_channel(self.channels@, address, entry.0));
                        assert forall|j: int| 0 <= j < k implies spec_has_channel(
                            self.channels@,
                            address,
                            (#[trigger] old(self).channel_config@[j]).0,
                        ) by {
                            let w = choose|i2: int|
                                0 <= i2 < pre.len() && (#[trigger] pre[i2]).address == address
                                    && pre[i2].id == old(self).channel_config@[j].0;
                            assert(self.channels@[w] == pre[w]);
                        }
                    }
                },
            }
            k = k + 1;
        }
    }

    /// Removes every configured channel of a departing peer.
    fn remove_configured_channels(&mut self, address: NetworkAddress)
        requires
            old(self).wf(),
        ensures
            final(self).wf(),
            *final(self) == (Tachyon { channels: final(self).channels, ..*old(self) }),
    {
        let mut kept: Vec<Channel> = Vec::new();
        loop
            invariant
                self.wf(),
                *self == (Tachyon { channels: self.channels, ..*old(self) }),
                forall|i: int| 0 <= i < kept@.len() ==> (#[trigger] kept@[i]).wf(),
            decreases self.channels@.len(),
        {
            match self.channels.pop() {
                Some(channel) => {
                    if !(channel.address == address) {
                        kept.push(channel);
                    }
                },
                None => {
                    break ;
                },
            }
        }
        loop
            invariant
                self.wf(),
                *self == (Tachyon { channels: self.channels, ..*old(self) }),
                forall|i: int| 0 <= i < kept@.len() ==> (#[trigger] kept@[i]).wf(),
            decreases kept@.len(),
        {
            match kept.pop() {
                Some(channel) => {
                    self.channels.push(channel);
                },
                None => {
                    break ;
                },
            }
        }
    }

    pub fn get_channel_count(&self, address: NetworkAddress) -> (r: u32)
        ensures
            r <= self.channel_config@.len(),
    {
        let mut count: u32 = 0;
        let mut k: usize = 0;
        while k < self.channel_config.len()
            invariant
                k <= self.channel_config@.len(),
                count as int <= k as int,
            decreases self.channel_config@.len() - k,
        {
            let entry = self.channel_config[k];
            if self.find_channel_index(address, entry.0).is_some() {
                if count < 0xffff_ffffu32 {
                    count = count + 1;
                }
            }
            k = k + 1;
        }
        count
    }

    /// Registers a channel configuration for an application channel; ids
    /// below 3 are reserved and refused.
    pub fn configure_channel(&mut self, channel_id: u8, config: ChannelConfig) -> (r: bool)
        requires
            old(self).wf(),
        ensures
            final(self).wf(),
            r == (channel_id >= 3),
            !r ==> *final(self) == *old(self),
    {
        if channel_id < 3 {
            return false;
        }
        let mut k: usize = 0;
        while k < self.channel_config.len()
            invariant
                channel_id >= 3,
                self.wf(),
                self.channel_config@.len() == old(self).channel_config@.len(),
                *self == (Tachyon { channel_config: self.channel_config, ..*old(self) }),
            decreases self.channel_config@.len() - k,
        {
            if self.channel_config[k].0 == channel_id {
                self.channel_config.set(k, (channel_id, config));
                return true;
            }
            k = k + 1;
        }
        self.channel_config.push((channel_id, config));
        true
    }

    /// Index of the connection for this peer address, if any.
    fn find_connection_index(&self, address: NetworkAddress) -> (r: Option<usize>)
        ensures
            match r {
                Some(i) => i < self.connections@.len() && self.connections@[i as int].address
                    == address,
                None => forall|i: int|
                    0 <= i < self.connections@.len() ==> (#[trigger] self.connections@[i]).address
                        != address,
            },
    {
        let mut i: usize = 0;
        while i < self.connections.len()
            invariant
                i <= self.connections@.len(),
                forall|j: int|
                    0 <= j < i ==> (#[trigger] self.connections@[j]).address != address,
            decreases self.connections@.len() - i,
        {
            if self.connections[i].address == address {
                return Some(i);
            }
            i = i + 1;
        }
        None
    }

    /// Registers (or replaces) an identity: a zero session id unregisters
    /// it.  Any connection already linked to the identity is dropped first.
    pub fn set_identity(&mut self, id: u32, session_id: u32)
        requires
            old(self).wf(),
        ensures
            final(self).wf(),
            session_id == 0 ==> !final(self).identities@.contains_key(id),
            session_id != 0 ==> final(self).identities@.contains_key(id) && final(self).identities@[id] == session_id,
    {
        self.remove_connection_by_identity(id);
        if session_id == 0 {
            self.identities.remove(&id);
        } else {
            self.identities.insert(id, session_id);
        }
    }

    /// Creates a connection for a new peer together with its configured
    /// channels; an existing connection for the address is replaced, every
    /// other connection stays.
    pub fn create_connection(&mut self, address: NetworkAddress, identity: Identity, now_ms: u64)
        requires
            old(self).wf(),
        ensures
            final(self).wf(),
            *final(self) == (Tachyon {
                channels: final(self).channels,
                connections: final(self).connections,
                ..*old(self)
            }),
            exists|i: int|
                0 <= i < final(self).connections@.len() && (#[trigger] final(self).connections@[i])
                    == (Connection {
                    address,
                    identity,
                    tachyon_id: old(self).id,
                    received_at: now_ms,
                    since_last_received: 0,
                }),
            forall|j: int|
                0 <= j < old(self).channel_config@.len() ==> spec_has_channel(
                    final(self).channels@,
                    address,
                    (#[trigger] old(self).channel_config@[j]).0,
                ),
            old(self).channels@.is_prefix_of(final(self).channels@),
            forall|i: int|
                0 <= i < final(self).connections@.len() ==> final(self).connections@[i]
                    == (Connection {
                    address,
                    identity,
                    tachyon_id: old(self).id,
                    received_at: now_ms,
                    since_last_received: 0,
                }) || old(self).connections@.contains(#[trigger] final(self).connections@[i]),
    {
        let mut conn = Connection::create(address, self.id);
        conn.identity = identity;
        conn.received_at = now_ms;
        let ghost target = Connection {
            address,
            identity,
            tachyon_id: old(self).id,
            received_at: now_ms,
            since_last_received: 0,
        };
        let ghost mut idx: int = 0;
        match self.find_connection_index(address) {
            Some(i) => {
                self.connections.set(i, conn);
                proof {
                    idx = i as int;
                    assert forall|a: int, b: int|
                        0 <= a < b < self.connections@.len() implies (
                    #[trigger] self.connections@[a]).address != (
                    #[trigger] self.connections@[b]).address by {
                        assert(old(self).connections@[a].address == self.connections@[a].address);
                        assert(old(self).connections@[b].address == self.connections@[b].address);
                    }
                }
            },
            None => {
                self.connections.push(conn);
                proof {
                    idx = self.connections@.len() - 1;
                }
            },
        }
        proof {
            assert(self.connections@[idx] == target);
            assert forall|i: int|
                0 <= i < self.connections@.len() implies self.connections@[i] == target || old(
                self,
            ).connections@.contains(#[trigger] self.connections@[i]) by {
                if i != idx {
                    assert(self.connections@[i] == old(self).connections@[i]);
                }
            }
        }
        self.create_configured_channels(address);
        proof {
            assert(self.connections@[idx] == target);
            assert(exists|j: int|
                0 <= j < self.connections@.len() && (#[trigger] self.connections@[j]) == target);
        }
    }

    /// Drops a peer's connection and its channels; every other connection
    /// stays.
    fn remove_connection(&mut self, address: NetworkAddress)
        requires
            old(self).wf(),
        ensures
            final(self).wf(),
            *final(self) == (Tachyon {
                channels: final(self).channels,
                connections: final(self).connections,
                ..*old(self)
            }),
            forall|i: int|
                0 <= i < final(self).connections@.len() ==> (#[trigger] final(self).connections@[i]).address != address,
            forall|i: int|
                0 <= i < final(self).connections@.len() ==> old(self).connections@.contains(
                    #[trigger] final(self).connections@[i],
                ),
            forall|i: int|
                0 <= i < old(self).connections@.len() && (#[trigger] old(self).connections@[i]).address != address ==> final(self).connections@.contains(
                    old(self).connections@[i],
                ),
    {
        match self.find_connection_index(address) {
            Some(i) => {
                self.connections.remove(i);
                proof {
                    assert forall|j: int|
                        0 <= j < self.connections@.len() implies (
                    #[trigger] self.connections@[j]).address != address by {
                        if j < i {
                        } else {
                        }
                    }
                    assert forall|j: int|
                        0 <= j < self.connections@.len() implies old(self).connections@.contains(
                        #[trigger] self.connections@[j],
                    ) by {
                        if j < i {
                            assert(self.connections@[j] == old(self).connections@[j]);
                        } else {
                            assert(self.connections@[j] == old(self).connections@[j + 1]);
                        }
                    }
                    assert forall|j: int|
                        0 <= j < old(self).connections@.len() && (#[trigger] old(
                        self,
                    ).connections@[j]).address != address implies self.connections@.contains(
                        old(self).connections@[j],
                    ) by {
                        if j < i {
                            assert(self.connections@[j] == old(self).connections@[j]);
                        } else {
                            assert(j != i as int);
                            assert(self.connections@[j - 1] == old(self).connections@[j]);
                        }
                    }
                }
            },
            None => {
                proof {
                    assert forall|j: int|
                        0 <= j < old(self).connections@.len() && (#[trigger] old(
                        self,
                    ).connections@[j]).address != address implies self.connections@.contains(
                        old(self).connections@[j],
                    ) by {
                        assert(self.connections@[j] == old(self).connections@[j]);
                    }
                }
            },
        }
        self.remove_configured_channels(address);
    }

    pub fn get_connection(&self, address: NetworkAddress) -> (r: Option<&Connection>)
        ensures
            match r {
                Some(c) => c.address == address && self.connections@.contains(*c),
                None => forall|i: int|
                    0 <= i < self.connections@.len() ==> (#[trigger] self.connections@[i]).address
                        != address,
            },
    {
        match self.find_connection_index(address) {
            Some(i) => {
                let c = &self.connections[i];
                proof {
                    assert(self.connections@.contains(*c));
                }
                Some(c)
            },
            None => None,
        }
    }

    pub fn get_connection_by_identity(&self, id: u32) -> (r: Option<&Connection>)
        ensures
            r is Some ==> self.connections@.contains(*r.unwrap()),
    {
        let address = match self.identity_to_address_map.get(&id) {
            Some(a) => *a,
            None => {
                return None;
            },
        };
        self.get_connection(address)
    }

    /// Snapshot of up to `max` connections with their idle times refreshed
    /// against the given clock reading.
    pub fn get_connections(&mut self, max: i32, now_ms: u64) -> (r: Vec<Connection>)
        requires
            old(self).wf(),
        ensures
            final(self).wf(),
            r@.len() <= old(self).connections@.len(),
    {
        let mut list: Vec<Connection> = Vec::new();
        let result_count: usize = if max >= 0 && (max as usize) < self.connections.len() {
            max as usize
        } else {
            self.connections.len()
        };
        let mut i: usize = 0;
        while i < result_count
            invariant
                result_count <= self.connections@.len(),
                i <= result_count,
                list@.len() == i,
                self.wf(),
                self.connections@.len() == old(self).connections@.len(),
                *self == (Tachyon { connections: self.connections, ..*old(self) }),
                forall|a: int, b: int|
                    0 <= a < b < self.connections@.len() ==> (
                    #[trigger] self.connections@[a]).address != (
                    #[trigger] self.connections@[b]).address,
            decreases result_count - i,
        {
            let mut conn = self.connections[i];
            conn.since_last_received = if now_ms > conn.received_at {
                now_ms - conn.received_at
            } else {
                0
            };
            self.connections.set(i, conn);
            list.push(conn);
            i = i + 1;
        }
        list
    }

    /// Refreshes (or creates) the connection for a peer; used when identity
    /// gating is off.  A brand-new peer also gets its configured channels.
    pub fn on_receive_connection_update(&mut self, address: NetworkAddress, now_ms: u64)
        requires
            old(self).wf(),
        ensures
            final(self).wf(),
            *final(self) == (Tachyon {
                channels: final(self).channels,
                connections: final(self).connections,
                ..*old(self)
            }),
            exists|i: int|
                0 <= i < final(self).connections@.len() && (#[trigger] final(self).connections@[i]).address == address && final(self).connections@[i].received_at
                    == now_ms,
            (forall|i: int|
                0 <= i < old(self).connections@.len() ==> (#[trigger] old(self).connections@[i]).address != address) ==> forall|j: int|
                0 <= j < old(self).channel_config@.len() ==> spec_has_channel(
                    final(self).channels@,
                    address,
                    (#[trigger] old(self).channel_config@[j]).0,
                ),
            old(self).channels@.is_prefix_of(final(self).channels@),
    {
        match self.find_connection_index(address) {
            Some(i) => {
                let mut conn = self.connections[i];
                conn.received_at = now_ms;
                self.connections.set(i, conn);
                proof {
                    assert forall|a: int, b: int|
                        0 <= a < b < self.connections@.len() implies (
                    #[trigger] self.connections@[a]).address != (
                    #[trigger] self.connections@[b]).address by {
                        assert(old(self).connections@[a].address == self.connections@[a].address);
                        assert(old(self).connections@[b].address == self.connections@[b].address);
                    }
                    assert(self.connections@[i as int].address == address
                        && self.connections@[i as int].received_at == now_ms);
                    assert(old(self).channels@.is_prefix_of(self.channels@));
                }
            },
            None => {
                self.create_connection(address, Identity::default(), now_ms);
            },
        }
    }

    /// A linked peer's traffic refreshes its connection; traffic from an
    /// address with no identity-bearing connection is refused.
    pub fn validate_and_update_linked_connection(&mut self, address: NetworkAddress, now_ms: u64)
        -> (r: bool)
        requires
            old(self).wf(),
        ensures
            final(self).wf(),
            *final(self) == (Tachyon { connections: final(self).connections, ..*old(self) }),
            r == exists|i: int|
                0 <= i < old(self).connections@.len() && (#[trigger] old(self).connections@[i]).address == address && old(self).connections@[i].identity.id
                    != 0,
            r == (spec_connection_identity(*old(self), address).id != 0),
    {
        proof {
            if exists|i: int|
                0 <= i < self.connections@.len() && (#[trigger] self.connections@[i]).address
                    == address && self.connections@[i].identity.id != 0 {
                let w = choose|i: int|
                    0 <= i < self.connections@.len() && (#[trigger] self.connections@[i]).address
                        == address && self.connections@[i].identity.id != 0;
                let c = choose|i: int|
                    0 <= i < self.connections@.len() && (#[trigger] self.connections@[i]).address
                        == address;
                assert(c == w);
            }
        }
        match self.find_connection_index(address) {
            Some(i) => {
                if self.connections[i].identity.id == 0 {
                    proof {
                        assert forall|j: int|
                            0 <= j < old(self).connections@.len() && (#[trigger] old(self).connections@[j]).address == address implies old(self).connections@[j].identity.id == 0 by {
                            if j != i as int {
                                assert(old(self).connections@[j].address != address);
                            }
                        }
                    }
                    return false;
                }
                let mut conn = self.connections[i];
                conn.received_at = now_ms;
                self.connections.set(i, conn);
                proof {
                    assert forall|a: int, b: int|
                        0 <= a < b < self.connections@.len() implies (
                    #[trigger] self.connections@[a]).address != (
                    #[trigger] self.connections@[b]).address by {
                        assert(old(self).connections@[a].address == self.connections@[a].address);
                        assert(old(self).connections@[b].address == self.connections@[b].address);
                    }
                }
                true
            },
            None => false,
        }
    }

    pub fn get_connection_identity(&self, address: NetworkAddress) -> (r: Identity)
        requires
            self.wf(),
        ensures
            r == spec_connection_identity(*self, address),
            (forall|i: int|
                0 <= i < self.connections@.len() ==> (#[trigger] self.connections@[i]).address
                    != address) ==> r == (Identity { id: 0, session_id: 0, linked: 0 }),
            forall|i: int|
                0 <= i < self.connections@.len() && (#[trigger] self.connections@[i]).address
                    == address ==> r == self.connections@[i].identity,
    {
        match self.get_connection(address) {
            Some(conn) => {
                let identity = conn.identity;
                proof {
                    let w = choose|w: int|
                        0 <= w < self.connections@.len() && self.connections@[w] == *conn;
                    assert forall|i: int|
                        0 <= i < self.connections@.len() && (
                    #[trigger] self.connections@[i]).address == address implies identity
                        == self.connections@[i].identity by {
                        assert(i == w);
                    }
                }
                identity
            },
            None => Identity::default(),
        }
    }

    /// Drops every connection whose identity is `id`; every other
    /// connection stays.
    pub fn remove_connection_by_identity(&mut self, id: u32)
        requires
            old(self).wf(),
        ensures
            final(self).wf(),
            *final(self) == (Tachyon {
                channels: final(self).channels,
                connections: final(self).connections,
                ..*old(self)
            }),
            forall|i: int|
                0 <= i < final(self).connections@.len() ==> (
                #[trigger] final(self).connections@[i]).identity.id != id,
            forall|i: int|
                0 <= i < final(self).connections@.len() ==> old(self).connections@.contains(
                    #[trigger] final(self).connections@[i],
                ),
    {
        let mut addresses: Vec<NetworkAddress> = Vec::new();
        let mut i: usize = 0;
        while i < self.connections.len()
            invariant
                i <= self.connections@.len(),
                self.wf(),
                *self == *old(self),
                forall|j: int|
                    0 <= j < i && (#[trigger] self.connections@[j]).identity.id == id
                        ==> addresses@.contains(self.connections@[j].address),
            decreases self.connections@.len() - i,
        {
            if self.connections[i].identity.id == id {
                let ghost pre_addrs = addresses@;
                addresses.push(self.connections[i].address);
                proof {
                    assert(addresses@[addresses@.len() - 1] == self.connections@[i as int].address);
                    assert forall|j: int|
                        0 <= j < i && (#[trigger] self.connections@[j]).identity.id
                            == id implies addresses@.contains(self.connections@[j].address) by {
                        let w = choose|w: int|
                            0 <= w < pre_addrs.len() && pre_addrs[w] == self.connections@[j].address;
                        assert(addresses@[w] == self.connections@[j].address);
                    }
                }
            }
            i = i + 1;
        }
        let mut k: usize = 0;
        while k < addresses.len()
            invariant
                k <= addresses@.len(),
                self.wf(),
                *self == (Tachyon {
                    channels: self.channels,
                    connections: self.connections,
                    ..*old(self)
                }),
                forall|j: int|
                    0 <= j < self.connections@.len() ==> old(self).connections@.contains(
                        #[trigger] self.connections@[j],
                    ),
                forall|j: int|
                    0 <= j < self.connections@.len() && (
                    #[trigger] self.connections@[j]).identity.id == id ==> exists|k2: int|
                        k <= k2 < addresses@.len() && addresses@[k2] == self.connections@[j].address,
            decreases addresses@.len() - k,
        {
            let ghost pre = self.connections@;
            self.remove_connection(addresses[k]);
            k = k + 1;
            proof {
                assert forall|j: int|
                    0 <= j < self.connections@.len() && (
                #[trigger] self.connections@[j]).identity.id == id implies exists|k2: int|
                    k <= k2 < addresses@.len() && addresses@[k2] == self.connections@[j].address by {
                    assert(pre.contains(self.connections@[j]));
                    let w = choose|w: int| 0 <= w < pre.len() && pre[w] == self.connections@[j];
                    let k2 = choose|k2: int|
                        k - 1 <= k2 < addresses@.len() && addresses@[k2] == pre[w].address;
                    assert(self.connections@[j].address != addresses@[k - 1]);
                    assert(k2 != k - 1);
                }
            }
        }
        proof {
            assert forall|i2: int|
                0 <= i2 < self.connections@.len() implies (
            #[trigger] self.connections@[i2]).identity.id != id by {
            }
        }
    }

    /// Server side of the link handshake: the session must match the
    /// registered one; a matching relink is a success without changes, and a
    /// link from a new address displaces the identity's old connection.
    /// Returns whether the peer is linked, plus the reply to transmit.
    pub fn try_link_identity(&mut self, address: NetworkAddress, id: u32, session_id: u32,
        now_ms: u64) -> (r: (bool, Vec<OutgoingDatagram>))
        requires
            old(self).wf(),
        ensures
            final(self).wf(),
            final(self).identities@ == old(self).identities@,
            final(self).channel_config@ == old(self).channel_config@,
            !old(self).identities@.contains_key(id) ==> r.0 == false && *final(self) == *old(self)
                && r.1@.len() == 0,
            old(self).identities@.contains_key(id) && old(self).identities@[id] != session_id
                ==> r.0 == false && *final(self) == *old(self) && r.1@.len() == 0,
            old(self).identities@.contains_key(id) && old(self).identities@[id] == session_id
                ==> r.0 == true,
            // a matching relink at the same address changes nothing
            old(self).identities@.contains_key(id) && old(self).identities@[id] == session_id
                && spec_connection_linked_here(*old(self), address, id, session_id) ==> *final(self)
                == *old(self) && r.1@.len() == 0,
            // a fresh link displaces the identity's old connection, creates
            // one at this address with its channels, records the identity's
            // address and answers with a LINKED message
            old(self).identities@.contains_key(id) && old(self).identities@[id] == session_id
                && !spec_connection_linked_here(*old(self), address, id, session_id) ==> ({
                &&& exists|i: int|
                    0 <= i < final(self).connections@.len() && (
                    #[trigger] final(self).connections@[i]) == (Connection {
                        address,
                        identity: Identity { id, session_id, linked: 0 },
                        tachyon_id: old(self).id,
                        received_at: now_ms,
                        since_last_received: 0,
                    })
                &&& forall|i: int|
                    0 <= i < final(self).connections@.len() && (
                    #[trigger] final(self).connections@[i]).identity.id == id ==> final(self).connections@[i].address == address
                &&& forall|j: int|
                    0 <= j < old(self).channel_config@.len() ==> spec_has_channel(
                        final(self).channels@,
                        address,
                        (#[trigger] old(self).channel_config@[j]).0,
                    )
                &&& final(self).identity_to_address_map@ == old(self).identity_to_address_map@.insert(id, address)
                &&& r.1@.len() == 1
                &&& r.1@[0].address == address
                &&& crate::header::connection_header_at(r.1@[0].data@) == (ConnectionHeader {
                    message_type: MESSAGE_TYPE_IDENTITY_LINKED,
                    id: 0,
                    session_id: 0,
                })
            }),
    {
        let current_session_id = match self.identities.get(&id) {
            Some(s) => *s,
            None => {
                return (false, Vec::new());
            },
        };
        if session_id != current_session_id {
            return (false, Vec::new());
        }
        let identity = self.get_connection_identity(address);
        if identity.id == id && identity.session_id == current_session_id {
            return (true, Vec::new());
        }
        proof {
            assert(!spec_connection_linked_here(*old(self), address, id, session_id));
        }
        self.remove_connection_by_identity(id);
        let ghost cleaned = *self;
        let identity = Identity { id, session_id, linked: 0 };
        self.create_connection(address, identity, now_ms);
        proof {
            let target = Connection {
                address,
                identity: Identity { id, session_id, linked: 0 },
                tachyon_id: old(self).id,
                received_at: now_ms,
                since_last_received: 0,
            };
            assert forall|i: int|
                0 <= i < self.connections@.len() && (
            #[trigger] self.connections@[i]).identity.id == id implies self.connections@[i].address
                == address by {
                if self.connections@[i] != target {
                    assert(cleaned.connections@.contains(self.connections@[i]));
                    let w = choose|w: int|
                        0 <= w < cleaned.connections@.len() && cleaned.connections@[w]
                            == self.connections@[i];
                }
            }
        }
        let ghost target = Connection {
            address,
            identity: Identity { id, session_id, linked: 0 },
            tachyon_id: old(self).id,
            received_at: now_ms,
            since_last_received: 0,
        };
        let ghost widx = 0int;
        proof {
            assert(cleaned.id == old(self).id);
            widx = choose|i: int|
                0 <= i < self.connections@.len() && (#[trigger] self.connections@[i])
                    == (Connection {
                    address,
                    identity: Identity { id, session_id, linked: 0 },
                    tachyon_id: cleaned.id,
                    received_at: now_ms,
                    since_last_received: 0,
                });
            assert(self.connections@[widx] == target);
        }
        self.identity_to_address_map.insert(id, address);
        let mut out: Vec<OutgoingDatagram> = Vec::new();
        out.push(self.identity_message(MESSAGE_TYPE_IDENTITY_LINKED, 0, 0, address));
        proof {
            assert(self.connections@[widx] == target);
            assert(exists|i: int|
                0 <= i < self.connections@.len() && (#[trigger] self.connections@[i]) == target);
        }
        (true, out)
    }

    /// Server side of the unlink handshake; an unlink always answers, even
    /// for unknown identities.
    pub fn try_unlink_identity(&mut self, address: NetworkAddress, id: u32, session_id: u32) -> (r:
        (bool, Vec<OutgoingDatagram>))
        requires
            old(self).wf(),
        ensures
            final(self).wf(),
            final(self).identities@ == old(self).identities@,
            r.1@.len() == 1,
            r.1@[0].address == address,
            crate::header::connection_header_at(r.1@[0].data@) == (ConnectionHeader {
                message_type: MESSAGE_TYPE_IDENTITY_UNLINKED,
                id: 0,
                session_id: 0,
            }),
            !old(self).identities@.contains_key(id) ==> r.0 == false && *final(self) == *old(self),
            old(self).identities@.contains_key(id) && old(self).identities@[id] != session_id
                ==> r.0 == false && *final(self) == *old(self),
            old(self).identities@.contains_key(id) && old(self).identities@[id] == session_id
                ==> ({
                &&& r.0 == true
                &&& forall|i: int|
                    0 <= i < final(self).connections@.len() ==> (
                    #[trigger] final(self).connections@[i]).identity.id != id
                &&& !final(self).identity_to_address_map@.contains_key(id)
            }),
    {
        let mut out: Vec<OutgoingDatagram> = Vec::new();
        let current_session_id = match self.identities.get(&id) {
            Some(s) => *s,
            None => {
                out.push(self.identity_message(MESSAGE_TYPE_IDENTITY_UNLINKED, 0, 0, address));
                return (false, out);
            },
        };
        if session_id != current_session_id {
            out.push(self.identity_message(MESSAGE_TYPE_IDENTITY_UNLINKED, 0, 0, address));
            return (false, out);
        }
        self.remove_connection_by_identity(id);
        self.identity_to_address_map.remove(&id);
        out.push(self.identity_message(MESSAGE_TYPE_IDENTITY_UNLINKED, 0, 0, address));
        (true, out)
    }

    /// A client's periodic link request: sent only when identity gating is
    /// on, a socket exists, the identity is set and not yet linked, and the
    /// retry interval has passed.
    pub fn client_identity_update(&mut self, now_ms: u64) -> (r: Option<OutgoingDatagram>)
        requires
            old(self).wf(),
        ensures
            final(self).wf(),
            *final(self) == (Tachyon {
                last_identity_link_request: final(self).last_identity_link_request,
                ..*old(self)
            }),
            spec_link_request_due(*old(self), now_ms) ==> ({
                &&& r is Some
                &&& r.unwrap().address == (NetworkAddress { a: 0, b: 0, c: 0, d: 0, port: 0 })
                &&& crate::header::connection_header_at(r.unwrap().data@) == (ConnectionHeader {
                    message_type: MESSAGE_TYPE_LINK_IDENTITY,
                    id: old(self).identity.id,
                    session_id: old(self).identity.session_id,
                })
                &&& final(self).last_identity_link_request == now_ms
            }),
            !spec_link_request_due(*old(self), now_ms) ==> r is None && *final(self) == *old(self),
    {
        if self.config.use_identity != 1 {
            return None;
        }
        if !self.has_socket {
            return None;
        }
        if self.is_server {
            return None;
        }
        if !self.identity.is_valid() {
            return None;
        }
        if self.identity.is_linked() {
            return None;
        }
        let since_last = if now_ms > self.last_identity_link_request {
            now_ms - self.last_identity_link_request
        } else {
            0
        };
        if since_last > IDENTITY_SEND_INTERVAL_MS || self.last_identity_link_request == 0 {
            self.last_identity_link_request = now_ms;
            let id = self.identity.id;
            let session_id = self.identity.session_id;
            return Some(self.send_link_identity(id, session_id));
        }
        None
    }

    /// Whether sends are allowed: servers always may; a client under
    /// identity gating must be linked first.
    pub fn can_send(&self) -> (r: bool)
        ensures
            r == (self.is_server || self.config.use_identity != 1 || self.identity.linked == 1),
    {
        if self.is_server {
            true
        } else {
            if self.config.use_identity == 1 {
                self.identity.linked == 1
            } else {
                true
            }
        }
    }

    /// Builds a nine-byte connection-header datagram.
    fn identity_message(&self, message_type: u8, id: u32, session_id: u32,
        address: NetworkAddress) -> (r: OutgoingDatagram)
        ensures
            r.address == address,
            r.data@.len() == 12,
            crate::header::connection_header_at(r.data@) == (ConnectionHeader {
                message_type,
                id,
                session_id,
            }),
    {
        let header = ConnectionHeader { message_type, id, session_id };
        let mut send_buffer: Vec<u8> = vec![0u8; 12];
        header.write(&mut send_buffer);
        OutgoingDatagram { address, data: send_buffer }
    }

    pub fn send_link_identity(&self, id: u32, session_id: u32) -> (r: OutgoingDatagram)
        ensures
            r.address == (NetworkAddress { a: 0, b: 0, c: 0, d: 0, port: 0 }),
            crate::header::connection_header_at(r.data@) == (ConnectionHeader {
                message_type: MESSAGE_TYPE_LINK_IDENTITY,
                id,
                session_id,
            }),
            r.data@.len() == 12,
    {
        self.identity_message(MESSAGE_TYPE_LINK_IDENTITY, id, session_id, NetworkAddress::default())
    }

    pub fn send_unlink_identity(&self, id: u32, session_id: u32) -> (r: OutgoingDatagram)
        ensures
            r.address == (NetworkAddress { a: 0, b: 0, c: 0, d: 0, port: 0 }),
            crate::header::connection_header_at(r.data@) == (ConnectionHeader {
                message_type: MESSAGE_TYPE_UNLINK_IDENTITY,
                id,
                session_id,
            }),
            r.data@.len() == 12,
    {
        self.identity_message(
            MESSAGE_TYPE_UNLINK_IDENTITY,
            id,
            session_id,
            NetworkAddress::default(),
        )
    }

    pub fn send_identity_linked(&self, address: NetworkAddress) -> (r: OutgoingDatagram)
        ensures
            r.address == address,
            crate::header::connection_header_at(r.data@) == (ConnectionHeader {
                message_type: MESSAGE_TYPE_IDENTITY_LINKED,
                id: 0,
                session_id: 0,
            }),
    {
        self.identity_message(MESSAGE_TYPE_IDENTITY_LINKED, 0, 0, address)
    }

    pub fn send_identity_unlinked(&self, address: NetworkAddress) -> (r: OutgoingDatagram)
        ensures
            r.address == address,
            crate::header::connection_header_at(r.data@) == (ConnectionHeader {
                message_type: MESSAGE_TYPE_IDENTITY_UNLINKED,
                id: 0,
                session_id: 0,
            }),
    {
        self.identity_message(MESSAGE_TYPE_IDENTITY_UNLINKED, 0, 0, address)
    }

    /// Sums the per-channel counters into one combined snapshot.
    pub fn get_combined_stats(&mut self) -> (r: TachyonStats)
        requires
            old(self).wf(),
        ensures
            final(self).wf(),
    {
        let mut channel_stats = ChannelStats::default();
        let mut i: usize = 0;
        while i < self.channels.len()
            invariant
                self.wf(),
                self.channels@.len() == old(self).channels@.len(),
                *self == (Tachyon { channels: self.channels, ..*old(self) }),
            decreases self.channels@.len() - i,
        {
            let ghost pre = self.channels@;
            let channel = &mut self.channels[i];
            channel.update_stats();
            channel_stats.add_from(&channel.stats);
            proof {
                assert forall|j: int| 0 <= j < self.channels@.len() implies (
                #[trigger] self.channels@[j]).wf() by {
                    if j != i as int {
                        assert(self.channels@[j] == pre[j]);
                    }
                }
            }
            i = i + 1;
        }
        let mut stats = self.stats;
        stats.channel_stats = channel_stats;
        stats
    }

    /// One update tick: every channel rebuilds its NACK lists, answers its
    /// accumulated inbound NACKs and runs a publication walk; the result is
    /// the client's link request when one is due, followed by each
    /// channel's sweep and resend datagrams in channel order.
    pub fn update(&mut self, now_ms: u64) -> (r: Vec<OutgoingDatagram>)
        requires
            old(self).wf(),
        ensures
            final(self).wf(),
            final(self).channels@.len() == old(self).channels@.len(),
            r@.len() == (if spec_link_request_due(*old(self), now_ms) {
                1int
            } else {
                0int
            }) + spec_update_out_len(old(self).channels@),
            spec_link_request_due(*old(self), now_ms) ==> r@[0].address == (NetworkAddress {
                a: 0,
                b: 0,
                c: 0,
                d: 0,
                port: 0,
            }) && crate::header::connection_header_at(r@[0].data@) == (ConnectionHeader {
                message_type: MESSAGE_TYPE_LINK_IDENTITY,
                id: old(self).identity.id,
                session_id: old(self).identity.session_id,
            }),
            forall|i: int|
                0 <= i < old(self).channels@.len() ==> spec_channel_ticked(
                    old(self).channels@[i],
                    #[trigger] final(self).channels@[i],
                ),
    {
        let mut out: Vec<OutgoingDatagram> = Vec::new();
        match self.client_identity_update(now_ms) {
            Some(d) => {
                out.push(d);
            },
            None => {},
        }
        let ghost base: int = out@.len() as int;
        proof {
            assert(old(self).channels@.take(0) =~= Seq::<Channel>::empty());
        }
        let mut i: usize = 0;
        while i < self.channels.len()
            invariant
                i <= self.channels@.len(),
                self.wf(),
                self.channels@.len() == old(self).channels@.len(),
                base == if spec_link_request_due(*old(self), now_ms) {
                    1int
                } else {
                    0int
                },
                out@.len() == base + spec_update_out_len(old(self).channels@.take(i as int)),
                base == 1 ==> out@.len() >= 1 && out@[0].address == (NetworkAddress {
                    a: 0,
                    b: 0,
                    c: 0,
                    d: 0,
                    port: 0,
                }) && crate::header::connection_header_at(out@[0].data@) == (ConnectionHeader {
                    message_type: MESSAGE_TYPE_LINK_IDENTITY,
                    id: old(self).identity.id,
                    session_id: old(self).identity.session_id,
                }),
                *self == (Tachyon {
                    channels: self.channels,
                    last_identity_link_request: self.last_identity_link_request,
                    ..*old(self)
                }),
                forall|j: int|
                    i <= j < old(self).channels@.len() ==> #[trigger] self.channels@[j] == old(self).channels@[j],
                forall|j: int|
                    0 <= j < i ==> spec_channel_ticked(
                        old(self).channels@[j],
                        #[trigger] self.channels@[j],
                    ),
            decreases self.channels@.len() - i,
        {
            let ghost pre = self.channels@;
            let channel = &mut self.channels[i];
            let mut datagrams = channel.update();
            out.append(&mut datagrams);
            i = i + 1;
            proof {
                assert forall|j: int| 0 <= j < self.channels@.len() implies (
                #[trigger] self.channels@[j]).wf() by {
                    if j != i - 1 {
                        assert(self.channels@[j] == pre[j]);
                    }
                }
                lemma_update_out_len_take(old(self).channels@, i - 1);
                assert forall|j: int| 0 <= j < i implies spec_channel_ticked(
                    old(self).channels@[j],
                    #[trigger] self.channels@[j],
                ) by {
                    if j != i - 1 {
                        assert(self.channels@[j] == pre[j]);
                    } else {
                        assert(pre[j] == old(self).channels@[j]);
                    }
                }
            }
        }
        proof {
            assert(old(self).channels@.take(old(self).channels@.len() as int) =~= old(self).channels@);
        }
        out
    }

    /// Frames one unreliable message: a one-byte type tag then the body.
    pub fn send_unreliable(&mut self, address: NetworkAddress, data: &Vec<u8>, body_len: usize)
        -> (r: (TachyonSendResult, Option<OutgoingDatagram>))
        requires
            old(self).wf(),
            body_len <= data.len(),
            body_len < 0xffff_ffff,
        ensures
            final(self).wf(),
            r.0.error != 0 ==> r.1 is None && r.0.sent_len == 0 && *final(self) == *old(self),
            !(old(self).is_server || old(self).config.use_identity != 1 || old(self).identity.linked == 1) ==> r.0.error == SEND_ERROR_IDENTITY && r.1 is None,
            (old(self).is_server || old(self).config.use_identity != 1 || old(self).identity.linked == 1) && body_len < 1 ==> r.0.error == SEND_ERROR_LENGTH && r.1
                is None,
            (old(self).is_server || old(self).config.use_identity != 1 || old(self).identity.linked == 1) && body_len >= 1 ==> r.0.error == 0 && r.1 is Some
                && r.1.unwrap().address == address && r.1.unwrap().data@ == seq![
                MESSAGE_TYPE_UNRELIABLE,
            ] + data@.take(body_len as int) && r.0.sent_len == body_len + 1,
    {
        if !self.can_send() {
            let mut result = TachyonSendResult::default();
            result.error = SEND_ERROR_IDENTITY;
            return (result, None);
        }
        if body_len < 1 {
            let mut result = TachyonSendResult::default();
            result.error = SEND_ERROR_LENGTH;
            return (result, None);
        }
        let mut frame: Vec<u8> = Vec::new();
        frame.push(MESSAGE_TYPE_UNRELIABLE);
        crate::int_buffer::append_bytes(&mut frame, data, 0, body_len);
        proof {
            assert(frame@ =~= seq![MESSAGE_TYPE_UNRELIABLE] + data@.take(body_len as int));
        }
        self.stats.unreliable_sent = self.stats.unreliable_sent.wrapping_add(1);
        let mut result = TachyonSendResult::default();
        result.sent_len = (body_len + 1) as u32;
        let mut header = Header::default();
        header.message_type = MESSAGE_TYPE_UNRELIABLE;
        result.header = header;
        (result, Some(OutgoingDatagram { address, data: frame }))
    }

    /// Frames one reliable message on a channel: splitting it into
    /// fragments when it is large, else as a single frame with an assigned
    /// sequence.  Returns the datagrams to transmit.
    pub fn send_reliable(
        &mut self,
        channel_id: u8,
        address: NetworkAddress,
        data: &Vec<u8>,
        body_len: usize,
        now_ms: u64,
    ) -> (r: (TachyonSendResult, Vec<OutgoingDatagram>))
        requires
            old(self).wf(),
            body_len <= data.len(),
            body_len <= 512 * 1200,
        ensures
            final(self).wf(),
            r.0.error != 0 ==> r.1@.len() == 0 && r.0.sent_len == 0 && *final(self) == *old(self),
            !(old(self).is_server || old(self).config.use_identity != 1 || old(self).identity.linked == 1) ==> r.0.error == SEND_ERROR_IDENTITY,
            (old(self).is_server || old(self).config.use_identity != 1 || old(self).identity.linked == 1) && body_len == 0 ==> r.0.error == SEND_ERROR_LENGTH,
            (old(self).is_server || old(self).config.use_identity != 1 || old(self).identity.linked == 1) && body_len > 0 && channel_id == 0 ==> r.0.error
                == SEND_ERROR_CHANNEL,
            (old(self).is_server || old(self).config.use_identity != 1 || old(self).identity.linked == 1) && body_len > 0 && channel_id != 0 && !old(self).has_socket
                ==> r.0.error == SEND_ERROR_SOCKET,
            (old(self).is_server || old(self).config.use_identity != 1 || old(self).identity.linked == 1) && body_len > 0 && channel_id != 0 && old(self).has_socket
                && !spec_has_channel(old(self).channels@, address, channel_id) ==> r.0.error
                == SEND_ERROR_CHANNEL,
            (old(self).is_server || old(self).config.use_identity != 1 || old(self).identity.linked == 1) && body_len > 0 && channel_id != 0 && old(self).has_socket
                && spec_has_channel(old(self).channels@, address, channel_id) ==> r.0.error == 0,
            (old(self).is_server || old(self).config.use_identity != 1 || old(self).identity.linked == 1) && body_len > 0 && channel_id != 0 && old(self).has_socket
                && spec_has_channel(old(self).channels@, address, channel_id) && body_len < 1200
                ==> ({
                let header_len: int = if r.0.header.message_type
                    == MESSAGE_TYPE_RELIABLE_WITH_NACK {
                    10int
                } else {
                    4int
                };
                &&& r.1@.len() == 1
                &&& r.0.sent_len == body_len + header_len
                &&& r.1@[0].address == address
                &&& r.1@[0].data@.len() == body_len + header_len
                &&& r.1@[0].data@.subrange(header_len, header_len + body_len) == data@.subrange(
                    0,
                    body_len as int,
                )
            }),
            (old(self).is_server || old(self).config.use_identity != 1 || old(self).identity.linked == 1) && body_len > 0 && channel_id != 0 && old(self).has_socket
                && spec_has_channel(old(self).channels@, address, channel_id) && body_len >= 1200
                ==> r.1@.len() == (body_len + 1199) as int / 1200 && r.0.header.message_type
                == MESSAGE_TYPE_FRAGMENT,
            // with no chargeable piggyback pending on the channel, the frame
            // is plain reliable with the four-byte header
            (old(self).is_server || old(self).config.use_identity != 1 || old(self).identity.linked == 1) && body_len > 0 && channel_id != 0 && old(self).has_socket
                && body_len < 1200 ==> forall|i: int|
                #![trigger spec_first_channel_match(old(self).channels@, address, channel_id, i)]
                spec_first_channel_match(old(self).channels@, address, channel_id, i) && (old(self).channels@[i].nack_redundancy == 0 || old(self).channels@[i].receiver.nack_queue@.len()
                    == 0) ==> r.0.header.message_type == MESSAGE_TYPE_RELIABLE && r.0.sent_len
                    == body_len + 4,
    {
        let mut result = TachyonSendResult::default();
        if !self.can_send() {
            result.error = SEND_ERROR_IDENTITY;
            return (result, Vec::new());
        }
        if body_len == 0 {
            result.error = SEND_ERROR_LENGTH;
            return (result, Vec::new());
        }
        if channel_id == 0 {
            result.error = SEND_ERROR_CHANNEL;
            return (result, Vec::new());
        }
        if !self.has_socket {
            result.error = SEND_ERROR_SOCKET;
            return (result, Vec::new());
        }
        let index = match self.find_channel_index(address, channel_id) {
            Some(i) => i,
            None => {
                result.error = SEND_ERROR_CHANNEL;
                return (result, Vec::new());
            },
        };
        let ghost pre = self.channels@;
        let channel = &mut self.channels[index];
        if Fragmentation::should_fragment(body_len) {
            let frag_sequences = channel.frag.create_fragments(
                &mut channel.send_buffers,
                channel.id,
                data,
                body_len,
                now_ms,
            );
            let mut out: Vec<OutgoingDatagram> = Vec::new();
            let mut fragment_bytes_sent: u64 = 0;
            let mut k: usize = 0;
            let mut failed = false;
            let ghost sbuf0 = channel.send_buffers;
            while k < frag_sequences.len()
                invariant
                    channel.wf(),
                    channel.send_buffers == sbuf0,
                    !failed,
                    k <= frag_sequences@.len(),
                    out@.len() == k,
                    forall|k2: int|
                        0 <= k2 < k ==> (#[trigger] out@[k2]).address == address,
                    forall|k2: int|
                        0 <= k2 < frag_sequences@.len() ==> sbuf0.buffers.values@[(
                        #[trigger] frag_sequences@[k2]) as int % 1024] is Some,
                decreases frag_sequences@.len() - k,
            {
                let seq = frag_sequences[k];
                match channel.send_buffers.buffers.get(seq) {
                    Some(send_buffer) => {
                        let len = send_buffer.byte_buffer.length;
                        let mut bytes: Vec<u8> = Vec::new();
                        crate::int_buffer::append_bytes(
                            &mut bytes,
                            &send_buffer.byte_buffer.data,
                            0,
                            len,
                        );
                        fragment_bytes_sent = fragment_bytes_sent.wrapping_add(len as u64);
                        channel.stats.bytes_sent = channel.stats.bytes_sent.wrapping_add(
                            len as u64,
                        );
                        channel.stats.fragments_sent = channel.stats.fragments_sent.wrapping_add(
                            1,
                        );
                        out.push(OutgoingDatagram { address, data: bytes });
                    },
                    None => {
                        failed = true;
                    },
                }
                k = k + 1;
            }
            channel.stats.sent = channel.stats.sent.wrapping_add(1);
            proof {
                assert forall|j: int| 0 <= j < self.channels@.len() implies (
                #[trigger] self.channels@[j]).wf() by {
                    if j != index as int {
                        assert(self.channels@[j] == pre[j]);
                    }
                }
            }
            if failed || frag_sequences.len() == 0 {
                result.error = SEND_ERROR_FRAGMENT;
                proof {
                    assert(false);
                }
                return (result, Vec::new());
            }
            result.header.message_type = MESSAGE_TYPE_FRAGMENT;
            result.sent_len = if fragment_bytes_sent <= 0xffff_ffffu64 {
                fragment_bytes_sent as u32
            } else {
                0xffff_ffffu32
            };
            return (result, out);
        }
        let sent = channel.send_reliable(address, data, body_len, now_ms);
        proof {
            assert forall|j: int| 0 <= j < self.channels@.len() implies (
            #[trigger] self.channels@[j]).wf() by {
                if j != index as int {
                    assert(self.channels@[j] == pre[j]);
                }
            }
            assert forall|i: int|
                #![trigger spec_first_channel_match(old(self).channels@, address, channel_id, i)]
                spec_first_channel_match(
                    old(self).channels@,
                    address,
                    channel_id,
                    i,
                ) implies i == index as int by {
            }
        }
        let mut out: Vec<OutgoingDatagram> = Vec::new();
        out.push(sent.1);
        (sent.0, out)
    }

    /// Dispatches one arriving datagram by message type: identity traffic is
    /// resolved against the identity table, unreliable payloads are surfaced
    /// directly, and everything else is routed to the peer's channel.
    /// Returns what happened plus any datagrams to transmit in reply.
    pub fn handle_datagram(
        &mut self,
        address: NetworkAddress,
        receive_buffer: &Vec<u8>,
        received_len: usize,
        now_ms: u64,
    ) -> (r: (ReceiveResult, Vec<OutgoingDatagram>))
        requires
            old(self).wf(),
            received_len <= receive_buffer.len(),
        ensures
            final(self).wf(),
            received_len < TACHYON_HEADER_SIZE ==> r.0 is Error && r.1@.len() == 0 && *final(self)
                == *old(self),
            received_len >= TACHYON_HEADER_SIZE && !old(self).is_server && old(self).config.use_identity == 1 && crate::header::header_at(
                receive_buffer@,
            ).message_type == MESSAGE_TYPE_IDENTITY_LINKED ==> r.0 is Empty && final(self).identity.linked == 1,
            received_len >= TACHYON_HEADER_SIZE && !old(self).is_server && old(self).config.use_identity == 1 && crate::header::header_at(
                receive_buffer@,
            ).message_type == MESSAGE_TYPE_IDENTITY_UNLINKED ==> r.0 is Empty && final(self).identity.linked == 0,
            // the identity gate
            received_len >= TACHYON_HEADER_SIZE && old(self).is_server && old(self).config.use_identity == 1 && crate::header::header_at(receive_buffer@).message_type
                != MESSAGE_TYPE_LINK_IDENTITY && crate::header::header_at(
                receive_buffer@,
            ).message_type != MESSAGE_TYPE_UNLINK_IDENTITY && spec_connection_identity(
                *old(self),
                address,
            ).id == 0 ==> r.0 is Empty && r.1@.len() == 0,
            received_len >= TACHYON_HEADER_SIZE && !old(self).is_server && old(self).config.use_identity == 1 && crate::header::header_at(receive_buffer@).message_type
                != MESSAGE_TYPE_IDENTITY_LINKED && crate::header::header_at(
                receive_buffer@,
            ).message_type != MESSAGE_TYPE_IDENTITY_UNLINKED && !(old(self).identity.id > 0 && old(self).identity.session_id > 0 && old(self).identity.linked == 1) ==> r.0
                is Empty && r.1@.len() == 0,
            // the unreliable fast path
            received_len >= TACHYON_HEADER_SIZE && spec_gate_passes(*old(self), address)
                && crate::header::header_at(receive_buffer@).message_type
                == MESSAGE_TYPE_UNRELIABLE ==> r.0 == (ReceiveResult::UnReliable {
                received_len,
                network_address: address,
            }) && r.1@.len() == 0,
            // a data packet for a channel the peer does not have
            received_len >= TACHYON_HEADER_SIZE && spec_gate_passes(*old(self), address)
                && spec_reaches_channel(*old(self), crate::header::header_at(receive_buffer@).message_type) && !spec_has_channel(
                final(self).channels@,
                address,
                crate::header::header_at(receive_buffer@).channel,
            ) ==> r.0 is ChannelError && r.1@.len() == 0,
            // the channel dispatch itself, per message type, against the
            // peer's first matching channel
            received_len >= TACHYON_HEADER_SIZE && spec_gate_passes(*old(self), address)
                && spec_reaches_channel(*old(self), crate::header::header_at(receive_buffer@).message_type) && spec_has_channel(
                old(self).channels@,
                address,
                crate::header::header_at(receive_buffer@).channel,
            ) ==> r.1@.len() == 0 && final(self).channels@.len() >= old(self).channels@.len()
                && forall|i: int|
                #![trigger spec_first_channel_match(old(self).channels@, address, crate::header::header_at(receive_buffer@).channel, i)]
                spec_first_channel_match(
                    old(self).channels@,
                    address,
                    crate::header::header_at(receive_buffer@).channel,
                    i,
                ) ==> ({
                    let h = crate::header::header_at(receive_buffer@);
                    let c0 = old(self).channels@[i];
                    &&& (h.message_type == MESSAGE_TYPE_NONE ==> final(self).channels@[i].receiver@
                        == crate::receiver::spec_receive_packet(
                        c0.receiver@,
                        h.sequence,
                        receive_buffer@,
                        received_len as nat,
                    ).0 && r.0 is Retry)
                    &&& (h.message_type == MESSAGE_TYPE_FRAGMENT && received_len
                        >= crate::header::TACHYON_FRAGMENTED_HEADER_SIZE ==> final(self).channels@[i].receiver@ == crate::receiver::spec_receive_packet(
                        c0.receiver@,
                        h.sequence,
                        receive_buffer@,
                        crate::header::TACHYON_FRAGMENTED_HEADER_SIZE as nat,
                    ).0 && r.0 is Retry)
                    &&& ((h.message_type == MESSAGE_TYPE_RELIABLE || h.message_type
                        == MESSAGE_TYPE_RELIABLE_WITH_NACK) ==> final(self).channels@[i].receiver@
                        == crate::receiver::spec_receive_packet(
                        c0.receiver@,
                        h.sequence,
                        receive_buffer@,
                        received_len as nat,
                    ).0 && r.0 == if crate::receiver::spec_receive_packet(
                        c0.receiver@,
                        h.sequence,
                        receive_buffer@,
                        received_len as nat,
                    ).1 {
                        ReceiveResult::Reliable { network_address: address, channel_id: h.channel }
                    } else {
                        ReceiveResult::Retry
                    })
                    &&& (h.message_type == MESSAGE_TYPE_NACK ==> final(self).channels@[i].receiver
                        == c0.receiver && r.0 is Retry && (crate::nack::parse_nack_message(
                        receive_buffer@,
                        TACHYON_HEADER_SIZE as int,
                    ) is Some ==> final(self).channels@[i].nacked_sequence_map@
                        == crate::channel::spec_nack_map_fold(
                        c0.nacked_sequence_map@,
                        crate::nack::expansions(
                            crate::nack::parse_nack_message(
                                receive_buffer@,
                                TACHYON_HEADER_SIZE as int,
                            ).unwrap().0,
                        ),
                        address,
                    )))
                }),
    {
        if received_len < TACHYON_HEADER_SIZE {
            return (ReceiveResult::Error, Vec::new());
        }
        let header = Header::read(receive_buffer);
        if self.is_server {
            if self.config.use_identity == 1 {
                if header.message_type == MESSAGE_TYPE_LINK_IDENTITY {
                    if received_len < TACHYON_CONNECTION_HEADER_SIZE {
                        return (ReceiveResult::Error, Vec::new());
                    }
                    let connection_header = ConnectionHeader::read(receive_buffer);
                    let linked = self.try_link_identity(
                        address,
                        connection_header.id,
                        connection_header.session_id,
                        now_ms,
                    );
                    return (ReceiveResult::Empty, linked.1);
                } else if header.message_type == MESSAGE_TYPE_UNLINK_IDENTITY {
                    if received_len < TACHYON_CONNECTION_HEADER_SIZE {
                        return (ReceiveResult::Error, Vec::new());
                    }
                    let connection_header = ConnectionHeader::read(receive_buffer);
                    let unlinked = self.try_unlink_identity(
                        address,
                        connection_header.id,
                        connection_header.session_id,
                    );
                    return (ReceiveResult::Empty, unlinked.1);
                } else {
                    if !self.validate_and_update_linked_connection(address, now_ms) {
                        return (ReceiveResult::Empty, Vec::new());
                    }
                }
            } else {
                self.on_receive_connection_update(address, now_ms);
            }
        } else {
            if self.config.use_identity == 1 {
                if header.message_type == MESSAGE_TYPE_IDENTITY_LINKED {
                    self.identity.set_linked(1);
                    return (ReceiveResult::Empty, Vec::new());
                } else if header.message_type == MESSAGE_TYPE_IDENTITY_UNLINKED {
                    self.identity.set_linked(0);
                    return (ReceiveResult::Empty, Vec::new());
                }
                if !self.identity.is_linked() {
                    return (ReceiveResult::Empty, Vec::new());
                }
            }
        }
        if header.message_type == MESSAGE_TYPE_UNRELIABLE {
            self.stats.unreliable_received = self.stats.unreliable_received.wrapping_add(1);
            return (
                ReceiveResult::UnReliable { received_len, network_address: address },
                Vec::new(),
            );
        }
        let ghost gated = *self;
        proof {
            assert(old(self).channels@.is_prefix_of(gated.channels@));
        }
        let index = match self.find_channel_index(address, header.channel) {
            Some(i) => i,
            None => {
                return (ReceiveResult::ChannelError, Vec::new());
            },
        };
        proof {
            assert forall|i: int|
                #![trigger spec_first_channel_match(old(self).channels@, address, header.channel, i)]
                spec_first_channel_match(
                    old(self).channels@,
                    address,
                    header.channel,
                    i,
                ) implies i == index as int && gated.channels@[i] == old(self).channels@[i] by {
                assert(gated.channels@[i] == old(self).channels@[i]);
                if (index as int) < i {
                    assert(gated.channels@[index as int] == old(self).channels@[index as int]);
                }
            }
        }
        let ghost pre = self.channels@;
        let channel = &mut self.channels[index];
        channel.stats.bytes_received = channel.stats.bytes_received.wrapping_add(
            received_len as u64,
        );
        let mut outcome = ReceiveResult::Retry;
        if header.message_type == MESSAGE_TYPE_NONE {
            channel.process_none_message(header.sequence, receive_buffer, received_len);
        } else if header.message_type == MESSAGE_TYPE_NACK {
            channel.process_nack_message(address, receive_buffer);
        } else if header.message_type == MESSAGE_TYPE_FRAGMENT {
            channel.process_fragment_message(header.sequence, receive_buffer, received_len, now_ms);
        } else if header.message_type == MESSAGE_TYPE_RELIABLE || header.message_type
            == MESSAGE_TYPE_RELIABLE_WITH_NACK {
            if header.message_type == MESSAGE_TYPE_RELIABLE_WITH_NACK {
                if received_len >= TACHYON_HEADER_SIZE + 6 {
                    channel.process_single_nack(address, receive_buffer);
                }
            }
            if channel.receiver.receive_packet(header.sequence, receive_buffer, received_len) {
                channel.stats.received = channel.stats.received.wrapping_add(1);
                outcome = ReceiveResult::Reliable {
                    network_address: address,
                    channel_id: channel.id,
                };
            }
        } else {
            outcome = ReceiveResult::Error;
        }
        proof {
            assert forall|j: int| 0 <= j < self.channels@.len() implies (
            #[trigger] self.channels@[j]).wf() by {
                if j != index as int {
                    assert(self.channels@[j] == pre[j]);
                }
            }
        }
        (outcome, Vec::new())
    }

    /// Drains one published message from a specific channel: when that
    /// channel's queue head is a fitting reliable message, its stripped
    /// payload is what lands in the buffer.
    pub fn receive_published_channel_id(
        &mut self,
        receive_buffer: &mut Vec<u8>,
        address: NetworkAddress,
        channel_id: u8,
    ) -> (r: u32)
        requires
            old(self).wf(),
        ensures
            final(self).wf(),
            final(receive_buffer).len() == old(receive_buffer).len(),
            !spec_has_channel(old(self).channels@, address, channel_id) ==> r == 0 && *final(self)
                == *old(self),
            forall|i: int|
                #![trigger spec_first_channel_match(old(self).channels@, address, channel_id, i)]
                spec_first_channel_match(old(self).channels@, address, channel_id, i)
                    && spec_head_fits_reliable(
                    old(self).channels@[i],
                    old(receive_buffer).len() as int,
                ) ==> ({
                    let msg = old(self).channels@[i].receiver@.published[0].payload();
                    &&& r == msg.len() - TACHYON_HEADER_SIZE
                    &&& final(receive_buffer)@.take(r as int) == msg.skip(
                        TACHYON_HEADER_SIZE as int,
                    )
                    &&& final(self).channels@[i].receiver@.published == old(self).channels@[i].receiver@.published.drop_first()
                }),
    {
        let index = match self.find_channel_index(address, channel_id) {
            Some(i) => i,
            None => {
                return 0;
            },
        };
        let ghost pre = self.channels@;
        let channel = &mut self.channels[index];
        let res = channel.receive_published(receive_buffer);
        proof {
            assert forall|j: int| 0 <= j < self.channels@.len() implies (
            #[trigger] self.channels@[j]).wf() by {
                if j != index as int {
                    assert(self.channels@[j] == pre[j]);
                }
            }
            assert forall|i: int|
                #![trigger spec_first_channel_match(old(self).channels@, address, channel_id, i)]
                spec_first_channel_match(
                    old(self).channels@,
                    address,
                    channel_id,
                    i,
                ) implies i == index as int by {
                }
        }
        res.0
    }

    /// Drains the first available published message over all channels; when
    /// the first channel's queue head is a fitting reliable message, that
    /// payload comes back with its channel and peer address.
    pub fn receive_published_all_channels(&mut self, receive_buffer: &mut Vec<u8>) -> (r:
        TachyonReceiveResult)
        requires
            old(self).wf(),
        ensures
            final(self).wf(),
            final(receive_buffer).len() == old(receive_buffer).len(),
            old(self).channels@.len() == 0 ==> r == (TachyonReceiveResult {
                channel: 0,
                address: NetworkAddress { a: 0, b: 0, c: 0, d: 0, port: 0 },
                length: 0,
                error: 0,
            }) && *final(self) == *old(self),
            old(self).channels@.len() > 0 && spec_head_fits_reliable(
                old(self).channels@[0],
                old(receive_buffer).len() as int,
            ) ==> ({
                let msg = old(self).channels@[0].receiver@.published[0].payload();
                &&& r.length == msg.len() - TACHYON_HEADER_SIZE
                &&& r.channel == old(self).channels@[0].id
                &&& r.address == old(self).channels@[0].address
                &&& r.error == 0
                &&& final(receive_buffer)@.take(r.length as int) == msg.skip(
                    TACHYON_HEADER_SIZE as int,
                )
            }),
            old(self).channels@.len() > 0 && old(self).channels@[0].receiver@.published.len() > 0
                && old(self).channels@[0].receiver@.published[0].wf()
                && crate::channel::spec_head_completes_group(
                old(self).channels@[0],
                old(receive_buffer).len() as int,
            ) ==> ({
                let msg = old(self).channels@[0].receiver@.published[0].payload();
                let fh = crate::header::fragmented_header_at(msg);
                let body = crate::fragmentation::spec_assembled(
                    crate::fragmentation::spec_group(
                        old(self).channels@[0].frag.received@,
                        fh.fragment_group,
                    ),
                    fh.fragment_start_sequence,
                    fh.fragment_count as nat,
                ).unwrap();
                &&& r.length == body.len()
                &&& r.channel == old(self).channels@[0].id
                &&& r.address == old(self).channels@[0].address
                &&& r.error == 0
                &&& final(receive_buffer)@.take(r.length as int) == body
            }),
    {
        let mut result = TachyonReceiveResult::default();
        if self.channels.len() == 0 {
            return result;
        }
        let ghost pre0 = self.channels@;
        let first_channel = &mut self.channels[0];
        let first_id = first_channel.id;
        let first_address = first_channel.address;
        let first = first_channel.receive_published(receive_buffer);
        proof {
            assert forall|j: int| 0 <= j < self.channels@.len() implies (
            #[trigger] self.channels@[j]).wf() by {
                if j != 0 {
                    assert(self.channels@[j] == pre0[j]);
                }
            }
        }
        if first.0 > 0 {
            result.length = first.0;
            result.address = first.1;
            result.channel = first_id as u16;
            return result;
        }
        let mut i: usize = 1;
        while i < self.channels.len()
            invariant
                self.wf(),
                self.channels@.len() == old(self).channels@.len(),
                receive_buffer.len() == old(receive_buffer).len(),
                *self == (Tachyon { channels: self.channels, ..*old(self) }),
                !spec_head_fits_reliable(
                    old(self).channels@[0],
                    old(receive_buffer).len() as int,
                ),
                !(old(self).channels@[0].receiver@.published.len() > 0 && old(self).channels@[0].receiver@.published[0].wf()
                    && crate::channel::spec_head_completes_group(
                    old(self).channels@[0],
                    old(receive_buffer).len() as int,
                )),
            decreases self.channels@.len() - i,
        {
            let ghost pre = self.channels@;
            let channel = &mut self.channels[i];
            let channel_id = channel.id;
            let res = channel.receive_published(receive_buffer);
            proof {
                assert forall|j: int| 0 <= j < self.channels@.len() implies (
                #[trigger] self.channels@[j]).wf() by {
                    if j != i as int {
                        assert(self.channels@[j] == pre[j]);
                    }
                }
            }
            if res.0 > 0 {
                result.length = res.0;
                result.address = res.1;
                result.channel = channel_id as u16;
                return result;
            }
            i = i + 1;
        }
        result
    }
}

} // verus!
