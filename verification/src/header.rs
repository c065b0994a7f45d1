use vstd::prelude::*;

use crate::int_buffer::{le16, le32, IntBuffer};

verus! {

pub const MESSAGE_TYPE_UNRELIABLE: u8 = 0;
pub const MESSAGE_TYPE_RELIABLE: u8 = 1;
pub const MESSAGE_TYPE_FRAGMENT: u8 = 2;
pub const MESSAGE_TYPE_NONE: u8 = 3;
pub const MESSAGE_TYPE_NACK: u8 = 4;
pub const MESSAGE_TYPE_RELIABLE_WITH_NACK: u8 = 5;

pub const MESSAGE_TYPE_LINK_IDENTITY: u8 = 6;
pub const MESSAGE_TYPE_UNLINK_IDENTITY: u8 = 7;

pub const MESSAGE_TYPE_IDENTITY_LINKED: u8 = 8;
pub const MESSAGE_TYPE_IDENTITY_UNLINKED: u8 = 9;

/// Base on-wire header: message type, channel, 16-bit sequence.
pub const TACHYON_HEADER_SIZE: usize = 4;

/// Base header plus piggybacked NACK: start sequence and 32-bit flags.
pub const TACHYON_NACKED_HEADER_SIZE: usize = 10;

/// Base header plus fragment group, start sequence and count.
pub const TACHYON_FRAGMENTED_HEADER_SIZE: usize = 10;

/// Connection header: message type, 32-bit id, 32-bit session id.
pub const TACHYON_CONNECTION_HEADER_SIZE: usize = 9;

#[derive(Clone, Copy, PartialEq, Eq, Structural, Debug)]
pub struct ConnectionHeader {
    pub message_type: u8,
    pub id: u32,
    pub session_id: u32,
}

impl Default for ConnectionHeader {
    fn default() -> (r: Self)
        ensures
            r == (ConnectionHeader { message_type: 0, id: 0, session_id: 0 }),
    {
        ConnectionHeader { message_type: 0, id: 0, session_id: 0 }
    }
}

/// The connection header encoded at the start of `data`.
pub open spec fn connection_header_at(data: Seq<u8>) -> ConnectionHeader {
    ConnectionHeader {
        message_type: data[0],
        id: le32(data[1], data[2], data[3], data[4]),
        session_id: le32(data[5], data[6], data[7], data[8]),
    }
}

impl ConnectionHeader {
    pub fn read(buffer: &Vec<u8>) -> (r: Self)
        requires
            buffer.len() >= TACHYON_CONNECTION_HEADER_SIZE,
        ensures
            r == connection_header_at(buffer@),
    {
        let mut reader = IntBuffer { index: 0 };
        let message_type = reader.read_u8(buffer);
        let id = reader.read_u32(buffer);
        let session_id = reader.read_u32(buffer);
        ConnectionHeader { message_type, id, session_id }
    }

    pub fn write(&self, buffer: &mut Vec<u8>)
        requires
            old(buffer).len() >= TACHYON_CONNECTION_HEADER_SIZE,
        ensures
            final(buffer).len() == old(buffer).len(),
            connection_header_at(final(buffer)@) == *self,
            forall|i: int| 9 <= i < old(buffer).len() ==> final(buffer)@[i] == old(buffer)@[i],
    {
        let mut writer = IntBuffer { index: 0 };
        writer.write_u8(self.message_type, buffer);
        writer.write_u32(self.id, buffer);
        writer.write_u32(self.session_id, buffer);
    }
}

/// In-memory header record; which optional fields are meaningful depends on
/// the message type.
#[derive(Clone, Copy, PartialEq, Eq, Structural, Debug)]
pub struct Header {
    pub message_type: u8,
    pub channel: u8,
    pub sequence: u16,
    pub fragment_group: u16,
    pub fragment_start_sequence: u16,
    pub fragment_count: u16,
    pub start_sequence: u16,
    pub flags: u32,
}

impl Default for Header {
    fn default() -> (r: Self)
        ensures
            r == spec_header_default(),
    {
        Header {
            message_type: 0,
            channel: 0,
            sequence: 0,
            fragment_group: 0,
            fragment_start_sequence: 0,
            fragment_count: 0,
            start_sequence: 0,
            flags: 0,
        }
    }
}

pub open spec fn spec_header_default() -> Header {
    Header {
        message_type: 0,
        channel: 0,
        sequence: 0,
        fragment_group: 0,
        fragment_start_sequence: 0,
        fragment_count: 0,
        start_sequence: 0,
        flags: 0,
    }
}

/// The base header fields encoded at the start of `data`; all other fields
/// read as zero.
pub open spec fn header_at(data: Seq<u8>) -> Header {
    Header {
        message_type: data[0],
        channel: data[1],
        sequence: le16(data[2], data[3]),
        ..spec_header_default()
    }
}

/// The fragmented header fields encoded at the start of `data`.
pub open spec fn fragmented_header_at(data: Seq<u8>) -> Header {
    Header {
        message_type: data[0],
        channel: data[1],
        sequence: le16(data[2], data[3]),
        fragment_group: le16(data[4], data[5]),
        fragment_start_sequence: le16(data[6], data[7]),
        fragment_count: le16(data[8], data[9]),
        ..spec_header_default()
    }
}

/// The base-plus-NACK header fields encoded at the start of `data`.
pub open spec fn nacked_header_at(data: Seq<u8>) -> Header {
    Header {
        message_type: data[0],
        channel: data[1],
        sequence: le16(data[2], data[3]),
        start_sequence: le16(data[4], data[5]),
        flags: le32(data[6], data[7], data[8], data[9]),
        ..spec_header_default()
    }
}

impl Header {
    pub fn write_unreliable(&self, buffer: &mut Vec<u8>)
        requires
            old(buffer).len() >= 1,
        ensures
            final(buffer)@ == old(buffer)@.update(0, self.message_type),
    {
        let mut writer = IntBuffer { index: 0 };
        writer.write_u8(self.message_type, buffer);
    }

    pub fn write(&self, buffer: &mut Vec<u8>)
        requires
            old(buffer).len() >= TACHYON_HEADER_SIZE,
        ensures
            final(buffer).len() == old(buffer).len(),
            header_at(final(buffer)@).message_type == self.message_type,
            header_at(final(buffer)@).channel == self.channel,
            header_at(final(buffer)@).sequence == self.sequence,
            forall|i: int| 4 <= i < old(buffer).len() ==> final(buffer)@[i] == old(buffer)@[i],
    {
        let mut writer = IntBuffer { index: 0 };
        writer.write_u8(self.message_type, buffer);
        writer.write_u8(self.channel, buffer);
        writer.write_u16(self.sequence, buffer);
    }

    pub fn write_nacked(&self, buffer: &mut Vec<u8>)
        requires
            old(buffer).len() >= TACHYON_NACKED_HEADER_SIZE,
        ensures
            final(buffer).len() == old(buffer).len(),
            nacked_header_at(final(buffer)@).message_type == self.message_type,
            nacked_header_at(final(buffer)@).channel == self.channel,
            nacked_header_at(final(buffer)@).sequence == self.sequence,
            nacked_header_at(final(buffer)@).start_sequence == self.start_sequence,
            nacked_header_at(final(buffer)@).flags == self.flags,
            forall|i: int| 10 <= i < old(buffer).len() ==> final(buffer)@[i] == old(buffer)@[i],
    {
        let mut writer = IntBuffer { index: 0 };
        writer.write_u8(self.message_type, buffer);
        writer.write_u8(self.channel, buffer);
        writer.write_u16(self.sequence, buffer);
        writer.write_u16(self.start_sequence, buffer);
        writer.write_u32(self.flags, buffer);
    }

    pub fn read(buffer: &Vec<u8>) -> (r: Self)
        requires
            buffer.len() >= TACHYON_HEADER_SIZE,
        ensures
            r == header_at(buffer@),
    {
        let mut reader = IntBuffer { index: 0 };
        let message_type = reader.read_u8(buffer);
        let channel = reader.read_u8(buffer);
        let sequence = reader.read_u16(buffer);
        Header { message_type, channel, sequence, ..Header::default() }
    }

    pub fn write_fragmented(&self, buffer: &mut Vec<u8>)
        requires
            old(buffer).len() >= TACHYON_FRAGMENTED_HEADER_SIZE,
        ensures
            final(buffer).len() == old(buffer).len(),
            fragmented_header_at(final(buffer)@).message_type == self.message_type,
            fragmented_header_at(final(buffer)@).channel == self.channel,
            fragmented_header_at(final(buffer)@).sequence == self.sequence,
            fragmented_header_at(final(buffer)@).fragment_group == self.fragment_group,
            fragmented_header_at(final(buffer)@).fragment_start_sequence
                == self.fragment_start_sequence,
            fragmented_header_at(final(buffer)@).fragment_count == self.fragment_count,
            forall|i: int| 10 <= i < old(buffer).len() ==> final(buffer)@[i] == old(buffer)@[i],
    {
        let mut writer = IntBuffer { index: 0 };
        writer.write_u8(self.message_type, buffer);
        writer.write_u8(self.channel, buffer);
        writer.write_u16(self.sequence, buffer);
        writer.write_u16(self.fragment_group, buffer);
        writer.write_u16(self.fragment_start_sequence, buffer);
        writer.write_u16(self.fragment_count, buffer);
    }

    pub fn read_fragmented(buffer: &Vec<u8>) -> (r: Self)
        requires
            buffer.len() >= TACHYON_FRAGMENTED_HEADER_SIZE,
        ensures
            r == fragmented_header_at(buffer@),
    {
        let mut reader = IntBuffer { index: 0 };
        let message_type = reader.read_u8(buffer);
        let channel = reader.read_u8(buffer);
        let sequence = reader.read_u16(buffer);
        let fragment_group = reader.read_u16(buffer);
        let fragment_start_sequence = reader.read_u16(buffer);
        let fragment_count = reader.read_u16(buffer);
        Header {
            message_type,
            channel,
            sequence,
            fragment_group,
            fragment_start_sequence,
            fragment_count,
            ..Header::default()
        }
    }

    pub fn read_nacked(buffer: &Vec<u8>) -> (r: Self)
        requires
            buffer.len() >= TACHYON_NACKED_HEADER_SIZE,
        ensures
            r == nacked_header_at(buffer@),
    {
        let mut reader = IntBuffer { index: 0 };
        let message_type = reader.read_u8(buffer);
        let channel = reader.read_u8(buffer);
        let sequence = reader.read_u16(buffer);
        let start_sequence = reader.read_u16(buffer);
        let flags = reader.read_u32(buffer);
        Header { message_type, channel, sequence, start_sequence, flags, ..Header::default() }
    }

    pub fn create_fragmented(sequence: u16, channel: u8, group: u16, start: u16, count: u16) -> (r:
        Self)
        ensures
            r == (Header {
                message_type: MESSAGE_TYPE_FRAGMENT,
                sequence,
                channel,
                fragment_group: group,
                fragment_start_sequence: start,
                fragment_count: count,
                ..spec_header_default()
            }),
    {
        Header {
            message_type: MESSAGE_TYPE_FRAGMENT,
            sequence,
            channel,
            fragment_group: group,
            fragment_start_sequence: start,
            fragment_count: count,
            ..Header::default()
        }
    }
}

} // verus!
