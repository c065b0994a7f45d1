use vstd::prelude::*;

use crate::network_address::NetworkAddress;

verus! {

/// Value of two bytes read little-endian.
pub open spec fn le16(b0: u8, b1: u8) -> u16 {
    (b0 as u16) | ((b1 as u16) << 8)
}

/// Value of four bytes read little-endian.
pub open spec fn le32(b0: u8, b1: u8, b2: u8, b3: u8) -> u32 {
    (b0 as u32) | ((b1 as u32) << 8) | ((b2 as u32) << 16) | ((b3 as u32) << 24)
}

/// The two little-endian bytes of `v`, low byte first.
pub open spec fn le16_bytes(v: u16) -> (u8, u8) {
    ((v & 0xff) as u8, ((v >> 8) & 0xff) as u8)
}

pub open spec fn le32_bytes(v: u32) -> (u8, u8, u8, u8) {
    (
        (v & 0xff) as u8,
        ((v >> 8) & 0xff) as u8,
        ((v >> 16) & 0xff) as u8,
        ((v >> 24) & 0xff) as u8,
    )
}

pub proof fn lemma_le16_roundtrip(v: u16)
    ensures
        le16(le16_bytes(v).0, le16_bytes(v).1) == v,
{
    assert(((v & 0xff) as u8) as u16 == v & 0xff) by (bit_vector);
    assert((((v >> 8) & 0xff) as u8) as u16 == (v >> 8) & 0xff) by (bit_vector);
    assert((v & 0xff) | (((v >> 8) & 0xff) << 8) == v) by (bit_vector);
}

pub proof fn lemma_le32_roundtrip(v: u32)
    ensures
        le32(le32_bytes(v).0, le32_bytes(v).1, le32_bytes(v).2, le32_bytes(v).3) == v,
{
    assert(((v & 0xff) as u8) as u32 == v & 0xff) by (bit_vector);
    assert((((v >> 8) & 0xff) as u8) as u32 == (v >> 8) & 0xff) by (bit_vector);
    assert((((v >> 16) & 0xff) as u8) as u32 == (v >> 16) & 0xff) by (bit_vector);
    assert((((v >> 24) & 0xff) as u8) as u32 == (v >> 24) & 0xff) by (bit_vector);
    assert((v & 0xff) | (((v >> 8) & 0xff) << 8) | (((v >> 16) & 0xff) << 16) | (((v >> 24) & 0xff)
        << 24) == v) by (bit_vector);
}

/// Cursor over a byte buffer for fixed-width little-endian reads and writes.
pub struct IntBuffer {
    pub index: usize,
}

impl IntBuffer {
    pub fn write_u8(&mut self, v: u8, data: &mut Vec<u8>)
        requires
            old(self).index + 1 <= old(data).len(),
        ensures
            final(self).index == old(self).index + 1,
            final(data)@ == old(data)@.update(old(self).index as int, v),
    {
        data.set(self.index, v);
        self.index = self.index + 1;
    }

    pub fn read_u8(&mut self, data: &Vec<u8>) -> (r: u8)
        requires
            old(self).index + 1 <= data.len(),
        ensures
            final(self).index == old(self).index + 1,
            r == data@[old(self).index as int],
    {
        let value = data[self.index];
        self.index = self.index + 1;
        value
    }

    pub fn write_u16(&mut self, v: u16, data: &mut Vec<u8>)
        requires
            old(self).index + 2 <= old(data).len(),
        ensures
            final(self).index == old(self).index + 2,
            final(data).len() == old(data).len(),
            le16(final(data)@[old(self).index as int], final(data)@[old(self).index + 1]) == v,
            forall|i: int|
                0 <= i < old(data).len() && !(old(self).index <= i < old(self).index + 2)
                    ==> final(data)@[i] == old(data)@[i],
    {
        data.set(self.index, (v & 0xff) as u8);
        data.set(self.index + 1, ((v >> 8) & 0xff) as u8);
        self.index = self.index + 2;
        proof {
            lemma_le16_roundtrip(v);
        }
    }

    pub fn read_u16(&mut self, data: &Vec<u8>) -> (r: u16)
        requires
            old(self).index + 2 <= data.len(),
        ensures
            final(self).index == old(self).index + 2,
            r == le16(data@[old(self).index as int], data@[old(self).index + 1]),
    {
        let value = (data[self.index] as u16) | (data[self.index + 1] as u16) << 8;
        self.index = self.index + 2;
        value
    }

    pub fn write_u32(&mut self, v: u32, data: &mut Vec<u8>)
        requires
            old(self).index + 4 <= old(data).len(),
        ensures
            final(self).index == old(self).index + 4,
            final(data).len() == old(data).len(),
            le32(
                final(data)@[old(self).index as int],
                final(data)@[old(self).index + 1],
                final(data)@[old(self).index + 2],
                final(data)@[old(self).index + 3],
            ) == v,
            forall|i: int|
                0 <= i < old(data).len() && !(old(self).index <= i < old(self).index + 4)
                    ==> final(data)@[i] == old(data)@[i],
    {
        data.set(self.index, (v & 0xff) as u8);
        data.set(self.index + 1, ((v >> 8) & 0xff) as u8);
        data.set(self.index + 2, ((v >> 16) & 0xff) as u8);
        data.set(self.index + 3, ((v >> 24) & 0xff) as u8);
        self.index = self.index + 4;
        proof {
            lemma_le32_roundtrip(v);
        }
    }

    pub fn read_u32(&mut self, data: &Vec<u8>) -> (r: u32)
        requires
            old(self).index + 4 <= data.len(),
        ensures
            final(self).index == old(self).index + 4,
            r == le32(
                data@[old(self).index as int],
                data@[old(self).index + 1],
                data@[old(self).index + 2],
                data@[old(self).index + 3],
            ),
    {
        let value = (data[self.index] as u32) | (data[self.index + 1] as u32) << 8 | (data[self.index
            + 2] as u32) << 16 | (data[self.index + 3] as u32) << 24;
        self.index = self.index + 4;
        value
    }

    pub fn write_address(&mut self, address: NetworkAddress, data: &mut Vec<u8>)
        requires
            old(self).index + 12 <= old(data).len(),
        ensures
            final(self).index == old(self).index + 12,
            final(data).len() == old(data).len(),
            address_at(final(data)@, old(self).index as int) == address,
            forall|i: int|
                0 <= i < old(data).len() && !(old(self).index <= i < old(self).index + 12)
                    ==> final(data)@[i] == old(data)@[i],
    {
        self.write_u16(address.a, data);
        self.write_u16(address.b, data);
        self.write_u16(address.c, data);
        self.write_u16(address.d, data);
        self.write_u32(address.port, data);
    }

    pub fn read_address(&mut self, data: &Vec<u8>) -> (r: NetworkAddress)
        requires
            old(self).index + 12 <= data.len(),
        ensures
            final(self).index == old(self).index + 12,
            r == address_at(data@, old(self).index as int),
    {
        let a = self.read_u16(data);
        let b = self.read_u16(data);
        let c = self.read_u16(data);
        let d = self.read_u16(data);
        let port = self.read_u32(data);
        NetworkAddress { a, b, c, d, port }
    }

    /// Packs two 4-bit values into one byte, `v1` in the low nibble.
    pub fn u4_to_u8(v1: u8, v2: u8) -> (r: u8)
        ensures
            r == (v1 | (v2 << 4)),
    {
        v1 | v2 << 4
    }

    /// Splits a byte into its low and high nibbles.
    pub fn u8_to_u4(byte: u8) -> (r: (u8, u8))
        ensures
            r.0 == (byte & 0x0f),
            r.1 == (byte >> 4),
    {
        (byte & 0x0f, byte >> 4)
    }
}

/// Copies `count` bytes from `src` starting at `src_offset` into `dst`
/// starting at `dst_offset`; all other bytes of `dst` keep their values.
pub fn copy_bytes(dst: &mut Vec<u8>, dst_offset: usize, src: &Vec<u8>, src_offset: usize,
    count: usize)
    requires
        dst_offset + count <= old(dst).len(),
        src_offset + count <= src.len(),
    ensures
        final(dst).len() == old(dst).len(),
        forall|i: int|
            dst_offset <= i < dst_offset + count ==> final(dst)@[i] == src@[i - dst_offset
                + src_offset],
        forall|i: int|
            0 <= i < old(dst).len() && !(dst_offset <= i < dst_offset + count) ==> final(dst)@[i]
                == old(dst)@[i],
{
    let mut k: usize = 0;
    while k < count
        invariant
            k <= count,
            dst_offset + count <= dst.len(),
            src_offset + count <= src.len(),
            dst.len() == old(dst).len(),
            forall|i: int|
                dst_offset <= i < dst_offset + k ==> dst@[i] == src@[i - dst_offset + src_offset],
            forall|i: int|
                0 <= i < old(dst).len() && !(dst_offset <= i < dst_offset + k) ==> dst@[i] == old(
                    dst,
                )@[i],
        decreases count - k,
    {
        dst.set(dst_offset + k, src[src_offset + k]);
        k = k + 1;
    }
}

/// Appends `count` bytes of `src` starting at `src_offset` to `dst`.
pub fn append_bytes(dst: &mut Vec<u8>, src: &Vec<u8>, src_offset: usize, count: usize)
    requires
        src_offset + count <= src.len(),
    ensures
        final(dst)@ == old(dst)@ + src@.subrange(src_offset as int, src_offset + count),
{
    let mut k: usize = 0;
    while k < count
        invariant
            k <= count,
            src_offset + count <= src.len(),
            dst@ == old(dst)@ + src@.subrange(src_offset as int, src_offset + k),
        decreases count - k,
    {
        dst.push(src[src_offset + k]);
        k = k + 1;
        proof {
            assert(dst@ =~= old(dst)@ + src@.subrange(src_offset as int, src_offset + k));
        }
    }
    proof {
        assert(old(dst)@ + src@.subrange(src_offset as int, src_offset as int) =~= old(dst)@);
    }
}

/// The network address encoded at position `i`: four 16-bit quad parts and a
/// 32-bit port, all little-endian.
pub open spec fn address_at(data: Seq<u8>, i: int) -> NetworkAddress {
    NetworkAddress {
        a: le16(data[i], data[i + 1]),
        b: le16(data[i + 2], data[i + 3]),
        c: le16(data[i + 4], data[i + 5]),
        d: le16(data[i + 6], data[i + 7]),
        port: le32(data[i + 8], data[i + 9], data[i + 10], data[i + 11]),
    }
}

/// Paired cursors for reading and writing length-prefixed messages: each
/// record is a 32-bit length, a 16-bit channel, an address, then the bytes.
pub struct LengthPrefixed {
    pub reader: IntBuffer,
    pub writer: IntBuffer,
}

impl LengthPrefixed {
    pub fn default() -> (r: Self)
        ensures
            r.reader.index == 0,
            r.writer.index == 0,
    {
        LengthPrefixed { reader: IntBuffer { index: 0 }, writer: IntBuffer { index: 0 } }
    }

    /// Appends one framed message at the write cursor.
    pub fn write(&mut self, channel: u16, src_address: NetworkAddress, src: &Vec<u8>,
        dst: &mut Vec<u8>)
        requires
            old(self).writer.index + 18 + src.len() <= old(dst).len(),
            src.len() < 0x1_0000_0000,
        ensures
            final(self).reader == old(self).reader,
            final(self).writer.index == old(self).writer.index + 18 + src.len(),
            final(dst).len() == old(dst).len(),
            ({
                let base = old(self).writer.index as int;
                &&& le32(final(dst)@[base], final(dst)@[base + 1], final(dst)@[base + 2],
                    final(dst)@[base + 3]) == src.len()
                &&& le16(final(dst)@[base + 4], final(dst)@[base + 5]) == channel
                &&& address_at(final(dst)@, base + 6) == src_address
                &&& final(dst)@.subrange(base + 18, base + 18 + src.len()) == src@
            }),
            forall|i: int|
                0 <= i < old(dst).len() && !(old(self).writer.index <= i < old(self).writer.index
                    + 18 + src.len()) ==> final(dst)@[i] == old(dst)@[i],
    {
        self.writer.write_u32(src.len() as u32, dst);
        self.writer.write_u16(channel, dst);
        self.writer.write_address(src_address, dst);
        copy_bytes(dst, self.writer.index, src, 0, src.len());
        let ghost base = old(self).writer.index as int;
        proof {
            assert(dst@.subrange(base + 18, base + 18 + src.len()) =~= src@);
        }
        self.writer.index = self.writer.index + src.len();
    }

    /// Reads one framed message at the read cursor, returning its channel,
    /// source address and the byte range of its body.
    pub fn read(&mut self, data: &Vec<u8>) -> (r: (u16, NetworkAddress, usize, usize))
        requires
            old(self).reader.index + 18 <= data.len(),
            old(self).reader.index + 18 + le32(
                data@[old(self).reader.index as int],
                data@[old(self).reader.index + 1],
                data@[old(self).reader.index + 2],
                data@[old(self).reader.index + 3],
            ) <= data.len(),
        ensures
            final(self).writer == old(self).writer,
            ({
                let base = old(self).reader.index as int;
                let len = le32(data@[base], data@[base + 1], data@[base + 2], data@[base + 3]);
                &&& r.0 == le16(data@[base + 4], data@[base + 5])
                &&& r.1 == address_at(data@, base + 6)
                &&& r.2 == base + 18
                &&& r.3 == base + 18 + len
                &&& final(self).reader.index == base + 18 + len
            }),
    {
        let len = self.reader.read_u32(data) as usize;
        let channel = self.reader.read_u16(data);
        let address = self.reader.read_address(data);
        let start = self.reader.index;
        self.reader.index = self.reader.index + len;
        (channel, address, start, start + len)
    }
}

} // verus!
