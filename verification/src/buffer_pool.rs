use std::collections::VecDeque;

use vstd::prelude::*;

verus! {

pub const BYTE_BUFFER_SIZE_DEFAULT: usize = 1240;

pub const POOL_SIZE_DEFAULT: usize = 512;

/// A byte buffer with a semantic length that may be shorter than its backing
/// storage.  `pooled` records whether it came from a pool; `version` counts
/// how often it was returned, advisory only.
pub struct ByteBuffer {
    pub data: Vec<u8>,
    pub length: usize,
    pub pooled: bool,
    pub version: u64,
}

/// Mathematical value of a [`ByteBuffer`].
pub struct ByteBufView {
    pub data: Seq<u8>,
    pub length: nat,
    pub pooled: bool,
    pub version: u64,
}

impl View for ByteBuffer {
    type V = ByteBufView;

    open spec fn view(&self) -> ByteBufView {
        ByteBufView {
            data: self.data@,
            length: self.length as nat,
            pooled: self.pooled,
            version: self.version,
        }
    }
}

impl ByteBufView {
    /// The backing storage covers the semantic length.
    pub open spec fn wf(self) -> bool {
        self.length <= self.data.len()
    }

    /// The bytes the buffer stands for.
    pub open spec fn payload(self) -> Seq<u8> {
        self.data.take(self.length as int)
    }
}

impl ByteBuffer {
    pub fn create(length: usize) -> (r: Self)
        ensures
            r@ == (ByteBufView {
                data: Seq::new(length as nat, |i: int| 0u8),
                length: length as nat,
                pooled: false,
                version: 0,
            }),
            r@.wf(),
    {
        let byte_buffer = ByteBuffer { data: vec![0u8; length], length, pooled: false, version: 0 };
        proof {
            assert(byte_buffer@.data =~= Seq::new(length as nat, |i: int| 0u8));
        }
        byte_buffer
    }

    pub fn get(&self) -> (r: &Vec<u8>)
        ensures
            r@ == self@.data,
    {
        &self.data
    }

    pub fn get_mut(&mut self) -> (r: &mut Vec<u8>)
        ensures
            r@ == old(self)@.data,
            final(self).length == old(self).length,
            final(self).pooled == old(self).pooled,
            final(self).version == old(self).version,
            final(self)@.data == final(r)@,
    {
        &mut self.data
    }

    /// Overwrites the first `count` bytes with the first `count` bytes of
    /// `src`.
    pub fn fill_from(&mut self, src: &Vec<u8>, count: usize)
        requires
            count <= old(self)@.data.len(),
            count <= src.len(),
        ensures
            final(self).length == old(self).length,
            final(self).pooled == old(self).pooled,
            final(self).version == old(self).version,
            final(self)@.data.len() == old(self)@.data.len(),
            forall|i: int| 0 <= i < count ==> final(self)@.data[i] == src@[i],
            forall|i: int|
                count <= i < old(self)@.data.len() ==> final(self)@.data[i] == old(self)@.data[i],
    {
        crate::int_buffer::copy_bytes(&mut self.data, 0, src, 0, count);
    }
}

/// Mathematical value of a [`ByteBufferPool`]: the free list plus its sizing.
pub struct PoolView {
    pub buffer_size: nat,
    pub pool_size: nat,
    pub free: Seq<ByteBufView>,
}

/// What handing out a buffer of semantic length `length` does to a pool:
/// oversized requests get a fresh unpooled buffer, otherwise the oldest free
/// buffer leaves the pool (its storage zero-padded up to the requested
/// length if a smaller buffer had been adopted), and an empty pool allocates
/// a fresh pooled buffer.
pub open spec fn spec_pool_get(p: PoolView, length: nat) -> (PoolView, ByteBufView) {
    if length > p.buffer_size {
        (
            p,
            ByteBufView { data: Seq::new(length, |i: int| 0u8), length, pooled: false, version: 0 },
        )
    } else if p.free.len() > 0 {
        let b0 = p.free[0];
        let data = if b0.data.len() >= length {
            b0.data
        } else {
            b0.data + Seq::new((length - b0.data.len()) as nat, |i: int| 0u8)
        };
        (
            PoolView { free: p.free.drop_first(), ..p },
            ByteBufView { data, length, pooled: b0.pooled, version: b0.version },
        )
    } else {
        (
            p,
            ByteBufView {
                data: Seq::new(p.buffer_size, |i: int| 0u8),
                length,
                pooled: true,
                version: 0,
            },
        )
    }
}

/// What returning a buffer does to a pool: a buffer no larger than the
/// pooled size joins the free list with its version bumped while the pool
/// has room; anything else is dropped.
pub open spec fn spec_pool_return(p: PoolView, b: ByteBufView) -> (PoolView, bool) {
    if b.length <= p.buffer_size && p.free.len() < p.pool_size {
        (
            PoolView { free: p.free.push(ByteBufView { version: b.version.wrapping_add(1), ..b }), ..p },
            true,
        )
    } else {
        (p, false)
    }
}

/// Taking a buffer from a pool with at least one free buffer and returning
/// it afterwards leaves the free count unchanged: no buffer leaks and none
/// is counted twice.
pub proof fn lemma_pool_get_return_free_count(p: PoolView, length: nat)
    requires
        length <= p.buffer_size,
        1 <= p.free.len() <= p.pool_size,
    ensures
        ({
            let (p1, b) = spec_pool_get(p, length);
            spec_pool_return(p1, b).0.free.len() == p.free.len()
        }),
{
}

/// Bounded free list of byte buffers.  Requests larger than the pooled
/// buffer size are served by fresh unpooled allocations.
pub struct ByteBufferPool {
    pub buffer_size: usize,
    pub pool_size: usize,
    pub buffers: VecDeque<ByteBuffer>,
    pub count: usize,
}

impl View for ByteBufferPool {
    type V = PoolView;

    open spec fn view(&self) -> PoolView {
        PoolView {
            buffer_size: self.buffer_size as nat,
            pool_size: self.pool_size as nat,
            free: self.buffers@.map(|i: int, b: ByteBuffer| b@),
        }
    }
}

impl ByteBufferPool {
    pub open spec fn wf(self) -> bool {
        self.count == self.buffers@.len() && self.buffers@.len() <= self.pool_size
    }

    pub fn default() -> (r: Self)
        ensures
            r.wf(),
            r@.buffer_size == BYTE_BUFFER_SIZE_DEFAULT,
            r@.pool_size == POOL_SIZE_DEFAULT,
            r@.free.len() == 0,
    {
        ByteBufferPool::create(BYTE_BUFFER_SIZE_DEFAULT, POOL_SIZE_DEFAULT)
    }

    pub fn create(buffer_size: usize, max_buffers: usize) -> (r: Self)
        ensures
            r.wf(),
            r@.buffer_size == buffer_size,
            r@.pool_size == max_buffers,
            r@.free.len() == 0,
    {
        let pool = ByteBufferPool {
            buffer_size,
            pool_size: max_buffers,
            buffers: VecDeque::new(),
            count: 0,
        };
        proof {
            assert(pool@.free =~= Seq::<ByteBufView>::empty());
        }
        pool
    }

    pub fn len(&self) -> (r: usize)
        ensures
            r == self@.free.len(),
    {
        self.buffers.len()
    }

    /// Accepts the buffer back when it is no larger than the pooled size and
    /// the pool is not full; otherwise the buffer is dropped.
    pub fn return_buffer(&mut self, byte_buffer: ByteBuffer) -> (r: bool)
        requires
            old(self).wf(),
        ensures
            final(self).wf(),
            final(self)@.buffer_size == old(self)@.buffer_size,
            final(self)@.pool_size == old(self)@.pool_size,
            r == (byte_buffer@.length <= old(self)@.buffer_size && old(self)@.free.len() < old(
                self,
            )@.pool_size),
            final(self)@ == spec_pool_return(old(self)@, byte_buffer@).0,
            r == spec_pool_return(old(self)@, byte_buffer@).1,
            r ==> final(self)@.free == old(self)@.free.push(
                ByteBufView { version: byte_buffer@.version.wrapping_add(1), ..byte_buffer@ },
            ),
            !r ==> final(self)@.free == old(self)@.free,
    {
        let ghost orig = byte_buffer@;
        let mut byte_buffer = byte_buffer;
        if byte_buffer.length <= self.buffer_size {
            if self.count < self.pool_size {
                byte_buffer.version = byte_buffer.version.wrapping_add(1);
                self.buffers.push_back(byte_buffer);
                self.count = self.count + 1;
                proof {
                    assert(self@.free =~= old(self)@.free.push(
                        ByteBufView { version: orig.version.wrapping_add(1), ..orig },
                    ));
                }
                return true;
            }
        }
        false
    }

    /// Hands out a buffer of semantic length `length`: a fresh unpooled one
    /// for oversized requests, else the oldest free buffer (its storage grown
    /// if a smaller buffer had been adopted), else a fresh pooled one.
    pub fn get_buffer(&mut self, length: usize) -> (r: ByteBuffer)
        requires
            old(self).wf(),
        ensures
            final(self).wf(),
            final(self)@.buffer_size == old(self)@.buffer_size,
            final(self)@.pool_size == old(self)@.pool_size,
            r@.wf(),
            r@.length == length,
            final(self)@ == spec_pool_get(old(self)@, length as nat).0,
            r@ == spec_pool_get(old(self)@, length as nat).1,
            length > old(self)@.buffer_size ==> final(self)@.free == old(self)@.free && r@.data
                == Seq::new(length as nat, |i: int| 0u8) && !r@.pooled && r@.version == 0,
            length <= old(self)@.buffer_size && old(self)@.free.len() > 0 ==> final(self)@.free
                == old(self)@.free.drop_first() && r@.pooled == old(self)@.free[0].pooled
                && r@.version == old(self)@.free[0].version && r@.data.len() >= old(
                self,
            )@.free[0].data.len() && r@.data.take(old(self)@.free[0].data.len() as int) == old(
                self,
            )@.free[0].data,
            length <= old(self)@.buffer_size && old(self)@.free.len() == 0 ==> final(self)@.free
                == old(self)@.free && r@.data == Seq::new(
                old(self)@.buffer_size as nat,
                |i: int| 0u8,
            ) && r@.pooled && r@.version == 0,
    {
        if length > self.buffer_size {
            let buffer = ByteBuffer { data: vec![0u8; length], length, pooled: false, version: 0 };
            proof {
                assert(buffer@.data =~= Seq::new(length as nat, |i: int| 0u8));
            }
            return buffer;
        }
        match self.buffers.pop_front() {
            Some(mut pooled) => {
                self.count = self.count - 1;
                if pooled.data.len() < length {
                    pooled.data.resize(length, 0u8);
                }
                pooled.length = length;
                proof {
                    assert(self@.free =~= old(self)@.free.drop_first());
                    assert(pooled@.data.take(old(self)@.free[0].data.len() as int) =~= old(
                        self,
                    )@.free[0].data);
                    let b0 = old(self)@.free[0];
                    if b0.data.len() >= length {
                        assert(pooled@.data =~= b0.data);
                    } else {
                        assert(pooled@.data =~= b0.data + Seq::new(
                            (length - b0.data.len()) as nat,
                            |i: int| 0u8,
                        ));
                    }
                }
                pooled
            },
            None => {
                let data: Vec<u8> = vec![0u8; self.buffer_size];
                let buffer = ByteBuffer { data, length, pooled: true, version: 0 };
                proof {
                    assert(buffer@.data =~= Seq::new(old(self)@.buffer_size as nat, |i: int| 0u8));
                }
                buffer
            },
        }
    }
}

} // verus!
