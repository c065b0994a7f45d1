use vstd::prelude::*;

use crate::int_buffer::{le16, le32, IntBuffer};
use crate::sequence::{seq_prev, seq_prev_n, Sequence};

verus! {

/// A negative acknowledgement: a base sequence plus a 32-bit bitmap, where
/// bit `i` set means the `(i + 1)`-fold predecessor of the base is also
/// missing.
#[derive(Clone, Copy, PartialEq, Eq, Structural, Debug)]
pub struct Nack {
    pub start_sequence: u16,
    pub flags: u32,
    pub nacked_count: u32,
    pub sent_count: u32,
}

impl Default for Nack {
    fn default() -> (r: Self)
        ensures
            r == (Nack { start_sequence: 0, flags: 0, nacked_count: 0, sent_count: 0 }),
    {
        Nack { start_sequence: 0, flags: 0, nacked_count: 0, sent_count: 0 }
    }
}

/// Whether bit `i` of `flags` is set.
pub open spec fn nack_bit(flags: u32, i: int) -> bool {
    flags >> (i as u32) & 1 == 1
}

/// The flagged predecessors among the first `i` bits, in bit order: bit
/// `j` contributes the `(j + 1)`-fold predecessor of the base.
pub open spec fn flagged_upto(n: Nack, i: int) -> Seq<u16>
    decreases i,
{
    if i <= 0 {
        Seq::empty()
    } else {
        flagged_upto(n, i - 1) + if nack_bit(n.flags, i - 1) {
            seq![seq_prev_n(n.start_sequence, i as nat)]
        } else {
            Seq::empty()
        }
    }
}

/// Every sequence a record stands for: the base, then each flagged
/// predecessor.
pub open spec fn nack_expansion(n: Nack) -> Seq<u16> {
    seq![n.start_sequence] + flagged_upto(n, 32)
}

/// Whether the record stands for `s`.
pub open spec fn nack_covers(n: Nack, s: u16) -> bool {
    s == n.start_sequence || exists|i: int|
        0 <= i < 32 && nack_bit(n.flags, i) && s == seq_prev_n(n.start_sequence, (i + 1) as nat)
}

/// Taking one off `n` moves its remainder modulo 65535 down by one, wrapping
/// from 0 to 65534.
proof fn lemma_mod65535_dec(n: int)
    ensures
        (n - 1) % 65535 == if n % 65535 == 0 {
            65534int
        } else {
            n % 65535 - 1
        },
{
    let r = n % 65535;
    let q = n / 65535;
    vstd::arithmetic::div_mod::lemma_fundamental_div_mod(n, 65535);
    vstd::arithmetic::div_mod::lemma_mod_bound(n, 65535);
    if r == 0 {
        vstd::arithmetic::div_mod::lemma_fundamental_div_mod_converse(
            n - 1,
            65535,
            q - 1,
            65534,
        );
    } else {
        vstd::arithmetic::div_mod::lemma_fundamental_div_mod_converse(n - 1, 65535, q, r - 1);
    }
}

/// Closed form for iterated predecessors: stepping back `k` times is
/// subtraction modulo 65535 on the sequence space `0 ..= 65534`.
pub proof fn lemma_prev_n_closed_form(x: u16, k: nat)
    requires
        x <= 65534 || k >= 1,
    ensures
        seq_prev_n(x, k) == ((x as int - k as int) % 65535) as u16,
    decreases k,
{
    if k == 0 {
        vstd::arithmetic::div_mod::lemma_small_mod(x as nat, 65535);
        assert(seq_prev_n(x, 0) == x);
    } else if x == 65535 && k == 1 {
        vstd::arithmetic::div_mod::lemma_small_mod(65534nat, 65535);
        assert(seq_prev_n(x, 0) == x);
        assert(seq_prev_n(x, 1) == seq_prev(seq_prev_n(x, 0)));
    } else {
        lemma_prev_n_closed_form(x, (k - 1) as nat);
        vstd::arithmetic::div_mod::lemma_mod_bound(x as int - (k - 1), 65535);
        lemma_mod65535_dec(x as int - (k - 1));
        assert(seq_prev_n(x, k) == seq_prev(seq_prev_n(x, (k - 1) as nat)));
    }
}

/// Iterated predecessors of one base are pairwise distinct for up to 65535
/// steps.
pub proof fn lemma_prev_n_injective(x: u16, a: nat, b: nat)
    requires
        a < b <= 65534,
    ensures
        seq_prev_n(x, a) != seq_prev_n(x, b),
{
    if x <= 65534 || a >= 1 {
        lemma_prev_n_closed_form(x, a);
        lemma_prev_n_closed_form(x, b);
        let u = x as int - a as int;
        let v = x as int - b as int;
        vstd::arithmetic::div_mod::lemma_mod_bound(u, 65535);
        vstd::arithmetic::div_mod::lemma_mod_bound(v, 65535);
        if u % 65535 == v % 65535 {
            vstd::arithmetic::div_mod::lemma_fundamental_div_mod(u, 65535);
            vstd::arithmetic::div_mod::lemma_fundamental_div_mod(v, 65535);
            let qu = u / 65535;
            let qv = v / 65535;
            assert(b - a == 65535 * qu - 65535 * qv);
            assert(65535 * qu - 65535 * qv == 65535 * (qu - qv)) by (nonlinear_arith);
            assert(false);
        }
    } else {
        // a == 0 and x == 65535: predecessors stay at or below 65534.
        lemma_prev_n_closed_form(x, b);
        vstd::arithmetic::div_mod::lemma_mod_bound(x as int - b as int, 65535);
    }
}

impl Nack {
    pub fn get_bits(&self, index: i32) -> (r: bool)
        requires
            0 <= index < 32,
        ensures
            r == nack_bit(self.flags, index as int),
    {
        let mask: u32 = 1u32 << (index as u32);
        proof {
            let i = index as u32;
            let f = self.flags;
            assert(i < 32 ==> ((f & (1u32 << i)) == (1u32 << i)) == (f >> i & 1 == 1))
                by (bit_vector);
        }
        (self.flags & mask) == mask
    }

    pub fn set_bits(&mut self, index: i32, value: bool)
        requires
            0 <= index < 32,
        ensures
            final(self).start_sequence == old(self).start_sequence,
            final(self).nacked_count == old(self).nacked_count,
            final(self).sent_count == old(self).sent_count,
            forall|j: int|
                0 <= j < 32 ==> nack_bit(final(self).flags, j) == if j == index as int {
                    value
                } else {
                    nack_bit(old(self).flags, j)
                },
            final(self).flags == if value {
                old(self).flags | (1u32 << (index as u32))
            } else {
                old(self).flags & !(1u32 << (index as u32))
            },
    {
        let mask: u32 = 1u32 << (index as u32);
        if value {
            self.flags = self.flags | mask;
        } else {
            self.flags = self.flags & !mask;
        }
        proof {
            let f = old(self).flags;
            let i = index as u32;
            assert forall|j: int| 0 <= j < 32 implies nack_bit(self.flags, j) == if j == i
                as int {
                value
            } else {
                nack_bit(f, j)
            } by {
                let ju = j as u32;
                if value {
                    assert(i < 32 && ju < 32 ==> ((f | (1u32 << i)) >> ju & 1 == 1) == if ju == i {
                        true
                    } else {
                        f >> ju & 1 == 1
                    }) by (bit_vector);
                } else {
                    assert(i < 32 && ju < 32 ==> ((f & !(1u32 << i)) >> ju & 1 == 1) == if ju == i {
                        false
                    } else {
                        f >> ju & 1 == 1
                    }) by (bit_vector);
                }
            }
        }
    }

    /// Whether the record stands for `sequence`, either as the base or as a
    /// flagged predecessor.
    pub fn is_nacked(&self, sequence: u16) -> (r: bool)
        ensures
            r == nack_covers(*self, sequence),
    {
        if self.start_sequence == sequence {
            return true;
        }
        self.is_flagged(sequence)
    }

    pub fn is_flagged(&self, sequence: u16) -> (r: bool)
        ensures
            r == exists|i: int|
                0 <= i < 32 && nack_bit(self.flags, i) && sequence == seq_prev_n(
                    self.start_sequence,
                    (i + 1) as nat,
                ),
    {
        let mut seq = Sequence::previous_sequence(self.start_sequence);
        let mut i: i32 = 0;
        proof {
            assert(seq_prev_n(self.start_sequence, 0) == self.start_sequence);
        }
        while i < 32
            invariant
                0 <= i <= 32,
                seq == seq_prev_n(self.start_sequence, (i + 1) as nat),
                forall|k: int|
                    1 <= k <= i ==> sequence != #[trigger] seq_prev_n(self.start_sequence, k as nat),
            decreases 32 - i,
        {
            if seq == sequence {
                proof {
                    assert forall|k: int|
                        1 <= k <= 32 && k != i + 1 implies sequence != #[trigger] seq_prev_n(
                        self.start_sequence,
                        k as nat,
                    ) by {
                        if k > i + 1 {
                            lemma_prev_n_injective(self.start_sequence, (i + 1) as nat, k as nat);
                        }
                    }
                }
                return self.get_bits(i);
            }
            seq = Sequence::previous_sequence(seq);
            i = i + 1;
        }
        false
    }

    /// Flags `sequence` when it lies among the 32 predecessors of the base;
    /// otherwise leaves the record unchanged.
    pub fn set_flagged(&mut self, sequence: u16)
        ensures
            final(self).start_sequence == old(self).start_sequence,
            final(self).nacked_count == old(self).nacked_count,
            final(self).sent_count == old(self).sent_count,
            forall|j: int|
                0 <= j < 32 ==> nack_bit(final(self).flags, j) == (nack_bit(old(self).flags, j)
                    || sequence == seq_prev_n(old(self).start_sequence, (j + 1) as nat)),
    {
        let mut seq = Sequence::previous_sequence(self.start_sequence);
        let mut i: i32 = 0;
        proof {
            assert(seq_prev_n(self.start_sequence, 0) == self.start_sequence);
        }
        while i < 32
            invariant
                0 <= i <= 32,
                *self == *old(self),
                seq == seq_prev_n(self.start_sequence, (i + 1) as nat),
                forall|k: int|
                    1 <= k <= i ==> sequence != #[trigger] seq_prev_n(self.start_sequence, k as nat),
            decreases 32 - i,
        {
            if seq == sequence {
                self.set_bits(i, true);
                proof {
                    assert forall|k: int|
                        1 <= k <= 32 && k != i + 1 implies sequence != #[trigger] seq_prev_n(
                        old(self).start_sequence,
                        k as nat,
                    ) by {
                        if k > i + 1 {
                            lemma_prev_n_injective(
                                old(self).start_sequence,
                                (i + 1) as nat,
                                k as nat,
                            );
                        }
                    }
                }
                return;
            }
            seq = Sequence::previous_sequence(seq);
            i = i + 1;
        }
    }

    /// Appends the base and every flagged predecessor to `sequences`.
    pub fn get_nacked(&self, sequences: &mut Vec<u16>)
        ensures
            final(sequences)@ == old(sequences)@ + nack_expansion(*self),
    {
        sequences.push(self.start_sequence);
        self.get_flagged(sequences);
        proof {
            assert(sequences@ =~= old(sequences)@ + nack_expansion(*self));
        }
    }

    /// Appends every flagged predecessor to `sequences`, in bit order.
    pub fn get_flagged(&self, sequences: &mut Vec<u16>)
        ensures
            final(sequences)@ == old(sequences)@ + flagged_upto(*self, 32),
    {
        let mut seq = Sequence::previous_sequence(self.start_sequence);
        let mut i: i32 = 0;
        proof {
            assert(seq_prev_n(self.start_sequence, 0) == self.start_sequence);
        }
        while i < 32
            invariant
                0 <= i <= 32,
                seq == seq_prev_n(self.start_sequence, (i + 1) as nat),
                sequences@ == old(sequences)@ + flagged_upto(*self, i as int),
            decreases 32 - i,
        {
            if self.get_bits(i) {
                sequences.push(seq);
            }
            proof {
                assert(sequences@ =~= old(sequences)@ + flagged_upto(*self, i as int + 1));
            }
            seq = Sequence::previous_sequence(seq);
            i = i + 1;
        }
    }
}

/// The record encoded at position `p` in the fixed six-byte layout:
/// little-endian start sequence, then little-endian flags.
pub open spec fn record_at(data: Seq<u8>, p: int) -> Nack {
    Nack {
        start_sequence: le16(data[p], data[p + 1]),
        flags: le32(data[p + 2], data[p + 3], data[p + 4], data[p + 5]),
        nacked_count: 0,
        sent_count: 0,
    }
}

/// The first `count` fixed-layout records starting at `p`.
pub open spec fn fixed_records_at(data: Seq<u8>, p: int, count: int) -> Seq<Nack>
    decreases count,
{
    if count <= 0 {
        Seq::empty()
    } else {
        fixed_records_at(data, p, count - 1).push(record_at(data, p + 6 * (count - 1)))
    }
}

/// Concatenation of the expansions of all records, in order.
pub open spec fn expansions(records: Seq<Nack>) -> Seq<u16>
    decreases records.len(),
{
    if records.len() == 0 {
        Seq::empty()
    } else {
        expansions(records.drop_last()) + nack_expansion(records.last())
    }
}

impl Nack {
    /// Fixed encoding: a one-byte record count, then six bytes per record.
    /// Returns the cursor after the last record, or 0 for an empty list.
    pub fn write(nacks: &Vec<Nack>, data: &mut Vec<u8>, position: u64) -> (r: u64)
        requires
            nacks.len() < 256,
            position + 1 + 6 * nacks.len() <= old(data).len(),
        ensures
            final(data).len() == old(data).len(),
            nacks.len() == 0 ==> r == 0 && final(data)@ == old(data)@,
            nacks.len() > 0 ==> r == position + 1 + 6 * nacks.len() && final(data)@[position
                as int] == nacks.len() as u8 && fixed_records_at(
                final(data)@,
                position as int + 1,
                nacks.len() as int,
            ) == nacks@.map(
                |i: int, n: Nack| Nack { nacked_count: 0, sent_count: 0, ..n },
            ),
            forall|i: int|
                0 <= i < old(data).len() && !(position <= i < position + 1 + 6 * nacks.len())
                    ==> final(data)@[i] == old(data)@[i],
    {
        if nacks.len() == 0 {
            return 0;
        }
        let mut buffer = IntBuffer { index: position as usize };
        buffer.write_u8(nacks.len() as u8, data);
        let ghost clean = nacks@.map(|i: int, n: Nack| Nack { nacked_count: 0, sent_count: 0, ..n });
        let mut k: usize = 0;
        while k < nacks.len()
            invariant
                k <= nacks.len(),
                nacks.len() < 256,
                position + 1 + 6 * nacks.len() <= data.len(),
                data.len() == old(data).len(),
                buffer.index == position + 1 + 6 * k,
                clean == nacks@.map(|i: int, n: Nack| Nack { nacked_count: 0, sent_count: 0, ..n }),
                fixed_records_at(data@, position as int + 1, k as int) == clean.take(k as int),
                data@[position as int] == nacks.len() as u8,
                forall|i: int|
                    0 <= i < old(data).len() && !(position <= i < position + 1 + 6 * k) ==> data@[i]
                        == old(data)@[i],
            decreases nacks.len() - k,
        {
            let ghost data0 = data@;
            let nack = nacks[k];
            buffer.write_u16(nack.start_sequence, data);
            buffer.write_u32(nack.flags, data);
            k = k + 1;
            proof {
                lemma_fixed_records_frame(data@, data0, position as int + 1, k as int - 1);
                lemma_fixed_records_len(data@, position as int + 1, k as int - 1);
                assert(record_at(data@, position as int + 1 + 6 * (k - 1)) == clean[k - 1]);
                assert(fixed_records_at(data@, position as int + 1, k as int) =~= fixed_records_at(
                    data@,
                    position as int + 1,
                    k as int - 1,
                ).push(record_at(data@, position as int + 1 + 6 * (k - 1))));
                assert(fixed_records_at(data@, position as int + 1, k as int - 1) =~= clean.take(
                    k as int - 1,
                ));
                assert(clean.take(k as int) =~= clean.take(k as int - 1).push(clean[k as int - 1]));
            }
        }
        proof {
            assert(fixed_records_at(data@, position as int + 1, nacks.len() as int) =~= clean.take(
                nacks.len() as int,
            ));
            assert(clean.take(nacks.len() as int) =~= clean);
        }
        buffer.index as u64
    }

    /// Reads back a fixed-encoded list and appends every covered sequence to
    /// `sequences`.
    pub fn read(sequences: &mut Vec<u16>, data: &Vec<u8>, position: u64)
        requires
            position + 1 <= data.len(),
            position + 1 + 6 * (data@[position as int] as int) <= data.len(),
        ensures
            final(sequences)@ == old(sequences)@ + expansions(
                fixed_records_at(data@, position as int + 1, data@[position as int] as int),
            ),
    {
        let mut buffer = IntBuffer { index: position as usize };
        let count = buffer.read_u8(data);
        let mut k: usize = 0;
        let ghost all = fixed_records_at(data@, position as int + 1, count as int);
        while k < count as usize
            invariant
                k <= count,
                position + 1 + 6 * (count as int) <= data.len(),
                count == data@[position as int],
                buffer.index == position + 1 + 6 * k,
                all == fixed_records_at(data@, position as int + 1, count as int),
                sequences@ == old(sequences)@ + expansions(all.take(k as int)),
            decreases count - k,
        {
            let start_sequence = buffer.read_u16(data);
            let flags = buffer.read_u32(data);
            let nack = Nack { start_sequence, flags, nacked_count: 0, sent_count: 0 };
            nack.get_nacked(sequences);
            k = k + 1;
            proof {
                lemma_fixed_records_len(data@, position as int + 1, count as int);
                lemma_fixed_records_prefix(data@, position as int + 1, count as int, k as int);
                lemma_fixed_records_len(data@, position as int + 1, k as int);
                assert(all.take(k as int).drop_last() =~= all.take(k as int - 1));
                assert(nack == all.take(k as int).last());
                assert(sequences@ =~= old(sequences)@ + expansions(all.take(k as int)));
            }
        }
        proof {
            lemma_fixed_records_len(data@, position as int + 1, count as int);
            assert(all.take(count as int) =~= all);
        }
    }

    /// Reads one record at `position`; a zero start sequence marks an empty
    /// slot and contributes nothing.
    pub fn read_single(sequences: &mut Vec<u16>, data: &Vec<u8>, position: usize)
        requires
            position + 6 <= data.len(),
        ensures
            record_at(data@, position as int).start_sequence == 0 ==> final(sequences)@ == old(
                sequences,
            )@,
            record_at(data@, position as int).start_sequence != 0 ==> final(sequences)@ == old(
                sequences,
            )@ + nack_expansion(record_at(data@, position as int)),
    {
        let mut buffer = IntBuffer { index: position };
        let start_sequence = buffer.read_u16(data);
        if start_sequence == 0 {
            return;
        }
        let flags = buffer.read_u32(data);
        let nack = Nack { start_sequence, flags, nacked_count: 0, sent_count: 0 };
        nack.get_nacked(sequences);
    }

    /// Writes one record at `position` in the fixed six-byte layout.
    pub fn write_single(nack: &Nack, data: &mut Vec<u8>, position: usize) -> (r: usize)
        requires
            position + 6 <= old(data).len(),
        ensures
            r == position + 6,
            final(data).len() == old(data).len(),
            record_at(final(data)@, position as int) == (Nack {
                nacked_count: 0,
                sent_count: 0,
                ..*nack
            }),
            forall|i: int|
                0 <= i < old(data).len() && !(position <= i < position + 6) ==> final(data)@[i]
                    == old(data)@[i],
    {
        let mut buffer = IntBuffer { index: position };
        buffer.write_u16(nack.start_sequence, data);
        buffer.write_u32(nack.flags, data);
        buffer.index
    }
}

/// Variable-width encoding of a 16-bit value: one byte up to 240, a
/// 241..=247 prefix byte for two-byte values up to 2031, and a 248 prefix
/// for the rest.
pub open spec fn varint16(v: u16) -> Seq<u8> {
    if v <= 240 {
        seq![v as u8]
    } else if v <= 2031 {
        seq![((v - 240) / 256 + 241) as u8, ((v - 240) % 256) as u8]
    } else {
        seq![248u8, ((v - 2032) / 256) as u8, ((v - 2032) % 256) as u8]
    }
}

/// Variable-width encoding of a 32-bit value: as the 16-bit form, with 249
/// and 250 prefixes introducing three and four little-endian tail bytes.
pub open spec fn varint32(v: u32) -> Seq<u8> {
    if v <= 240 {
        seq![v as u8]
    } else if v <= 2031 {
        seq![((v - 240) / 256 + 241) as u8, ((v - 240) % 256) as u8]
    } else if v <= 67567 {
        seq![248u8, ((v - 2032) / 256) as u8, ((v - 2032) % 256) as u8]
    } else if v <= 16777215 {
        seq![249u8, (v & 0xff) as u8, ((v >> 8) & 0xff) as u8, ((v >> 16) & 0xff) as u8]
    } else {
        seq![
            250u8,
            (v & 0xff) as u8,
            ((v >> 8) & 0xff) as u8,
            ((v >> 16) & 0xff) as u8,
            ((v >> 24) & 0xff) as u8,
        ]
    }
}

/// The 16-bit value encoded at `p` and the position after it, or nothing
/// when the bytes are not a well-formed encoding of a 16-bit value.
pub open spec fn parse_varint16(data: Seq<u8>, p: int) -> Option<(u16, int)> {
    if !(0 <= p < data.len()) {
        None
    } else {
        let b0 = data[p];
        if b0 <= 240 {
            Some((b0 as u16, p + 1))
        } else if b0 <= 247 {
            if p + 2 <= data.len() {
                Some(((240 + 256 * (b0 - 241) + data[p + 1]) as u16, p + 2))
            } else {
                None
            }
        } else if b0 == 248 {
            if p + 3 <= data.len() && 2032 + 256 * (data[p + 1] as int) + data[p + 2] <= 65535 {
                Some(((2032 + 256 * (data[p + 1] as int) + data[p + 2]) as u16, p + 3))
            } else {
                None
            }
        } else {
            None
        }
    }
}

/// The 32-bit value encoded at `p` and the position after it.
pub open spec fn parse_varint32(data: Seq<u8>, p: int) -> Option<(u32, int)> {
    if !(0 <= p < data.len()) {
        None
    } else {
        let b0 = data[p];
        if b0 <= 240 {
            Some((b0 as u32, p + 1))
        } else if b0 <= 247 {
            if p + 2 <= data.len() {
                Some(((240 + 256 * (b0 - 241) + data[p + 1]) as u32, p + 2))
            } else {
                None
            }
        } else if b0 == 248 {
            if p + 3 <= data.len() {
                Some(((2032 + 256 * (data[p + 1] as int) + data[p + 2]) as u32, p + 3))
            } else {
                None
            }
        } else if b0 == 249 {
            if p + 4 <= data.len() {
                Some(
                    (
                        (data[p + 1] as u32) | ((data[p + 2] as u32) << 8) | ((data[p + 3] as u32)
                            << 16),
                        p + 4,
                    ),
                )
            } else {
                None
            }
        } else if b0 == 250 {
            if p + 5 <= data.len() {
                Some((le32(data[p + 1], data[p + 2], data[p + 3], data[p + 4]), p + 5))
            } else {
                None
            }
        } else {
            None
        }
    }
}

/// Writes the variable-width form of `v` at `position` and returns the
/// position after it.
pub fn write_varint_u16(v: u16, data: &mut Vec<u8>, position: usize) -> (r: usize)
    requires
        position + 3 <= old(data).len(),
    ensures
        final(data).len() == old(data).len(),
        r == position + varint16(v).len(),
        final(data)@.subrange(position as int, r as int) == varint16(v),
        forall|i: int|
            0 <= i < old(data).len() && !(position <= i < r) ==> final(data)@[i] == old(data)@[i],
{
    if v <= 240 {
        data.set(position, v as u8);
        proof {
            assert(data@.subrange(position as int, position + 1) =~= varint16(v));
        }
        position + 1
    } else if v <= 2031 {
        let d = v - 240;
        data.set(position, (d / 256 + 241) as u8);
        data.set(position + 1, (d % 256) as u8);
        proof {
            assert(data@.subrange(position as int, position + 2) =~= varint16(v));
        }
        position + 2
    } else {
        let d = v - 2032;
        data.set(position, 248);
        data.set(position + 1, (d / 256) as u8);
        data.set(position + 2, (d % 256) as u8);
        proof {
            assert(data@.subrange(position as int, position + 3) =~= varint16(v));
        }
        position + 3
    }
}

/// Writes the variable-width form of `v` at `position` and returns the
/// position after it.
pub fn write_varint_u32(v: u32, data: &mut Vec<u8>, position: usize) -> (r: usize)
    requires
        position + 5 <= old(data).len(),
    ensures
        final(data).len() == old(data).len(),
        r == position + varint32(v).len(),
        final(data)@.subrange(position as int, r as int) == varint32(v),
        forall|i: int|
            0 <= i < old(data).len() && !(position <= i < r) ==> final(data)@[i] == old(data)@[i],
{
    proof {
        assert(v & 0xff < 256 && v >> 8 & 0xff < 256 && v >> 16 & 0xff < 256 && v >> 24 & 0xff
            < 256) by (bit_vector);
    }
    if v <= 240 {
        data.set(position, v as u8);
        proof {
            assert(data@.subrange(position as int, position + 1) =~= varint32(v));
        }
        position + 1
    } else if v <= 2031 {
        let d = v - 240;
        data.set(position, (d / 256 + 241) as u8);
        data.set(position + 1, (d % 256) as u8);
        proof {
            assert(data@.subrange(position as int, position + 2) =~= varint32(v));
        }
        position + 2
    } else if v <= 67567 {
        let d = v - 2032;
        data.set(position, 248);
        data.set(position + 1, (d / 256) as u8);
        data.set(position + 2, (d % 256) as u8);
        proof {
            assert(data@.subrange(position as int, position + 3) =~= varint32(v));
        }
        position + 3
    } else if v <= 16777215 {
        data.set(position, 249);
        data.set(position + 1, (v & 0xff) as u8);
        data.set(position + 2, ((v >> 8) & 0xff) as u8);
        data.set(position + 3, ((v >> 16) & 0xff) as u8);
        proof {
            assert(data@.subrange(position as int, position + 4) =~= varint32(v));
        }
        position + 4
    } else {
        data.set(position, 250);
        data.set(position + 1, (v & 0xff) as u8);
        data.set(position + 2, ((v >> 8) & 0xff) as u8);
        data.set(position + 3, ((v >> 16) & 0xff) as u8);
        data.set(position + 4, ((v >> 24) & 0xff) as u8);
        proof {
            assert(data@.subrange(position as int, position + 5) =~= varint32(v));
        }
        position + 5
    }
}

/// Reads back a 16-bit variable-width value.
pub fn read_varint_u16(data: &Vec<u8>, position: usize) -> (r: Option<(u16, usize)>)
    ensures
        r is Some <==> parse_varint16(data@, position as int) is Some,
        r is Some ==> r.unwrap().0 == parse_varint16(data@, position as int).unwrap().0
            && r.unwrap().1 == parse_varint16(data@, position as int).unwrap().1,
{
    if position >= data.len() {
        return None;
    }
    let b0 = data[position];
    if b0 <= 240 {
        Some((b0 as u16, position + 1))
    } else if b0 <= 247 {
        if data.len() - position >= 2 {
            let value: u32 = 240 + 256 * (b0 as u32 - 241) + data[position + 1] as u32;
            Some((value as u16, position + 2))
        } else {
            None
        }
    } else if b0 == 248 {
        if data.len() - position >= 3 {
            let value: u32 = 2032 + 256 * (data[position + 1] as u32) + data[position + 2] as u32;
            if value <= 65535 {
                Some((value as u16, position + 3))
            } else {
                None
            }
        } else {
            None
        }
    } else {
        None
    }
}

/// Reads back a 32-bit variable-width value.
pub fn read_varint_u32(data: &Vec<u8>, position: usize) -> (r: Option<(u32, usize)>)
    ensures
        r is Some <==> parse_varint32(data@, position as int) is Some,
        r is Some ==> r.unwrap().0 == parse_varint32(data@, position as int).unwrap().0
            && r.unwrap().1 == parse_varint32(data@, position as int).unwrap().1,
{
    if position >= data.len() {
        return None;
    }
    let b0 = data[position];
    if b0 <= 240 {
        Some((b0 as u32, position + 1))
    } else if b0 <= 247 {
        if data.len() - position >= 2 {
            let value: u32 = 240 + 256 * (b0 as u32 - 241) + data[position + 1] as u32;
            Some((value, position + 2))
        } else {
            None
        }
    } else if b0 == 248 {
        if data.len() - position >= 3 {
            let value: u32 = 2032 + 256 * (data[position + 1] as u32) + data[position + 2] as u32;
            Some((value, position + 3))
        } else {
            None
        }
    } else if b0 == 249 {
        if data.len() - position >= 4 {
            let value: u32 = (data[position + 1] as u32) | (data[position + 2] as u32) << 8
                | (data[position + 3] as u32) << 16;
            Some((value, position + 4))
        } else {
            None
        }
    } else if b0 == 250 {
        if data.len() - position >= 5 {
            let value: u32 = (data[position + 1] as u32) | (data[position + 2] as u32) << 8 | (
            data[position + 3] as u32) << 16 | (data[position + 4] as u32) << 24;
            Some((value, position + 5))
        } else {
            None
        }
    } else {
        None
    }
}

/// The variable-width stream of the first `k` records: start sequence then
/// flags, each variable-width.
pub open spec fn varint_records_upto(nacks: Seq<Nack>, k: int) -> Seq<u8>
    decreases k,
{
    if k <= 0 {
        Seq::empty()
    } else {
        varint_records_upto(nacks, k - 1) + varint16(nacks[k - 1].start_sequence) + varint32(
            nacks[k - 1].flags,
        )
    }
}

/// The on-wire form of a record list: its length, then each record.
pub open spec fn nack_varint_stream(nacks: Seq<Nack>) -> Seq<u8> {
    varint16(nacks.len() as u16) + varint_records_upto(nacks, nacks.len() as int)
}

/// Each record contributes at most eight stream bytes.
pub proof fn lemma_varint_records_upto_len(nacks: Seq<Nack>, k: int)
    requires
        k >= 0,
    ensures
        varint_records_upto(nacks, k).len() <= 8 * k,
    decreases k,
{
    if k > 0 {
        lemma_varint_records_upto_len(nacks, k - 1);
    }
}

/// The list of records parsed from `p` on, given how many to expect, with
/// the position after them.
pub open spec fn parse_nack_records(data: Seq<u8>, p: int, count: int) -> Option<(Seq<Nack>, int)>
    decreases count,
{
    if count <= 0 {
        Some((Seq::empty(), p))
    } else {
        match parse_varint16(data, p) {
            None => None,
            Some((start, p1)) => match parse_varint32(data, p1) {
                None => None,
                Some((flags, p2)) => match parse_nack_records(data, p2, count - 1) {
                    None => None,
                    Some((rest, pe)) => Some(
                        (
                            seq![
                                Nack {
                                    start_sequence: start,
                                    flags,
                                    nacked_count: 0,
                                    sent_count: 0,
                                },
                            ] + rest,
                            pe,
                        ),
                    ),
                },
            },
        }
    }
}

/// A whole NACK message parsed from `p` on: a record count, then that many
/// records.
pub open spec fn parse_nack_message(data: Seq<u8>, p: int) -> Option<(Seq<Nack>, int)> {
    match parse_varint32(data, p) {
        None => None,
        Some((count, p1)) => parse_nack_records(data, p1, count as int),
    }
}

impl Nack {
    /// Writes the record list in its on-wire variable-width form at
    /// `position` and returns the cursor after it, or 0 for an empty list.
    pub fn write_varint(nacks: &Vec<Nack>, data: &mut Vec<u8>, position: u64) -> (r: u64)
        requires
            nacks.len() <= 65535,
            position + 3 + 8 * nacks.len() <= old(data).len(),
        ensures
            final(data).len() == old(data).len(),
            nacks.len() == 0 ==> r == 0 && final(data)@ == old(data)@,
            nacks.len() > 0 ==> r == position + nack_varint_stream(nacks@).len()
                && final(data)@.subrange(position as int, r as int) == nack_varint_stream(nacks@),
            forall|i: int|
                0 <= i < old(data).len() && !(position <= i < position + 3 + 8 * nacks.len())
                    ==> final(data)@[i] == old(data)@[i],
    {
        if nacks.len() == 0 {
            return 0;
        }
        let pos0 = position as usize;
        let mut cursor = write_varint_u16(nacks.len() as u16, data, pos0);
        let ghost head = varint16(nacks@.len() as u16);
        let mut k: usize = 0;
        while k < nacks.len()
            invariant
                k <= nacks.len(),
                nacks.len() <= 65535,
                pos0 == position,
                pos0 + 3 + 8 * nacks.len() <= data.len(),
                data.len() == old(data).len(),
                head == varint16(nacks@.len() as u16),
                cursor == pos0 + head.len() + varint_records_upto(nacks@, k as int).len(),
                cursor <= pos0 + 3 + 8 * k,
                data@.subrange(pos0 as int, cursor as int) == head + varint_records_upto(
                    nacks@,
                    k as int,
                ),
                forall|i: int|
                    0 <= i < old(data).len() && !(pos0 <= i < cursor) ==> data@[i] == old(
                        data,
                    )@[i],
            decreases nacks.len() - k,
        {
            proof {
                lemma_varint_records_upto_len(nacks@, k as int);
            }
            let nack = nacks[k];
            let ghost mid0 = data@;
            let ghost c0 = cursor as int;
            cursor = write_varint_u16(nack.start_sequence, data, cursor);
            let ghost mid1 = data@;
            let ghost c1 = cursor as int;
            cursor = write_varint_u32(nack.flags, data, cursor);
            k = k + 1;
            proof {
                let ghost c2 = cursor as int;
                assert(data@.subrange(pos0 as int, c0) =~= mid0.subrange(pos0 as int, c0));
                assert(mid1.subrange(c0, c1) =~= varint16(nack.start_sequence));
                assert(data@.subrange(c0, c1) =~= mid1.subrange(c0, c1));
                assert(data@.subrange(c1, c2) =~= varint32(nack.flags));
                assert(data@.subrange(pos0 as int, c2) =~= data@.subrange(pos0 as int, c0)
                    + data@.subrange(c0, c1) + data@.subrange(c1, c2));
                assert(data@.subrange(pos0 as int, c2) =~= head + varint_records_upto(
                    nacks@,
                    k as int,
                ));
            }
        }
        proof {
            assert(data@.subrange(pos0 as int, cursor as int) =~= nack_varint_stream(nacks@));
        }
        cursor as u64
    }

    /// Parses a variable-width NACK message at `position`; on success appends
    /// every covered sequence to `sequences` and returns true, on malformed
    /// input leaves `sequences` unchanged and returns false.
    #[verifier::loop_isolation(false)]
    pub fn read_varint(sequences: &mut Vec<u16>, data: &Vec<u8>, position: usize) -> (r: bool)
        ensures
            r == parse_nack_message(data@, position as int) is Some,
            r ==> final(sequences)@ == old(sequences)@ + expansions(
                parse_nack_message(data@, position as int).unwrap().0,
            ),
            !r ==> final(sequences)@ == old(sequences)@,
    {
        let parsed_count = match read_varint_u32(data, position) {
            Some(c) => c,
            None => {
                return false;
            },
        };
        let count = parsed_count.0;
        let p1 = parsed_count.1;
        let mut records: Vec<Nack> = Vec::new();
        let mut cursor = p1;
        let mut k: u32 = 0;
        proof {
            match parse_nack_records(data@, p1 as int, count as int) {
                Some((rest, pe)) => {
                    assert(records@ + rest =~= rest);
                },
                None => {},
            }
        }
        while k < count
            invariant
                k <= count,
                records@.len() == k,
                parse_nack_records(data@, p1 as int, count as int) == (match parse_nack_records(
                    data@,
                    cursor as int,
                    count - k,
                ) {
                    None => None::<(Seq<Nack>, int)>,
                    Some((rest, pe)) => Some((records@ + rest, pe)),
                }),
            decreases count - k,
        {
            let start = match read_varint_u16(data, cursor) {
                Some(s) => s,
                None => {
                    proof {
                        assert(parse_nack_records(data@, cursor as int, count - k) is None);
                        assert(parse_nack_records(data@, p1 as int, count as int) is None);
                    }
                    return false;
                },
            };
            let flags = match read_varint_u32(data, start.1) {
                Some(f) => f,
                None => {
                    proof {
                        assert(parse_varint16(data@, cursor as int) == Some(
                            (start.0, start.1 as int),
                        ));
                        assert(parse_nack_records(data@, cursor as int, count - k) is None);
                        assert(parse_nack_records(data@, p1 as int, count as int) is None);
                    }
                    return false;
                },
            };
            let nack = Nack {
                start_sequence: start.0,
                flags: flags.0,
                nacked_count: 0,
                sent_count: 0,
            };
            let ghost records0 = records@;
            records.push(nack);
            cursor = flags.1;
            k = k + 1;
            proof {
                match parse_nack_records(data@, cursor as int, count - k) {
                    Some((rest, pe)) => {
                        assert(records0 + (seq![nack] + rest) =~= records@ + rest);
                    },
                    None => {},
                }
            }
        }
        proof {
            assert(parse_nack_records(data@, cursor as int, 0) == Some(
                (Seq::<Nack>::empty(), cursor as int),
            ));
            assert(records@ + Seq::<Nack>::empty() =~= records@);
        }
        let mut j: usize = 0;
        while j < records.len()
            invariant
                j <= records.len(),
                sequences@ == old(sequences)@ + expansions(records@.take(j as int)),
            decreases records.len() - j,
        {
            let nack = records[j];
            records[j].get_nacked(sequences);
            j = j + 1;
            proof {
                assert(records@.take(j as int).drop_last() =~= records@.take(j as int - 1));
                assert(sequences@ =~= old(sequences)@ + expansions(records@.take(j as int)));
            }
        }
        proof {
            assert(records@.take(records@.len() as int) =~= records@);
        }
        true
    }
}

/// The fixed-record list reads only the bytes of its own range.
pub proof fn lemma_fixed_records_frame(d1: Seq<u8>, d2: Seq<u8>, p: int, count: int)
    requires
        0 <= p,
        p + 6 * count <= d1.len(),
        d1.len() == d2.len(),
        forall|i: int| p <= i < p + 6 * count ==> d1[i] == d2[i],
    ensures
        fixed_records_at(d1, p, count) == fixed_records_at(d2, p, count),
    decreases count,
{
    if count > 0 {
        lemma_fixed_records_frame(d1, d2, p, count - 1);
        assert(record_at(d1, p + 6 * (count - 1)) == record_at(d2, p + 6 * (count - 1)));
        assert(fixed_records_at(d1, p, count) =~= fixed_records_at(d2, p, count));
    }
}

/// The fixed-record list has one entry per counted record.
pub proof fn lemma_fixed_records_len(data: Seq<u8>, p: int, count: int)
    ensures
        fixed_records_at(data, p, count).len() == if count <= 0 {
            0int
        } else {
            count
        },
    decreases count,
{
    if count > 0 {
        lemma_fixed_records_len(data, p, count - 1);
    }
}

/// A prefix of the fixed-record list is read off the same bytes.
pub proof fn lemma_fixed_records_prefix(data: Seq<u8>, p: int, count: int, k: int)
    requires
        0 <= k <= count,
    ensures
        fixed_records_at(data, p, count).take(k) == fixed_records_at(data, p, k),
    decreases count,
{
    lemma_fixed_records_len(data, p, count);
    if count > 0 && k < count {
        lemma_fixed_records_prefix(data, p, count - 1, k);
        lemma_fixed_records_len(data, p, count - 1);
        assert(fixed_records_at(data, p, count).take(k) =~= fixed_records_at(
            data,
            p,
            count - 1,
        ).take(k));
    } else if k == count {
        assert(fixed_records_at(data, p, count).take(k) =~= fixed_records_at(data, p, count));
    }
}

} // verus!
