use vstd::prelude::*;

verus! {

/// Half-range rule for modular 16-bit sequence comparison: `s1` counts as
/// newer than `s2` when it lies at most 32768 steps ahead of `s2` on the
/// 16-bit circle.
pub open spec fn seq_greater(s1: u16, s2: u16) -> bool {
    (s1 > s2 && s1 - s2 <= 32768) || (s1 < s2 && s2 - s1 > 32768)
}

pub open spec fn seq_less(s1: u16, s2: u16) -> bool {
    seq_greater(s2, s1)
}

pub open spec fn seq_less_or_equal(s1: u16, s2: u16) -> bool {
    s1 == s2 || seq_greater(s2, s1)
}

/// Successor in the sequence space `0 ..= 65534`; the value 65535 is reserved
/// as "uninitialized" and is skipped.
pub open spec fn seq_next(s: u16) -> u16 {
    if s >= 65534 {
        0
    } else {
        (s + 1) as u16
    }
}

/// Predecessor in the sequence space `0 ..= 65534`.
pub open spec fn seq_prev(s: u16) -> u16 {
    if s == 0 {
        65534
    } else {
        (s - 1) as u16
    }
}

/// `n`-fold predecessor.
pub open spec fn seq_prev_n(s: u16, n: nat) -> u16
    decreases n,
{
    if n == 0 {
        s
    } else {
        seq_prev(seq_prev_n(s, (n - 1) as nat))
    }
}

/// `n`-fold successor.
pub open spec fn seq_next_n(s: u16, n: nat) -> u16
    decreases n,
{
    if n == 0 {
        s
    } else {
        seq_next(seq_next_n(s, (n - 1) as nat))
    }
}

/// Adding one to `n` moves its remainder modulo 65535 up by one, wrapping
/// from 65534 to 0.
proof fn lemma_mod65535_inc(n: int)
    ensures
        (n + 1) % 65535 == if n % 65535 == 65534 {
            0int
        } else {
            n % 65535 + 1
        },
{
    let r = n % 65535;
    let q = n / 65535;
    vstd::arithmetic::div_mod::lemma_fundamental_div_mod(n, 65535);
    vstd::arithmetic::div_mod::lemma_mod_bound(n, 65535);
    if r == 65534 {
        vstd::arithmetic::div_mod::lemma_fundamental_div_mod_converse(n + 1, 65535, q + 1, 0);
    } else {
        vstd::arithmetic::div_mod::lemma_fundamental_div_mod_converse(n + 1, 65535, q, r + 1);
    }
}

/// Closed form for iterated successors: stepping forward `k` times is
/// addition modulo 65535 on the sequence space `0 ..= 65534`.
pub proof fn lemma_next_n_closed_form(x: u16, k: nat)
    requires
        x <= 65534,
    ensures
        seq_next_n(x, k) == ((x + k) % 65535) as u16,
    decreases k,
{
    if k == 0 {
        vstd::arithmetic::div_mod::lemma_small_mod(x as nat, 65535);
    } else {
        lemma_next_n_closed_form(x, (k - 1) as nat);
        vstd::arithmetic::div_mod::lemma_mod_bound(x as int + (k - 1), 65535);
        lemma_mod65535_inc(x as int + (k - 1));
        assert(seq_next_n(x, k) == seq_next(seq_next_n(x, (k - 1) as nat)));
    }
}

/// Stepping forward up to 32766 times is a strict increase under the
/// half-range rule.
pub proof fn lemma_next_n_greater(x: u16, d: nat)
    requires
        x <= 65534,
        1 <= d <= 32766,
    ensures
        seq_greater(seq_next_n(x, d), x),
{
    lemma_next_n_closed_form(x, d);
    vstd::arithmetic::div_mod::lemma_mod_bound(x as int + d, 65535);
    let v = (x + d) % 65535;
    if x + d < 65535 {
        vstd::arithmetic::div_mod::lemma_small_mod((x + d) as nat, 65535);
    } else {
        vstd::arithmetic::div_mod::lemma_fundamental_div_mod_converse(
            x as int + d,
            65535,
            1,
            x as int + d - 65535,
        );
    }
}

/// Iterated successors are a composition: `a + b` steps are `a` steps then
/// `b` steps.
pub proof fn lemma_next_n_add(x: u16, a: nat, b: nat)
    ensures
        seq_next_n(x, a + b) == seq_next_n(seq_next_n(x, a), b),
    decreases b,
{
    if b > 0 {
        lemma_next_n_add(x, a, (b - 1) as nat);
        assert(seq_next_n(x, a + b) == seq_next(seq_next_n(x, (a + b - 1) as nat)));
    }
}

/// Iterated successors never reach the reserved top value when starting
/// below it.
pub proof fn lemma_next_n_stays_low(x: u16, k: nat)
    requires
        x <= 65534,
    ensures
        seq_next_n(x, k) <= 65534,
    decreases k,
{
    if k > 0 {
        lemma_next_n_stays_low(x, (k - 1) as nat);
    }
}

/// Within half a ring of steps, distinct step counts land in distinct ring
/// slots: a run of up to 512 consecutive sequence numbers never collides
/// modulo 1024.
pub proof fn lemma_next_n_slots_distinct(x: u16, a: nat, b: nat)
    requires
        x <= 65534,
        a < b,
        b - a < 512,
    ensures
        seq_next_n(x, a) as int % 1024 != seq_next_n(x, b) as int % 1024,
{
    lemma_next_n_closed_form(x, a);
    lemma_next_n_closed_form(x, b);
    let va = (x + a) % 65535;
    let vb = (x + b) % 65535;
    vstd::arithmetic::div_mod::lemma_mod_bound(x as int + a, 65535);
    vstd::arithmetic::div_mod::lemma_mod_bound(x as int + b, 65535);
    vstd::arithmetic::div_mod::lemma_fundamental_div_mod(x as int + a, 65535);
    vstd::arithmetic::div_mod::lemma_fundamental_div_mod(x as int + b, 65535);
    let qa = (x as int + a) / 65535;
    let qb = (x as int + b) / 65535;
    assert(b - a == vb - va + 65535 * qb - 65535 * qa);
    assert(65535 * qb - 65535 * qa == 65535 * (qb - qa)) by (nonlinear_arith);
    // over fewer than 512 steps the quotient grows by at most one
    assert(qb - qa == 0 || qb - qa == 1);
    if va % 1024 == vb % 1024 {
        vstd::arithmetic::div_mod::lemma_mod_bound(va, 1024);
        vstd::arithmetic::div_mod::lemma_mod_bound(vb, 1024);
        vstd::arithmetic::div_mod::lemma_fundamental_div_mod(va, 1024);
        vstd::arithmetic::div_mod::lemma_fundamental_div_mod(vb, 1024);
        let pa = va / 1024;
        let pb = vb / 1024;
        assert(vb - va == 1024 * pb - 1024 * pa);
        assert(1024 * pb - 1024 * pa == 1024 * (pb - pa)) by (nonlinear_arith);
        if qb == qa {
            // vb - va == b - a, a nonzero difference below 1024
            assert(0 < 1024 * (pb - pa) < 1024);
            assert(false);
        } else {
            // vb - va == b - a - 65535, within (-65535, -65023)
            assert(1024 * (pb - pa) == b - a - 65535);
            assert(-65535 < 1024 * (pb - pa) < -65022);
            assert(pb - pa <= -64 ==> 1024 * (pb - pa) <= -65536) by (nonlinear_arith);
            assert(pb - pa >= -63 ==> 1024 * (pb - pa) >= -64512) by (nonlinear_arith);
            assert(false);
        }
    }
}

pub struct Sequence {}

impl Sequence {
    pub fn is_greater_then(s1: u16, s2: u16) -> (r: bool)
        ensures
            r == seq_greater(s1, s2),
    {
        ((s1 > s2) && (s1 - s2 <= 32768)) || ((s1 < s2) && (s2 - s1 > 32768))
    }

    pub fn is_less_than(s1: u16, s2: u16) -> (r: bool)
        ensures
            r == seq_less(s1, s2),
    {
        Sequence::is_greater_then(s2, s1)
    }

    pub fn is_equal_to_or_less_than(s1: u16, s2: u16) -> (r: bool)
        ensures
            r == seq_less_or_equal(s1, s2),
    {
        if s1 == s2 {
            return true;
        }
        Sequence::is_greater_then(s2, s1)
    }

    pub fn next_sequence(sequence: u16) -> (r: u16)
        ensures
            r == seq_next(sequence),
    {
        if sequence >= u16::MAX - 1 {
            0
        } else {
            sequence + 1
        }
    }

    pub fn previous_sequence(sequence: u16) -> (r: u16)
        ensures
            r == seq_prev(sequence),
    {
        if sequence == 0 {
            u16::MAX - 1
        } else {
            sequence - 1
        }
    }
}

/// Comparison is total and antisymmetric on distinct sequence numbers: for
/// every pair `(a, b)` with `a != b`, exactly one of `a > b`, `b > a` holds
/// under the half-range rule.
pub proof fn lemma_seq_comparison_total(a: u16, b: u16)
    requires
        a != b,
    ensures
        seq_greater(a, b) <==> !seq_greater(b, a),
{
}

/// `next` and `prev` are mutually inverse on the sequence space
/// `0 ..= 65534`; the reserved value 65535 lies outside it.
pub proof fn lemma_next_prev_inverse(x: u16)
    requires
        x != u16::MAX,
    ensures
        seq_next(seq_prev(x)) == x,
        seq_prev(seq_next(x)) == x,
{
}

/// Stepping forward is always a strict increase under the half-range rule.
pub proof fn lemma_next_greater(s: u16)
    requires
        s != u16::MAX,
    ensures
        seq_greater(seq_next(s), s),
{
}

} // verus!
