//! Little-endian integers.
use vstd::prelude::*;

verus! {

/// The `n` low bytes of a number, the lowest first.
pub open spec fn le_bytes(v: nat, n: nat) -> Seq<u8>
    decreases n,
{
    if n == 0 {
        Seq::empty()
    } else {
        seq![(v % 256) as u8] + le_bytes(v / 256, (n - 1) as nat)
    }
}

/// The number that bytes stand for, the lowest first.
pub open spec fn le_value(s: Seq<u8>) -> nat
    decreases s.len(),
{
    if s.len() == 0 {
        0
    } else {
        s[0] as nat + 256 * le_value(s.drop_first())
    }
}

/// The largest number of `n` bytes, plus one.
pub open spec fn le_limit(n: nat) -> nat
    decreases n,
{
    if n == 0 {
        1
    } else {
        256 * le_limit((n - 1) as nat)
    }
}

/// A signed number of 32 bits in two's complement.
pub open spec fn twos(v: i32) -> nat {
    if v < 0 {
        (v + 0x1_0000_0000) as nat
    } else {
        v as nat
    }
}

/// The signed number that 32 bits in two's complement stand for.
pub open spec fn from_twos(v: nat) -> i32 {
    if v >= 0x8000_0000 {
        (v - 0x1_0000_0000) as i32
    } else {
        v as i32
    }
}

/// Appends a number of 64 bits.
pub fn write_u64(out: &mut Vec<u8>, value: u64)
    ensures
        final(out)@ == old(out)@ + le_bytes(value as nat, 8),
{
    push_le(out, value, 8);
}

/// Appends a signed number of 32 bits.
pub fn write_i32(out: &mut Vec<u8>, value: i32)
    ensures
        final(out)@ == old(out)@ + le_bytes(twos(value), 4),
{
    let bits: u64 = if value < 0 {
        (value as i64 + 0x1_0000_0000) as u64
    } else {
        value as u64
    };
    push_le(out, bits, 4);
}

fn push_le(out: &mut Vec<u8>, value: u64, n: u8)
    ensures
        final(out)@ == old(out)@ + le_bytes(value as nat, n as nat),
{
    let mut v: u64 = value;
    let mut left: u8 = n;
    let ghost start = out@;
    while left > 0
        invariant
            out@ + le_bytes(v as nat, left as nat) == start + le_bytes(value as nat, n as nat),
        decreases left,
    {
        let ghost before = out@;
        out.push((v % 256) as u8);
        proof {
            assert(out@ + le_bytes((v / 256) as nat, (left - 1) as nat) =~= before + le_bytes(
                v as nat,
                left as nat,
            ));
        }
        v = v / 256;
        left = left - 1;
    }
    proof {
        assert(out@ + le_bytes(v as nat, 0) =~= out@);
    }
}

proof fn lemma_le_value_take(s: Seq<u8>)
    ensures
        le_value(s) < le_limit(s.len()),
    decreases s.len(),
{
    if s.len() > 0 {
        lemma_le_value_take(s.drop_first());
    }
}

fn read_le(buf: &[u8], offset: usize, n: usize) -> (r: u64)
    requires
        n <= 8,
        offset + n <= buf@.len(),
    ensures
        r == le_value(buf@.subrange(offset as int, offset + n)),
{
    let _total: usize = buf.len();
    let mut i: usize = n;
    let mut v: u64 = 0;
    let ghost all = buf@.subrange(offset as int, offset + n);
    proof {
        assert(all.skip(n as int) =~= Seq::empty());
        reveal_with_fuel(le_limit, 9);
    }
    while i > 0
        invariant
            i <= n <= 8,
            offset + n <= _total,
            _total == buf@.len(),
            all == buf@.subrange(offset as int, offset + n),
            v == le_value(all.skip(i as int)),
        decreases i,
    {
        i = i - 1;
        proof {
            assert(all.skip(i as int).drop_first() =~= all.skip(i + 1));
            assert(all.skip(i as int)[0] == buf@[offset + i]);
            lemma_le_value_take(all.skip(i as int));
            lemma_le_limit_grows((n - i) as nat, 8);
            assert(le_limit(8) == 0x1_0000_0000_0000_0000) by {
                reveal_with_fuel(le_limit, 9);
            }
        }
        v = v * 256 + buf[offset + i] as u64;
    }
    assert(all.skip(0) =~= all);
    v
}

proof fn lemma_le_limit_grows(a: nat, b: nat)
    requires
        a <= b,
    ensures
        1 <= le_limit(a) <= le_limit(b),
    decreases b,
{
    if a < b {
        lemma_le_limit_grows(a, (b - 1) as nat);
    } else if a > 0 {
        lemma_le_limit_grows((a - 1) as nat, (a - 1) as nat);
    }
}

/// Reads a number of 64 bits.
pub fn read_u64(buf: &[u8], offset: usize) -> (r: u64)
    requires
        offset + 8 <= buf@.len(),
    ensures
        r == le_value(buf@.subrange(offset as int, offset + 8)),
{
    read_le(buf, offset, 8)
}

/// Reads a signed number of 32 bits.
pub fn read_i32(buf: &[u8], offset: usize) -> (r: i32)
    requires
        offset + 4 <= buf@.len(),
    ensures
        r == from_twos(le_value(buf@.subrange(offset as int, offset + 4))),
{
    let bits: u64 = read_le(buf, offset, 4);
    proof {
        lemma_le_value_take(buf@.subrange(offset as int, offset + 4));
        assert(le_limit(4) == 0x1_0000_0000) by {
            reveal_with_fuel(le_limit, 5);
        }
    }
    if bits >= 0x8000_0000 {
        (bits as i64 - 0x1_0000_0000) as i32
    } else {
        bits as i32
    }
}

pub(crate) proof fn lemma_le_bytes_len(v: nat, n: nat)
    ensures
        le_bytes(v, n).len() == n,
    decreases n,
{
    if n > 0 {
        lemma_le_bytes_len(v / 256, (n - 1) as nat);
    }
}

/// Reading gives back what was written.
pub proof fn law_le_round_trip(v: nat, n: nat)
    requires
        v < le_limit(n),
    ensures
        le_bytes(v, n).len() == n,
        le_value(le_bytes(v, n)) == v,
    decreases n,
{
    if n > 0 {
        law_le_round_trip(v / 256, (n - 1) as nat);
        assert(le_bytes(v, n).drop_first() =~= le_bytes(v / 256, (n - 1) as nat));
    }
}

/// Four bytes stand for the sum of their values, each 256 times as much as the one before it.
pub proof fn law_four_bytes(s: Seq<u8>)
    requires
        s.len() == 4,
    ensures
        le_value(s) == s[0] + 0x100 * s[1] + 0x1_0000 * s[2] + 0x100_0000 * s[3],
{
    reveal_with_fuel(le_value, 5);
    let (t, u, v) = (s.drop_first(), s.drop_first().drop_first(), s.skip(3));
    assert(u.drop_first() =~= v);
    assert(v.drop_first() =~= Seq::empty());
    assert(t[0] == s[1] && u[0] == s[2] && v[0] == s[3]);
}

/// Eight bytes stand for the sum of their values, each 256 times as much as the one before it.
pub proof fn law_eight_bytes(s: Seq<u8>)
    requires
        s.len() == 8,
    ensures
        le_value(s) == s[0] + 0x100 * s[1] + 0x1_0000 * s[2] + 0x100_0000 * s[3] + 0x1_0000_0000
            * s[4] + 0x100_0000_0000 * s[5] + 0x1_0000_0000_0000 * s[6] + 0x100_0000_0000_0000
            * s[7],
{
    let (t, u, v) = (s.drop_first(), s.drop_first().drop_first(), s.skip(3));
    assert(u.drop_first() =~= v);
    assert(v.drop_first() =~= s.skip(4));
    assert(t[0] == s[1] && u[0] == s[2] && v[0] == s[3]);
    assert(le_value(s) == s[0] + 256 * le_value(t));
    assert(le_value(t) == s[1] + 256 * le_value(u));
    assert(le_value(u) == s[2] + 256 * le_value(v));
    assert(le_value(v) == s[3] + 256 * le_value(s.skip(4)));
    law_four_bytes(s.skip(4));
}

/// The sign of a number of 32 bits is that of its highest byte: from 128 on, the bytes stand for
/// a number that is 2^32 less.
pub proof fn law_signed_bytes(s: Seq<u8>)
    requires
        s.len() == 4,
    ensures
        from_twos(le_value(s)) == s[0] + 0x100 * s[1] + 0x1_0000 * s[2] + 0x100_0000 * s[3] - (
        if s[3] >= 128 {
            0x1_0000_0000int
        } else {
            0
        }),
{
    law_four_bytes(s);
}

/// The bytes of a number of 64 bits stand for it.
pub proof fn law_u64_bytes(v: u64)
    ensures
        ({
            let b = le_bytes(v as nat, 8);
            &&& b.len() == 8
            &&& v == b[0] + 0x100 * b[1] + 0x1_0000 * b[2] + 0x100_0000 * b[3] + 0x1_0000_0000
                * b[4] + 0x100_0000_0000 * b[5] + 0x1_0000_0000_0000 * b[6] + 0x100_0000_0000_0000
                * b[7]
        }),
{
    assert(le_limit(8) == 0x1_0000_0000_0000_0000) by {
        reveal_with_fuel(le_limit, 9);
    }
    law_le_round_trip(v as nat, 8);
    law_eight_bytes(le_bytes(v as nat, 8));
}

/// The bytes of a signed number of 32 bits stand for it.
pub proof fn law_i32_bytes(v: i32)
    ensures
        ({
            let b = le_bytes(twos(v), 4);
            &&& b.len() == 4
            &&& v == b[0] + 0x100 * b[1] + 0x1_0000 * b[2] + 0x100_0000 * b[3] - (if b[3] >= 128 {
                0x1_0000_0000int
            } else {
                0
            })
        }),
{
    assert(le_limit(4) == 0x1_0000_0000) by {
        reveal_with_fuel(le_limit, 5);
    }
    law_le_round_trip(twos(v), 4);
    law_four_bytes(le_bytes(twos(v), 4));
}

} // verus!
