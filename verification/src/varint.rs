//! Variable-length integers: seven bits to a byte, the lowest first, and the high bit set on
//! every byte but the last.
use vstd::prelude::*;

verus! {

/// The bytes that stand for `v`.
pub open spec fn varint(v: nat) -> Seq<u8>
    decreases v,
{
    if v < 128 {
        seq![v as u8]
    } else {
        seq![(v % 128 + 128) as u8] + varint(v / 128)
    }
}

/// The bytes that stand for several integers, one after the other.
pub open spec fn varints(s: Seq<nat>) -> Seq<u8>
    decreases s.len(),
{
    if s.len() == 0 {
        Seq::empty()
    } else {
        varint(s[0]) + varints(s.drop_first())
    }
}

/// The integer at the start of `s` and the number of bytes that it takes.
pub open spec fn read_varint(s: Seq<u8>) -> Option<(nat, nat)>
    decreases s.len(),
{
    if s.len() == 0 {
        None
    } else if s[0] < 128 {
        Some((s[0] as nat, 1))
    } else {
        match read_varint(s.drop_first()) {
            Some((high, used)) => Some(((high * 128 + (s[0] - 128)) as nat, used + 1)),
            None => None,
        }
    }
}

/// The first `n` integers of `s` and the number of bytes that they take.
pub open spec fn read_varints(s: Seq<u8>, n: nat) -> Option<(Seq<nat>, nat)>
    decreases n,
{
    if n == 0 {
        Some((Seq::empty(), 0))
    } else {
        match read_varint(s) {
            Some((v, used)) => match read_varints(s.skip(used as int), (n - 1) as nat) {
                Some((vs, more)) => Some((seq![v] + vs, used + more)),
                None => None,
            },
            None => None,
        }
    }
}

/// Appends the bytes that stand for `value`.
pub fn write_varint(value: u64, out: &mut Vec<u8>)
    ensures
        final(out)@ == old(out)@ + varint(value as nat),
{
    let mut value: u64 = value;
    let ghost start = out@;
    let ghost whole = varint(value as nat);
    while value >= 128
        invariant
            out@ + varint(value as nat) == start + whole,
        decreases value,
    {
        let low: u64 = value % 128;
        let ghost before = out@;
        out.push((low + 128) as u8);
        proof {
            assert(varint(value as nat) == seq![(value % 128 + 128) as u8] + varint(
                (value / 128) as nat,
            ));
            assert(out@ + varint((value / 128) as nat) =~= before + varint(value as nat));
        }
        value = value / 128;
    }
    let ghost before = out@;
    out.push(value as u8);
    proof {
        assert(out@ =~= before + varint(value as nat));
    }
}

/// Reading gives back what was written, whatever follows it.
pub proof fn law_varint_round_trip(v: nat, rest: Seq<u8>)
    ensures
        read_varint(varint(v) + rest) == Some((v, varint(v).len())),
    decreases v,
{
    let s = varint(v) + rest;
    if v < 128 {
        assert(s[0] == v as u8);
    } else {
        law_varint_round_trip(v / 128, rest);
        assert(s[0] == (v % 128 + 128) as u8);
        assert(s.drop_first() =~= varint(v / 128) + rest);
    }
}

/// Reading several integers gives back what was written, whatever follows them.
pub proof fn law_varints_round_trip(vs: Seq<nat>, rest: Seq<u8>)
    ensures
        read_varints(varints(vs) + rest, vs.len()) == Some((vs, varints(vs).len())),
    decreases vs.len(),
{
    if vs.len() == 0 {
        assert(vs =~= Seq::empty());
    } else {
        let tail = vs.drop_first();
        let s = varints(vs) + rest;
        assert(s =~= varint(vs[0]) + (varints(tail) + rest));
        law_varint_round_trip(vs[0], varints(tail) + rest);
        assert(s.skip(varint(vs[0]).len() as int) =~= varints(tail) + rest);
        law_varints_round_trip(tail, rest);
        assert(seq![vs[0]] + tail =~= vs);
    }
}

pub(crate) proof fn lemma_varints_push(vs: Seq<nat>, v: nat)
    ensures
        varints(vs.push(v)) == varints(vs) + varint(v),
    decreases vs.len(),
{
    if vs.len() == 0 {
        assert(vs.push(v).drop_first() =~= Seq::<nat>::empty());
        assert(varints(Seq::<nat>::empty()) =~= Seq::<u8>::empty());
        assert(varints(vs.push(v)) =~= varints(vs) + varint(v));
    } else {
        lemma_varints_push(vs.drop_first(), v);
        assert(vs.push(v).drop_first() =~= vs.drop_first().push(v));
        assert(varints(vs.push(v)) =~= varints(vs) + varint(v));
    }
}

/// An integer of 64 bits takes from one to ten bytes, and one of 32 bits five at most.
pub(crate) proof fn lemma_varint_len(v: nat)
    requires
        v <= u64::MAX,
    ensures
        1 <= varint(v).len() <= 10,
        v <= u32::MAX ==> varint(v).len() <= 5,
{
    reveal_with_fuel(varint, 10);
    assert(v / 128 / 128 / 128 / 128 == v / 0x1000_0000);
    assert(v / 0x1000_0000 / 128 / 128 / 128 / 128 == v / 0x100_0000_0000_0000);
}

pub(crate) proof fn lemma_varints_len(vs: Seq<nat>, each: nat)
    requires
        forall|i: int| 0 <= i < vs.len() ==> varint(#[trigger] vs[i]).len() <= each,
    ensures
        varints(vs).len() <= each * vs.len(),
    decreases vs.len(),
{
    if vs.len() > 0 {
        lemma_varints_len(vs.drop_first(), each);
        assert(each * vs.len() == each + each * (vs.len() - 1)) by (nonlinear_arith);
    }
}

/// A number below 128 is a single byte. A larger one starts with its seven lowest bits, marked by
/// the highest bit of the byte, and the number without them follows.
pub proof fn law_varint_bytes(v: nat)
    ensures
        v < 128 ==> varint(v).len() == 1 && varint(v)[0] as nat == v,
        v >= 128 ==> varint(v).len() > 1 && varint(v)[0] as nat == 128 + v % 128 && varint(
            v,
        ).drop_first() == varint(v / 128),
    decreases v,
{
    if v >= 128 {
        law_varint_bytes(v / 128);
        assert(varint(v).drop_first() =~= varint(v / 128));
    }
}

pub(crate) proof fn lemma_varints_join(a: Seq<nat>, b: Seq<nat>)
    ensures
        varints(a + b) == varints(a) + varints(b),
    decreases a.len(),
{
    if a.len() == 0 {
        assert(a + b =~= b);
        assert(varints(a) + varints(b) =~= varints(b));
    } else {
        lemma_varints_join(a.drop_first(), b);
        assert((a + b).drop_first() =~= a.drop_first() + b);
        assert(varints(a + b) =~= varints(a) + varints(b));
    }
}

/// Several integers are written one after the other.
pub proof fn law_varints_follow(v: nat, rest: Seq<nat>)
    ensures
        varints(Seq::empty()).len() == 0,
        varints(seq![v]) == varint(v),
        varints(seq![v] + rest) == varint(v) + varints(rest),
{
    assert(seq![v].drop_first() =~= Seq::<nat>::empty());
    assert(varints(Seq::<nat>::empty()) =~= Seq::<u8>::empty());
    assert(varints(seq![v]) =~= varint(v));
    assert((seq![v] + rest).drop_first() =~= rest);
}

} // verus!
