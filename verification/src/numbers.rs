//! Numbers as text: reading whole numbers, and writing counts, sizes and degrees.
use vstd::arithmetic::power2::{lemma2_to64, lemma_pow2_unfold, pow2};
use vstd::prelude::*;
use vstd::string::StringExecFns;

use crate::text::{chars_of, decimal, digit, push_decimal};

verus! {

pub open spec fn is_digit(c: char) -> bool {
    '0' <= c && c <= '9'
}

pub open spec fn all_digits(s: Seq<char>) -> bool {
    forall|i: int| 0 <= i < s.len() ==> is_digit(#[trigger] s[i])
}

/// The number that decimal digits stand for.
pub open spec fn digits_value(s: Seq<char>) -> nat
    decreases s.len(),
{
    if s.len() == 0 {
        0
    } else {
        (digits_value(s.drop_last()) * 10 + (s.last() as u32 - 48)) as nat
    }
}

/// A text without one leading plus sign.
pub open spec fn without_plus(s: Seq<char>) -> Seq<char> {
    if s.len() > 0 && s[0] == '+' {
        s.skip(1)
    } else {
        s
    }
}

/// The whole number that a text stands for: an optional plus sign and at least one digit, with
/// a value no greater than `max`.
pub open spec fn unsigned_value(s: Seq<char>, max: nat) -> Option<nat> {
    let t = without_plus(s);
    if t.len() > 0 && all_digits(t) && digits_value(t) <= max {
        Some(digits_value(t))
    } else {
        None
    }
}

/// As [`unsigned_value`], for 32-bit numbers that may have a minus sign in place of the plus.
pub open spec fn signed_value(s: Seq<char>) -> Option<int> {
    if s.len() > 0 && s[0] == '-' {
        let t = s.skip(1);
        if t.len() > 0 && all_digits(t) && digits_value(t) <= 0x8000_0000 {
            Some(-digits_value(t))
        } else {
            None
        }
    } else {
        match unsigned_value(s, 0x7fff_ffff) {
            Some(v) => Some(v as int),
            None => None,
        }
    }
}

proof fn lemma_digits_value_grows(s: Seq<char>, i: int)
    requires
        all_digits(s),
        0 <= i <= s.len(),
    ensures
        digits_value(s.take(i)) <= digits_value(s),
    decreases s.len() - i,
{
    if i == s.len() {
        assert(s.take(i) =~= s);
    } else {
        lemma_digits_value_grows(s, i + 1);
        assert(s.take(i + 1).drop_last() =~= s.take(i));
        assert(is_digit(s[i]));
    }
}

fn parse_digits(chars: &Vec<char>, from: usize, max: u64) -> (r: Option<u64>)
    requires
        from <= chars@.len(),
    ensures
        ({
            let t = chars@.skip(from as int);
            if t.len() > 0 && all_digits(t) && digits_value(t) <= max {
                r == Some(digits_value(t) as u64)
            } else {
                r is None
            }
        }),
{
    let ghost t = chars@.skip(from as int);
    if from == chars.len() {
        return None;
    }
    let mut i: usize = from;
    let mut v: u128 = 0;
    while i < chars.len()
        invariant
            from <= i <= chars@.len(),
            t == chars@.skip(from as int),
            forall|k: int| 0 <= k < i - from ==> is_digit(#[trigger] t[k]),
            v == digits_value(t.take(i - from)),
            v <= max,
        decreases chars@.len() - i,
    {
        let c: char = chars[i];
        assert(t[i - from] == c);
        if !('0' <= c && c <= '9') {
            return None;
        }
        proof {
            assert(t.take(i - from + 1).drop_last() =~= t.take(i - from));
        }
        v = v * 10 + (c as u32 - 48) as u128;
        i = i + 1;
        if v > max as u128 {
            proof {
                if all_digits(t) {
                    lemma_digits_value_grows(t, i - from);
                }
            }
            return None;
        }
    }
    assert(t.take(t.len() as int) =~= t);
    Some(v as u64)
}

/// Reads a whole number no greater than `max`.
pub fn parse_unsigned(s: &str, max: u64) -> (r: Option<u64>)
    ensures
        match unsigned_value(s@, max as nat) {
            Some(v) => r == Some(v as u64),
            None => r is None,
        },
{
    let chars = chars_of(s);
    if chars.len() > 0 && chars[0] == '+' {
        parse_digits(&chars, 1, max)
    } else {
        assert(chars@.skip(0) =~= chars@);
        parse_digits(&chars, 0, max)
    }
}

/// Reads a number of eight bits.
pub fn parse_u8(s: &str) -> (r: Option<u8>)
    ensures
        match unsigned_value(s@, u8::MAX as nat) {
            Some(v) => r == Some(v as u8),
            None => r is None,
        },
{
    match parse_unsigned(s, 0xff) {
        Some(v) => Some(v as u8),
        None => None,
    }
}

/// Reads a number of 32 bits.
pub fn parse_u32(s: &str) -> (r: Option<u32>)
    ensures
        match unsigned_value(s@, u32::MAX as nat) {
            Some(v) => r == Some(v as u32),
            None => r is None,
        },
{
    match parse_unsigned(s, 0xffff_ffff) {
        Some(v) => Some(v as u32),
        None => None,
    }
}

/// Reads a number of the machine's width.
pub fn parse_usize(s: &str) -> (r: Option<usize>)
    ensures
        match unsigned_value(s@, usize::MAX as nat) {
            Some(v) => r == Some(v as usize),
            None => r is None,
        },
{
    match parse_unsigned(s, usize::MAX as u64) {
        Some(v) => Some(v as usize),
        None => None,
    }
}

/// Reads a signed number of 32 bits.
pub fn parse_i32(s: &str) -> (r: Option<i32>)
    ensures
        match signed_value(s@) {
            Some(v) => r == Some(v as i32),
            None => r is None,
        },
{
    let chars = chars_of(s);
    if chars.len() > 0 && chars[0] == '-' {
        match parse_digits(&chars, 1, 0x8000_0000) {
            Some(v) => Some((-(v as i64)) as i32),
            None => None,
        }
    } else {
        match parse_unsigned(s, 0x7fff_ffff) {
            Some(v) => Some(v as i32),
            None => None,
        }
    }
}

/// The last `n` decimal digits of a number, with leading zeros.
pub open spec fn fixed_digits(v: nat, n: nat) -> Seq<char>
    decreases n,
{
    if n == 0 {
        Seq::empty()
    } else {
        fixed_digits(v / 10, (n - 1) as nat).push(digit(v % 10))
    }
}

fn push_fixed_digits(out: &mut String, v: u64, n: u8)
    ensures
        final(out)@ == old(out)@ + fixed_digits(v as nat, n as nat),
    decreases n,
{
    let ghost start = out@;
    if n > 0 {
        push_fixed_digits(out, v / 10, n - 1);
        let d: u8 = (v % 10) as u8;
        out.push((48 + d) as char);
    }
    proof {
        assert(out@ =~= start + fixed_digits(v as nat, n as nat));
    }
}

/// A number with a comma before every group of three digits but the first.
pub open spec fn grouped(v: nat) -> Seq<char>
    decreases v,
{
    if v < 1000 {
        decimal(v)
    } else {
        grouped(v / 1000) + seq![','] + fixed_digits(v % 1000, 3)
    }
}

fn push_grouped(out: &mut String, v: u64)
    ensures
        final(out)@ == old(out)@ + grouped(v as nat),
    decreases v,
{
    let ghost start = out@;
    if v < 1000 {
        push_decimal(out, v);
    } else {
        push_grouped(out, v / 1000);
        out.push(',');
        push_fixed_digits(out, v % 1000, 3);
        proof {
            assert(out@ =~= start + grouped(v as nat));
        }
    }
}

/// A number with its digits in groups of three.
pub fn format_count(value: u64) -> (r: String)
    ensures
        r@ == grouped(value as nat),
{
    let mut r = String::new();
    push_grouped(&mut r, value);
    assert(r@ =~= grouped(value as nat));
    r
}

/// A text without its commas.
pub open spec fn without_commas(s: Seq<char>) -> Seq<char> {
    s.filter(|c: char| c != ',')
}

proof fn lemma_no_commas(s: Seq<char>)
    requires
        all_digits(s),
    ensures
        without_commas(s) == s,
    decreases s.len(),
{
    reveal(Seq::filter);
    if s.len() > 0 {
        assert(all_digits(s.drop_last())) by {
            assert forall|i: int| 0 <= i < s.drop_last().len() implies is_digit(
                #[trigger] s.drop_last()[i],
            ) by {
                assert(is_digit(s[i]));
            }
        }
        lemma_no_commas(s.drop_last());
        assert(is_digit(s.last()));
        assert(s.drop_last().push(s.last()) =~= s);
    } else {
        assert(s =~= Seq::empty());
    }
}

proof fn lemma_fixed_digits(v: nat, n: nat)
    ensures
        fixed_digits(v, n).len() == n,
        all_digits(fixed_digits(v, n)),
    decreases n,
{
    if n > 0 {
        lemma_fixed_digits(v / 10, (n - 1) as nat);
    }
}

proof fn lemma_decimal_digits(v: nat)
    ensures
        all_digits(decimal(v)),
        decimal(v).len() > 0,
    decreases v,
{
    if v >= 10 {
        lemma_decimal_digits(v / 10);
    }
}

proof fn lemma_decimal_groups(v: nat)
    requires
        v >= 1000,
    ensures
        decimal(v) == decimal(v / 1000) + fixed_digits(v % 1000, 3),
{
    reveal_with_fuel(fixed_digits, 4);
    reveal_with_fuel(decimal, 4);
    let w = v % 1000;
    assert(v / 10 / 10 / 10 == v / 1000);
    assert(w % 10 == v % 10);
    assert(w / 10 % 10 == v / 10 % 10);
    assert(w / 10 / 10 % 10 == v / 10 / 10 % 10);
    assert(decimal(v) =~= decimal(v / 1000) + fixed_digits(w, 3));
}

/// Without its commas, a grouped number is the number's decimal digits.
pub proof fn law_grouping_only_adds_commas(v: nat)
    ensures
        without_commas(grouped(v)) == decimal(v),
    decreases v,
{
    if v < 1000 {
        lemma_decimal_digits(v);
        lemma_no_commas(decimal(v));
    } else {
        let p = |c: char| c != ',';
        law_grouping_only_adds_commas(v / 1000);
        lemma_fixed_digits(v % 1000, 3);
        lemma_no_commas(fixed_digits(v % 1000, 3));
        Seq::filter_distributes_over_add(
            grouped(v / 1000) + seq![','],
            fixed_digits(v % 1000, 3),
            p,
        );
        Seq::filter_distributes_over_add(grouped(v / 1000), seq![','], p);
        assert(seq![','].filter(p) =~= Seq::<char>::empty()) by {
            reveal_with_fuel(Seq::filter, 2);
            assert(seq![','].drop_last() =~= Seq::<char>::empty());
        }
        lemma_decimal_groups(v);
        assert(without_commas(grouped(v)) =~= decimal(v));
    }
}

/// Reading the decimal digits of a number gives the number back.
pub proof fn law_decimal_round_trip(v: nat, max: nat)
    requires
        v <= max,
    ensures
        unsigned_value(decimal(v), max) == Some(v),
{
    lemma_decimal_value(v);
    lemma_decimal_digits(v);
    assert(is_digit(decimal(v)[0]));
}

proof fn lemma_decimal_value(v: nat)
    ensures
        digits_value(decimal(v)) == v,
    decreases v,
{
    reveal_with_fuel(digits_value, 2);
    if v >= 10 {
        lemma_decimal_value(v / 10);
        assert(decimal(v).drop_last() =~= decimal(v / 10));
    } else {
        assert(decimal(v).drop_last() =~= Seq::empty());
    }
}

/// The nearest whole number to a quotient; of two that are as near, the even one.
pub open spec fn nearest(num: nat, den: nat) -> nat {
    let q = num / den;
    let r = num % den;
    if 2 * r < den || (2 * r == den && q % 2 == 0) {
        q
    } else {
        q + 1
    }
}

/// The step between numbers of 53 significant bits around `v`.
pub open spec fn double_step(v: nat) -> nat
    decreases v,
{
    if v < 0x20_0000_0000_0000 {
        1
    } else {
        2 * double_step(v / 2)
    }
}

/// The nearest number to `v` that has 53 significant bits.
pub open spec fn as_double(v: nat) -> nat {
    nearest(v, double_step(v)) * double_step(v)
}

/// Size of the unit in which a number of bytes is shown.
pub open spec fn byte_unit(bytes: nat) -> nat {
    if bytes < 0x400 {
        1
    } else if bytes < 0x10_0000 {
        0x400
    } else if bytes < 0x4000_0000 {
        0x10_0000
    } else if bytes < 0x100_0000_0000 {
        0x4000_0000
    } else {
        0x100_0000_0000
    }
}

pub open spec fn unit_name(unit: nat) -> Seq<char> {
    if unit == 1 {
        " B"@
    } else if unit == 0x400 {
        " KiB"@
    } else if unit == 0x10_0000 {
        " MiB"@
    } else if unit == 0x4000_0000 {
        " GiB"@
    } else {
        " TiB"@
    }
}

/// A number of bytes in the largest unit that is not greater, to one decimal place; plain bytes
/// below 1024.
pub open spec fn bytes_shown(bytes: nat) -> Seq<char> {
    let unit = byte_unit(bytes);
    if unit == 1 {
        decimal(bytes) + unit_name(unit)
    } else {
        let tenths = nearest(10 * as_double(bytes), unit);
        decimal(tenths / 10) + seq!['.'] + seq![digit(tenths % 10)] + unit_name(unit)
    }
}

fn nearest_quotient(num: u128, den: u128) -> (r: u128)
    requires
        0 < den <= 0xffff_ffff_ffff_ffff,
        num <= 0xffff_ffff_ffff_ffff_ffff,
    ensures
        r == nearest(num as nat, den as nat),
        r <= num + 1,
{
    let q: u128 = num / den;
    let r: u128 = num % den;
    proof {
        assert(q <= num) by (nonlinear_arith)
            requires
                q == num / den,
                den > 0,
        ;
    }
    if 2 * r < den || (2 * r == den && q % 2 == 0) {
        q
    } else {
        q + 1
    }
}

fn double_step_of(v: u64) -> (r: u64)
    ensures
        r == double_step(v as nat),
        1 <= r <= 0x1000,
{
    let mut w: u64 = v;
    let mut r: u64 = 1;
    proof {
        assert(1 * double_step(v as nat) == double_step(v as nat));
    }
    while w >= 0x20_0000_0000_0000
        invariant
            r * double_step(w as nat) == double_step(v as nat),
            1 <= r <= 0x1000,
            w * r <= v,
        decreases w,
    {
        proof {
            assert((2 * r) * double_step((w / 2) as nat) == r * double_step(w as nat))
                by (nonlinear_arith)
                requires
                    double_step(w as nat) == 2 * double_step((w / 2) as nat),
            ;
            assert((w / 2) * (2 * r) <= w * r) by (nonlinear_arith)
                requires
                    r >= 1,
            ;
            assert(r < 0x800) by (nonlinear_arith)
                requires
                    w * r <= v,
                    v <= 0xffff_ffff_ffff_ffff,
                    w >= 0x20_0000_0000_0000,
            ;
        }
        w = w / 2;
        r = r * 2;
    }
    assert(r * double_step(w as nat) == r) by (nonlinear_arith)
        requires
            double_step(w as nat) == 1,
    ;
    r
}

/// A number of bytes as shown to the user.
pub fn format_bytes(bytes: u64) -> (r: String)
    ensures
        r@ == bytes_shown(bytes as nat),
{
    let mut r = String::new();
    if bytes < 0x400 {
        push_decimal(&mut r, bytes);
        r.append(" B");
        assert(r@ =~= bytes_shown(bytes as nat));
        return r;
    }
    let (unit, name): (u64, &str) = if bytes < 0x10_0000 {
        (0x400, " KiB")
    } else if bytes < 0x4000_0000 {
        (0x10_0000, " MiB")
    } else if bytes < 0x100_0000_0000 {
        (0x4000_0000, " GiB")
    } else {
        (0x100_0000_0000, " TiB")
    };
    let step: u64 = double_step_of(bytes);
    let whole: u128 = nearest_quotient(bytes as u128, step as u128);
    proof {
        lemma_nearest_bound(bytes as nat, step as nat);
        assert(whole * step <= bytes + step);
    }
    let double: u128 = whole * step as u128;
    let tenths: u128 = nearest_quotient(10 * double, unit as u128);
    proof {
        lemma_nearest_bound(10 * double as nat, unit as nat);
        assert(tenths <= 0xffff_ffff_ffff_ffff) by (nonlinear_arith)
            requires
                tenths * unit <= 10 * double + unit,
                double <= 0xffff_ffff_ffff_ffff + 0x1000,
                unit >= 0x400,
        ;
    }
    push_decimal(&mut r, (tenths / 10) as u64);
    r.push('.');
    let d: u8 = (tenths % 10) as u8;
    r.push((48 + d) as char);
    r.append(name);
    assert(r@ =~= bytes_shown(bytes as nat));
    r
}

proof fn lemma_nearest_bound(num: nat, den: nat)
    requires
        den > 0,
    ensures
        nearest(num, den) * den <= num + den,
{
    vstd::arithmetic::div_mod::lemma_fundamental_div_mod(num as int, den as int);
    let q = num / den;
    assert(den * q == q * den) by (nonlinear_arith);
    assert((q + 1) * den == q * den + den) by (nonlinear_arith);
}

/// Degrees in units of ten millionths, with seven decimal places.
pub open spec fn degrees_shown(e7: int) -> Seq<char> {
    let v = if e7 < 0 {
        -e7
    } else {
        e7
    } as nat;
    (if e7 < 0 {
        seq!['-']
    } else {
        Seq::empty()
    }) + decimal(v / 10_000_000) + seq!['.'] + fixed_digits(v, 7)
}

/// Degrees in units of ten millionths, as shown to the user.
pub fn format_degrees(e7: i32) -> (r: String)
    ensures
        r@ == degrees_shown(e7 as int),
{
    let mut r = String::new();
    let v: u64 = if e7 < 0 {
        r.push('-');
        (-(e7 as i64)) as u64
    } else {
        e7 as u64
    };
    push_decimal(&mut r, v / 10_000_000);
    r.push('.');
    push_fixed_digits(&mut r, v, 7);
    assert(r@ =~= degrees_shown(e7 as int));
    r
}

/// Digits are read as the number that they are written for, with or without a plus sign in
/// front, where it is not too large; a text that holds anything else, or no digit, is no number.
pub proof fn law_unsigned_value(v: nat, s: Seq<char>, max: nat)
    ensures
        unsigned_value(decimal(v), max) == if v <= max {
            Some(v)
        } else {
            None
        },
        unsigned_value(seq!['+'] + decimal(v), max) == if v <= max {
            Some(v)
        } else {
            None
        },
        unsigned_value(Seq::empty(), max) is None,
        unsigned_value(seq!['+'], max) is None,
        (exists|i: int|
            0 < i < s.len() && !('0' <= (#[trigger] s[i]) && s[i] <= '9')) ==> unsigned_value(
            s,
            max,
        ) is None,
        s.len() > 0 && s[0] != '+' && !('0' <= s[0] && s[0] <= '9') ==> unsigned_value(s, max)
            is None,
        s.len() > 0 && s[0] != '+' ==> unsigned_value(seq!['0'] + s, max) == unsigned_value(s, max),
{
    let d = decimal(v);
    lemma_decimal_value(v);
    lemma_decimal_digits(v);
    assert(is_digit(d[0]));
    let p = seq!['+'] + d;
    assert(p.skip(1) =~= d);
    assert(seq!['+'].skip(1) =~= Seq::<char>::empty());
    if exists|i: int| 0 < i < s.len() && !('0' <= (#[trigger] s[i]) && s[i] <= '9') {
        let i = choose|i: int| 0 < i < s.len() && !('0' <= (#[trigger] s[i]) && s[i] <= '9');
        if s[0] == '+' {
            assert(s.skip(1)[i - 1] == s[i]);
            assert(!is_digit(s.skip(1)[i - 1]));
        } else {
            assert(!is_digit(s[i]));
        }
    }
    if s.len() > 0 && s[0] != '+' {
        let z = seq!['0'] + s;
        lemma_leading_zero(s);
        assert(all_digits(z) <==> all_digits(s)) by {
            if all_digits(z) {
                assert forall|i: int| 0 <= i < s.len() implies is_digit(#[trigger] s[i]) by {
                    assert(is_digit(z[i + 1]));
                }
            }
        }
        assert(z[0] == '0');
        assert(all_digits(s) ==> is_digit(s[0]));
        if !('0' <= s[0] && s[0] <= '9') {
            assert(!is_digit(s[0]));
        }
    }
}

proof fn lemma_leading_zero(s: Seq<char>)
    ensures
        digits_value(seq!['0'] + s) == digits_value(s),
    decreases s.len(),
{
    let z = seq!['0'] + s;
    if s.len() == 0 {
        assert(z.drop_last() =~= Seq::empty());
        assert(digits_value(z.drop_last()) == 0);
    } else {
        lemma_leading_zero(s.drop_last());
        assert(z.drop_last() =~= seq!['0'] + s.drop_last());
    }
}

/// A minus sign in front of digits makes the number negative; other texts are read as numbers
/// without a sign. Numbers that 32 bits cannot hold are refused.
pub proof fn law_signed_value(v: nat, s: Seq<char>)
    ensures
        signed_value(seq!['-'] + decimal(v)) == if v <= 0x8000_0000 {
            Some(-v)
        } else {
            None
        },
        s.len() == 0 || s[0] != '-' ==> signed_value(s) == match unsigned_value(s, 0x7fff_ffff) {
            Some(n) => Some(n as int),
            None => None,
        },
        (exists|i: int|
            0 < i < s.len() && !('0' <= (#[trigger] s[i]) && s[i] <= '9')) ==> signed_value(s)
            is None,
{
    let d = decimal(v);
    lemma_decimal_value(v);
    lemma_decimal_digits(v);
    let m = seq!['-'] + d;
    assert(m.skip(1) =~= d);
    if exists|i: int| 0 < i < s.len() && !('0' <= (#[trigger] s[i]) && s[i] <= '9') {
        let i = choose|i: int| 0 < i < s.len() && !('0' <= (#[trigger] s[i]) && s[i] <= '9');
        law_unsigned_value(v, s, 0x7fff_ffff);
        assert(s.skip(1)[i - 1] == s[i]);
        assert(!is_digit(s.skip(1)[i - 1]));
    }
}

/// Counted from the end, every fourth character of a grouped number is a comma, and no other.
pub proof fn law_commas_stand_before_threes(v: nat, k: int)
    requires
        0 <= k < grouped(v).len(),
    ensures
        grouped(v)[grouped(v).len() - 1 - k] == ',' <==> k % 4 == 3,
    decreases v,
{
    let g = grouped(v);
    if v < 1000 {
        lemma_decimal_digits(v);
        lemma_small_decimal(v);
        assert(is_digit(g[g.len() - 1 - k]));
    } else {
        let front = grouped(v / 1000);
        lemma_fixed_digits(v % 1000, 3);
        let last = fixed_digits(v % 1000, 3);
        if k < 3 {
            assert(g[g.len() - 1 - k] == last[2 - k]);
            assert(is_digit(last[2 - k]));
        } else if k > 3 {
            law_commas_stand_before_threes(v / 1000, k - 4);
            assert(g[g.len() - 1 - k] == front[front.len() - 1 - (k - 4)]);
        }
    }
}

proof fn lemma_small_decimal(v: nat)
    requires
        v < 1000,
    ensures
        decimal(v).len() <= 3,
{
    reveal_with_fuel(decimal, 3);
}

/// Degrees are shown with a minus sign where they are negative, the whole degrees, a point and
/// seven digits.
pub proof fn law_degrees_shown(e7: int)
    ensures
        ({
            let d = degrees_shown(e7);
            let v = (if e7 < 0 {
                -e7
            } else {
                e7
            }) as nat;
            let sign = if e7 < 0 {
                seq!['-']
            } else {
                Seq::<char>::empty()
            };
            let whole = sign + decimal(v / 10_000_000);
            &&& d.len() == whole.len() + 8
            &&& d.take(whole.len() as int) == whole
            &&& d[d.len() - 8] == '.'
            &&& d[d.len() - 7] as nat == 48 + v / 1_000_000 % 10
            &&& d[d.len() - 6] as nat == 48 + v / 100_000 % 10
            &&& d[d.len() - 5] as nat == 48 + v / 10_000 % 10
            &&& d[d.len() - 4] as nat == 48 + v / 1000 % 10
            &&& d[d.len() - 3] as nat == 48 + v / 100 % 10
            &&& d[d.len() - 2] as nat == 48 + v / 10 % 10
            &&& d[d.len() - 1] as nat == 48 + v % 10
        }),
{
    let d = degrees_shown(e7);
    let v = (if e7 < 0 {
        -e7
    } else {
        e7
    }) as nat;
    let sign = if e7 < 0 {
        seq!['-']
    } else {
        Seq::<char>::empty()
    };
    let whole = sign + decimal(v / 10_000_000);
    let last = fixed_digits(v, 7);
    reveal_with_fuel(fixed_digits, 8);
    assert(v / 10 / 10 == v / 100);
    assert(v / 100 / 10 == v / 1000);
    assert(v / 1000 / 10 == v / 10_000);
    assert(v / 10_000 / 10 == v / 100_000);
    assert(v / 100_000 / 10 == v / 1_000_000);
    assert(last.len() == 7);
    assert(d =~= whole + seq!['.'] + last);
    assert(d.take(whole.len() as int) =~= whole);
}

/// The nearest whole number to a quotient is at most half away from it, and even where it is just
/// half away.
pub proof fn law_nearest(num: nat, den: nat)
    requires
        den > 0,
    ensures
        2 * (nearest(num, den) * den) <= 2 * num + den,
        2 * num <= 2 * (nearest(num, den) * den) + den,
        2 * (nearest(num, den) * den) == 2 * num + den ==> nearest(num, den) % 2 == 0,
        2 * num == 2 * (nearest(num, den) * den) + den ==> nearest(num, den) % 2 == 0,
{
    vstd::arithmetic::div_mod::lemma_fundamental_div_mod(num as int, den as int);
    vstd::arithmetic::div_mod::lemma_mod_bound(num as int, den as int);
    let q = num / den;
    assert(den * q == q * den) by (nonlinear_arith);
    assert((q + 1) * den == q * den + den) by (nonlinear_arith);
}

/// Numbers of 53 bits stay as they are. A larger one is rounded to a multiple of the power of two
/// that leaves it 53 bits, to the nearest one, and of two that are as near to the even one.
pub proof fn law_as_double(v: nat)
    ensures
        v < 0x20_0000_0000_0000 ==> as_double(v) == v,
        v >= 0x20_0000_0000_0000 ==> exists|k: nat|
            {
                let step = #[trigger] pow2(k);
                &&& 0x10_0000_0000_0000 * step <= v < 0x20_0000_0000_0000 * step
                &&& as_double(v) % step == 0
                &&& 2 * as_double(v) <= 2 * v + step
                &&& 2 * v <= 2 * as_double(v) + step
                &&& 2 * as_double(v) == 2 * v + step || 2 * v == 2 * as_double(v) + step ==> (
                as_double(v) / step) % 2 == 0
            },
{
    let step = double_step(v);
    lemma_double_step(v);
    law_nearest(v, step);
    if v < 0x20_0000_0000_0000 {
        assert(v / 1 == v && v % 1 == 0);
        assert(nearest(v, 1) == v);
        assert(v * 1 == v);
    } else {
        let k = choose|k: nat| step == #[trigger] pow2(k);
        let multiple = nearest(v, step);
        assert(as_double(v) == multiple * pow2(k));
        vstd::arithmetic::div_mod::lemma_div_multiples_vanish(multiple as int, step as int);
        vstd::arithmetic::div_mod::lemma_mod_multiples_basic(multiple as int, step as int);
        assert(step * multiple == multiple * step) by (nonlinear_arith);
    }
}

proof fn lemma_double_step(v: nat)
    ensures
        double_step(v) >= 1,
        exists|k: nat| double_step(v) == #[trigger] pow2(k),
        v < 0x20_0000_0000_0000 * double_step(v),
        v >= 0x20_0000_0000_0000 ==> 0x10_0000_0000_0000 * double_step(v) <= v,
    decreases v,
{
    lemma2_to64();
    if v >= 0x20_0000_0000_0000 {
        lemma_double_step(v / 2);
        let k = choose|k: nat| double_step(v / 2) == #[trigger] pow2(k);
        lemma_pow2_unfold(k + 1);
        assert(double_step(v) == pow2(k + 1));
    } else {
        assert(double_step(v) == pow2(0));
    }
}

/// A number of bytes below 1024 is shown as it is. A larger one, as a number of 53 bits, is shown
/// in the largest unit of 1024, 1024^2, 1024^3 or 1024^4 bytes that is not larger, in tenths, to
/// the nearest one, and of two that are as near to the even one.
pub proof fn law_bytes_shown(bytes: nat)
    ensures
        bytes < 1024 ==> bytes_shown(bytes) == decimal(bytes) + " B"@,
        bytes >= 1024 ==> exists|tenths: nat|
            ({
                let (unit, name) = if bytes < 0x10_0000 {
                    (0x400nat, " KiB"@)
                } else if bytes < 0x4000_0000 {
                    (0x10_0000nat, " MiB"@)
                } else if bytes < 0x100_0000_0000 {
                    (0x4000_0000nat, " GiB"@)
                } else {
                    (0x100_0000_0000nat, " TiB"@)
                };
                let double = as_double(bytes);
                &&& bytes_shown(bytes) == decimal(tenths / 10) + "."@ + #[trigger] decimal(
                    tenths % 10,
                ) + name
                &&& 2 * (tenths * unit) <= 20 * double + unit
                &&& 20 * double <= 2 * (tenths * unit) + unit
                &&& 2 * (tenths * unit) == 20 * double + unit || 20 * double == 2 * (tenths * unit)
                    + unit ==> tenths % 2 == 0
            }),
{
    if bytes >= 1024 {
        let unit = byte_unit(bytes);
        let double = as_double(bytes);
        let tenths = nearest(10 * double, unit);
        law_nearest(10 * double, unit);
        reveal_strlit(".");
        assert("."@ =~= seq!['.']);
        assert(decimal(tenths % 10) == seq![digit(tenths % 10)]);
    }
}

} // verus!
