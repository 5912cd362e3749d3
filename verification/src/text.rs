//! Text: comparing, splitting, reading and writing numbers.
use vstd::prelude::*;

verus! {

/// `String::push` appends one character.
pub assume_specification[ String::push ](s: &mut String, ch: char)
    ensures
        final(s)@ == old(s)@.push(ch),
;

/// The characters of a text.
pub fn chars_of(s: &str) -> (r: Vec<char>)
    ensures
        r@ == s@,
{
    let mut r: Vec<char> = Vec::new();
    for ch in it: s.chars()
        invariant
            it.seq() == s@,
            r@ == s@.take(it.index()),
    {
        r.push(ch);
    }
    assert(s@.take(s@.len() as int) == s@);
    r
}

/// The text made of the characters from `from` up to `to`.
pub fn text_of(chars: &Vec<char>, from: usize, to: usize) -> (r: String)
    requires
        from <= to <= chars@.len(),
    ensures
        r@ == chars@.subrange(from as int, to as int),
{
    let mut r = String::new();
    let mut i: usize = from;
    while i < to
        invariant
            from <= i <= to <= chars@.len(),
            r@ == chars@.subrange(from as int, i as int),
        decreases to - i,
    {
        r.push(chars[i]);
        i = i + 1;
        assert(r@ =~= chars@.subrange(from as int, i as int));
    }
    r
}

/// The two texts are the same.
pub fn text_eq(a: &str, b: &str) -> (r: bool)
    ensures
        r == (a@ == b@),
{
    a.to_owned() == b.to_owned()
}

/// The text starts with the given characters.
pub open spec fn has_prefix(s: Seq<char>, prefix: Seq<char>) -> bool {
    prefix.len() <= s.len() && s.take(prefix.len() as int) == prefix
}

/// What follows `prefix`, where the text starts with it.
pub fn strip_prefix(s: &str, prefix: &str) -> (r: Option<String>)
    ensures
        r is Some <==> has_prefix(s@, prefix@),
        r matches Some(rest) ==> rest@ == s@.skip(prefix@.len() as int),
{
    let chars = chars_of(s);
    let start = chars_of(prefix);
    if start.len() > chars.len() {
        return None;
    }
    let mut i: usize = 0;
    while i < start.len()
        invariant
            i <= start@.len() <= chars@.len(),
            start@ == prefix@,
            chars@ == s@,
            forall|k: int| 0 <= k < i ==> chars@[k] == start@[k],
        decreases start@.len() - i,
    {
        if chars[i] != start[i] {
            assert(s@.take(prefix@.len() as int)[i as int] != prefix@[i as int]);
            return None;
        }
        i = i + 1;
    }
    assert(s@.take(prefix@.len() as int) =~= prefix@);
    let rest = text_of(&chars, start.len(), chars.len());
    assert(rest@ =~= s@.skip(prefix@.len() as int));
    Some(rest)
}

/// Position of the first `c`, or the length where there is none.
pub open spec fn find(s: Seq<char>, c: char) -> nat
    decreases s.len(),
{
    if s.len() == 0 || s[0] == c {
        0
    } else {
        1 + find(s.drop_first(), c)
    }
}

pub(crate) proof fn lemma_find(s: Seq<char>, c: char, i: int)
    requires
        0 <= i <= s.len(),
        forall|k: int| 0 <= k < i ==> s[k] != c,
        i < s.len() ==> s[i] == c,
    ensures
        find(s, c) == i,
    decreases s.len(),
{
    if i > 0 {
        lemma_find(s.drop_first(), c, i - 1);
    }
}

/// Position of the first `c` at or after `from`, or the length where there is none.
pub fn find_from(chars: &Vec<char>, c: char, from: usize) -> (i: usize)
    requires
        from <= chars@.len(),
    ensures
        from <= i <= chars@.len(),
        i == from + find(chars@.skip(from as int), c),
        forall|k: int| from <= k < i ==> chars@[k] != c,
        i < chars@.len() ==> chars@[i as int] == c,
{
    let mut i: usize = from;
    while i < chars.len() && chars[i] != c
        invariant
            from <= i <= chars@.len(),
            forall|k: int| from <= k < i ==> chars@[k] != c,
        decreases chars@.len() - i,
    {
        i = i + 1;
    }
    proof {
        lemma_find(chars@.skip(from as int), c, i - from);
    }
    i
}

/// The parts of a text before and after the first `c`.
pub open spec fn split_once_at(s: Seq<char>, c: char) -> Option<(Seq<char>, Seq<char>)> {
    if find(s, c) < s.len() {
        Some((s.take(find(s, c) as int), s.skip(find(s, c) as int + 1)))
    } else {
        None
    }
}

/// Splits a text at the first `c`.
pub fn split_once(s: &str, c: char) -> (r: Option<(String, String)>)
    ensures
        match split_once_at(s@, c) {
            Some((left, right)) => r matches Some(p) && p.0@ == left && p.1@ == right,
            None => r is None,
        },
{
    let chars = chars_of(s);
    let i: usize = find_from(&chars, c, 0);
    assert(chars@.skip(0) =~= chars@);
    if i == chars.len() {
        return None;
    }
    let left = text_of(&chars, 0, i);
    let right = text_of(&chars, i + 1, chars.len());
    assert(left@ =~= s@.take(i as int));
    assert(right@ =~= s@.skip(i + 1));
    Some((left, right))
}

/// The parts of a text between all `c`.
pub open spec fn split_at_all(s: Seq<char>, c: char) -> Seq<Seq<char>>
    decreases s.len(),
{
    match split_once_at(s, c) {
        Some((left, right)) => seq![left] + split_at_all(right, c),
        None => seq![s],
    }
}

/// The texts of a list.
pub open spec fn texts(v: Seq<String>) -> Seq<Seq<char>> {
    v.map_values(|s: String| s@)
}

/// Splits a text at every `c`.
pub fn split(s: &str, c: char) -> (r: Vec<String>)
    ensures
        texts(r@) == split_at_all(s@, c),
{
    let chars = chars_of(s);
    let mut r: Vec<String> = Vec::new();
    let mut from: usize = 0;
    assert(chars@.skip(0) =~= s@);
    assert(texts(r@) + split_at_all(s@, c) =~= split_at_all(s@, c));
    loop
        invariant
            chars@ == s@,
            from <= chars@.len(),
            texts(r@) + split_at_all(s@.skip(from as int), c) == split_at_all(s@, c),
        decreases chars@.len() - from,
    {
        let i: usize = find_from(&chars, c, from);
        let part = text_of(&chars, from, i);
        let ghost before = r@;
        let ghost here = s@.skip(from as int);
        r.push(part);
        assert(texts(r@) =~= texts(before).push(part@));
        assert(part@ =~= here.take(i - from));
        if i == chars.len() {
            assert(part@ =~= here);
            assert(texts(before) + seq![part@] =~= texts(r@));
            return r;
        }
        assert(here.skip(i - from + 1) =~= s@.skip(i + 1));
        assert(texts(before) + (seq![part@] + split_at_all(s@.skip(i + 1), c)) =~= texts(r@)
            + split_at_all(s@.skip(i + 1), c));
        from = i + 1;
    }
}

/// The lower case of an ASCII letter; any other character itself.
pub open spec fn lower(c: char) -> char {
    if 'A' <= c && c <= 'Z' {
        (c as u32 + 32) as char
    } else {
        c
    }
}

pub open spec fn lowered(s: Seq<char>) -> Seq<char> {
    s.map_values(|c: char| lower(c))
}

fn lower_char(c: char) -> (r: char)
    ensures
        r == lower(c),
{
    if 'A' <= c && c <= 'Z' {
        (c as u8 + 32) as char
    } else {
        c
    }
}

/// The text with ASCII letters in lower case.
pub fn to_lower(s: &str) -> (r: String)
    ensures
        r@ == lowered(s@),
{
    let mut r = String::new();
    for ch in it: s.chars()
        invariant
            it.seq() == s@,
            r@ == lowered(s@.take(it.index())),
    {
        let ghost before = r@;
        r.push(lower_char(ch));
        assert(r@ =~= lowered(s@.take(it.index() + 1)));
    }
    assert(s@.take(s@.len() as int) == s@);
    r
}

/// The character that stands for a digit.
pub open spec fn digit(d: nat) -> char {
    (48 + d) as char
}

/// The decimal digits of a number.
pub open spec fn decimal(v: nat) -> Seq<char>
    decreases v,
{
    if v < 10 {
        seq![digit(v)]
    } else {
        decimal(v / 10).push(digit(v % 10))
    }
}

/// Appends the decimal digits of a number.
pub fn push_decimal(out: &mut String, v: u64)
    ensures
        final(out)@ == old(out)@ + decimal(v as nat),
    decreases v,
{
    let ghost start = out@;
    if v >= 10 {
        push_decimal(out, v / 10);
    }
    let d: u8 = (v % 10) as u8;
    out.push((48 + d) as char);
    proof {
        assert(out@ =~= start + decimal(v as nat));
    }
}

/// The decimal digits of a number.
pub fn decimal_text(v: u64) -> (r: String)
    ensures
        r@ == decimal(v as nat),
{
    let mut r = String::new();
    push_decimal(&mut r, v);
    assert(r@ =~= decimal(v as nat));
    r
}

/// A number below ten is written as one character, and a larger one as the number of its tens
/// followed by its ones. No other number is written alike.
pub proof fn law_decimal(v: nat, w: nat)
    ensures
        v < 10 ==> decimal(v).len() == 1 && decimal(v)[0] as nat == 48 + v,
        v >= 10 ==> decimal(v) == decimal(v / 10) + decimal(v % 10),
        decimal(v).len() > 0,
        forall|i: int| 0 <= i < decimal(v).len() ==> '0' <= (#[trigger] decimal(v)[i]) <= '9',
        v > 0 ==> decimal(v)[0] != '0',
        decimal(v) == decimal(w) ==> v == w,
    decreases v,
{
    if v >= 10 {
        law_decimal(v / 10, w / 10);
        law_decimal(v % 10, w % 10);
        assert(decimal(v) =~= decimal(v / 10) + decimal(v % 10));
    }
    if decimal(v) == decimal(w) {
        if v >= 10 && w >= 10 {
            assert(decimal(v).drop_last() =~= decimal(v / 10));
            assert(decimal(w).drop_last() =~= decimal(w / 10));
            assert(decimal(v).last() == decimal(w).last());
        } else if v >= 10 {
            assert(decimal(v).len() > 1);
        } else if w >= 10 {
            lemma_decimal_len(w / 10);
            assert(decimal(w).len() > 1);
        } else {
            assert(decimal(v)[0] == decimal(w)[0]);
        }
    }
}

proof fn lemma_decimal_len(v: nat)
    ensures
        decimal(v).len() > 0,
    decreases v,
{
    if v >= 10 {
        lemma_decimal_len(v / 10);
    }
}

proof fn lemma_find_is_first(s: Seq<char>, c: char)
    ensures
        find(s, c) <= s.len(),
        forall|k: int| 0 <= k < find(s, c) ==> s[k] != c,
        find(s, c) < s.len() ==> s[find(s, c) as int] == c,
    decreases s.len(),
{
    if s.len() > 0 && s[0] != c {
        let t = s.drop_first();
        lemma_find_is_first(t, c);
        assert forall|k: int| 0 <= k < find(s, c) implies s[k] != c by {
            if k > 0 {
                assert(t[k - 1] == s[k]);
            }
        }
        if find(s, c) < s.len() {
            assert(t[find(t, c) as int] == s[find(s, c) as int]);
        }
    }
}

/// A text is split where the character stands for the first time: the two parts with the
/// character between them are the text, and the left one does not hold it. A text without it is
/// not split.
pub proof fn law_split_once(s: Seq<char>, c: char)
    ensures
        split_once_at(s, c) is None <==> !s.contains(c),
        split_once_at(s, c) matches Some((left, right)) ==> left + seq![c] + right == s
            && !left.contains(c),
{
    lemma_find_is_first(s, c);
    let i = find(s, c) as int;
    if i < s.len() {
        assert(s[i] == c);
        assert(s.take(i) + seq![c] + s.skip(i + 1) =~= s);
        assert forall|k: int| 0 <= k < i implies s.take(i)[k] != c by {
            assert(s.take(i)[k] == s[k]);
        }
    }
}

/// A text without the character has one part. In front of a first part that does not hold the
/// character and of the character itself come the parts of the rest.
pub proof fn law_split_at_all(first: Seq<char>, rest: Seq<char>, c: char)
    requires
        !first.contains(c),
    ensures
        split_at_all(first, c) == seq![first],
        split_at_all(first + seq![c] + rest, c) == seq![first] + split_at_all(rest, c),
{
    law_split_once(first, c);
    let s = first + seq![c] + rest;
    assert(s[first.len() as int] == c);
    assert forall|k: int| 0 <= k < first.len() implies s[k] != c by {
        assert(s[k] == first[k]);
        assert(first.contains(first[k]));
    }
    lemma_find(s, c, first.len() as int);
    assert(s.take(first.len() as int) =~= first);
    assert(s.skip(first.len() as int + 1) =~= rest);
}

/// Capital letters of ASCII become the small ones, 32 places behind them; nothing else changes.
pub proof fn law_lowered(s: Seq<char>)
    ensures
        lowered(s).len() == s.len(),
        forall|i: int|
            0 <= i < s.len() ==> #[trigger] lowered(s)[i] as nat == s[i] as nat + (if 'A' <= s[i]
                && s[i] <= 'Z' {
                32nat
            } else {
                0
            }),
{
}

} // verus!
