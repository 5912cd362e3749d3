//! Stable sorting by an integer key.
use vstd::prelude::*;

verus! {

/// Item `i` comes before item `j`: by key, and by position where the keys are equal.
pub open spec fn precedes(keys: Seq<u128>, i: usize, j: usize) -> bool {
    keys[i as int] < keys[j as int] || (keys[i as int] == keys[j as int] && i < j)
}

pub open spec fn strictly_ordered(keys: Seq<u128>, p: Seq<usize>) -> bool {
    forall|i: int, j: int|
        0 <= i < j < p.len() ==> precedes(keys, #[trigger] p[i], #[trigger] p[j])
}

/// `p` lists every position of `keys` once, in the order of a stable sort.
pub open spec fn is_stable_order(keys: Seq<u128>, p: Seq<usize>) -> bool {
    &&& p.len() == keys.len()
    &&& forall|i: int| 0 <= i < p.len() ==> (#[trigger] p[i]) < keys.len()
    &&& forall|k: usize| k < keys.len() ==> #[trigger] p.contains(k)
    &&& strictly_ordered(keys, p)
}

/// The items of `s` in the order that `p` lists them.
pub open spec fn arranged<T>(s: Seq<T>, p: Seq<usize>) -> Seq<T> {
    Seq::new(p.len(), |i: int| s[p[i] as int])
}

/// `after` is `before`, stably sorted by `key`.
pub open spec fn stably_sorted<T>(before: Seq<T>, after: Seq<T>, key: spec_fn(T) -> u128) -> bool {
    exists|p: Seq<usize>|
        #[trigger] is_stable_order(before.map_values(key), p) && after == arranged(before, p)
}

fn merge(keys: &Vec<u128>, a: &Vec<usize>, b: &Vec<usize>) -> (out: Vec<usize>)
    requires
        strictly_ordered(keys@, a@),
        strictly_ordered(keys@, b@),
        a@.len() + b@.len() <= usize::MAX,
        forall|i: int| 0 <= i < a@.len() ==> (#[trigger] a@[i]) < keys@.len(),
        forall|i: int| 0 <= i < b@.len() ==> (#[trigger] b@[i]) < keys@.len(),
        forall|i: int, j: int|
            0 <= i < a@.len() && 0 <= j < b@.len() ==> (#[trigger] a@[i]) < (#[trigger] b@[j]),
    ensures
        out@.len() == a@.len() + b@.len(),
        strictly_ordered(keys@, out@),
        forall|k: usize| #[trigger] out@.contains(k) <==> a@.contains(k) || b@.contains(k),
{
    let mut out: Vec<usize> = Vec::new();
    let mut i: usize = 0;
    let mut j: usize = 0;
    while i < a.len() || j < b.len()
        invariant
            i <= a@.len(),
            j <= b@.len(),
            out@.len() == i + j,
            a@.len() + b@.len() <= usize::MAX,
            strictly_ordered(keys@, a@),
            strictly_ordered(keys@, b@),
            strictly_ordered(keys@, out@),
            forall|x: int| 0 <= x < a@.len() ==> (#[trigger] a@[x]) < keys@.len(),
            forall|x: int| 0 <= x < b@.len() ==> (#[trigger] b@[x]) < keys@.len(),
            forall|x: int, y: int|
                0 <= x < a@.len() && 0 <= y < b@.len() ==> (#[trigger] a@[x]) < (#[trigger] b@[y]),
            forall|x: int, y: int|
                0 <= x < out@.len() && i <= y < a@.len() ==> precedes(
                    keys@,
                    #[trigger] out@[x],
                    #[trigger] a@[y],
                ),
            forall|x: int, y: int|
                0 <= x < out@.len() && j <= y < b@.len() ==> precedes(
                    keys@,
                    #[trigger] out@[x],
                    #[trigger] b@[y],
                ),
            forall|x: int| 0 <= x < i ==> out@.contains(#[trigger] a@[x]),
            forall|x: int| 0 <= x < j ==> out@.contains(#[trigger] b@[x]),
            forall|x: int|
                0 <= x < out@.len() ==> a@.contains(#[trigger] out@[x]) || b@.contains(out@[x]),
        decreases a@.len() + b@.len() - i - j,
    {
        let take_a: bool = if i == a.len() {
            false
        } else if j == b.len() {
            true
        } else {
            keys[a[i]] <= keys[b[j]]
        };
        let next: usize = if take_a {
            a[i]
        } else {
            b[j]
        };
        let ghost before = out@;
        out.push(next);
        proof {
            assert(out@[before.len() as int] == next);
            assert forall|k: usize| before.contains(k) implies out@.contains(k) by {
                let w = choose|w: int| 0 <= w < before.len() && before[w] == k;
                assert(out@[w] == k);
            }
        }
        if take_a {
            i = i + 1;
        } else {
            j = j + 1;
        }
    }
    out
}

fn order_range(keys: &Vec<u128>, lo: usize, hi: usize) -> (p: Vec<usize>)
    requires
        lo <= hi <= keys@.len(),
    ensures
        p@.len() == hi - lo,
        strictly_ordered(keys@, p@),
        forall|k: usize| #[trigger] p@.contains(k) <==> lo <= k < hi,
    decreases hi - lo,
{
    if hi - lo <= 1 {
        let mut p: Vec<usize> = Vec::new();
        if lo < hi {
            p.push(lo);
            assert(p@[0] == lo);
        }
        return p;
    }
    let mid: usize = lo + (hi - lo) / 2;
    let a = order_range(keys, lo, mid);
    let b = order_range(keys, mid, hi);
    proof {
        assert forall|i: int| 0 <= i < a@.len() implies lo <= (#[trigger] a@[i]) < mid by {
            assert(a@.contains(a@[i]));
        }
        assert forall|i: int| 0 <= i < b@.len() implies mid <= (#[trigger] b@[i]) < hi by {
            assert(b@.contains(b@[i]));
        }
    }
    merge(keys, &a, &b)
}

/// The positions of `keys` in the order of a stable sort.
pub fn stable_order(keys: &Vec<u128>) -> (p: Vec<usize>)
    ensures
        is_stable_order(keys@, p@),
{
    let p = order_range(keys, 0, keys.len());
    proof {
        assert forall|i: int| 0 <= i < p@.len() implies (#[trigger] p@[i]) < keys@.len() by {
            assert(p@.contains(p@[i]));
        }
    }
    p
}

/// Moves the items into the order that `p` lists them.
pub fn arrange<T>(items: Vec<T>, p: &Vec<usize>) -> (out: Vec<T>)
    requires
        p@.len() == items@.len(),
        forall|i: int| 0 <= i < p@.len() ==> (#[trigger] p@[i]) < items@.len(),
        p@.no_duplicates(),
    ensures
        out@ == arranged(items@, p@),
{
    let ghost all = items@;
    let mut slots: Vec<Option<T>> = Vec::new();
    for item in it: items
        invariant
            it.seq() == all,
            slots@.len() == it.index(),
            forall|j: int| 0 <= j < slots@.len() ==> #[trigger] slots@[j] == Some(all[j]),
    {
        slots.push(Some(item));
    }
    let mut out: Vec<T> = Vec::new();
    let mut i: usize = 0;
    while i < p.len()
        invariant
            i <= p@.len(),
            p@.len() == all.len(),
            slots@.len() == all.len(),
            forall|x: int| 0 <= x < p@.len() ==> (#[trigger] p@[x]) < all.len(),
            p@.no_duplicates(),
            out@ == arranged(all, p@.take(i as int)),
            forall|x: int| i <= x < p@.len() ==> slots@[#[trigger] p@[x] as int] == Some(
                all[p@[x] as int],
            ),
        decreases p@.len() - i,
    {
        let k: usize = p[i];
        assert(slots@[p@[i as int] as int] == Some(all[k as int]));
        let taken = slots[k].take();
        match taken {
            Some(item) => {
                out.push(item);
            },
            None => {},
        }
        i = i + 1;
        assert(out@ =~= arranged(all, p@.take(i as int)));
    }
    assert(p@.take(i as int) == p@);
    out
}

pub(crate) proof fn lemma_order_no_duplicates(keys: Seq<u128>, p: Seq<usize>)
    requires
        strictly_ordered(keys, p),
    ensures
        p.no_duplicates(),
{
    assert forall|i: int, j: int| 0 <= i < p.len() && 0 <= j < p.len() && i != j implies p[i]
        != p[j] by {
        if i < j {
            assert(precedes(keys, p[i], p[j]));
        } else {
            assert(precedes(keys, p[j], p[i]));
        }
    }
}

/// A sequence of keys has one stable order only.
pub proof fn law_stable_order_is_unique(keys: Seq<u128>, p: Seq<usize>, q: Seq<usize>)
    requires
        is_stable_order(keys, p),
        is_stable_order(keys, q),
    ensures
        p == q,
{
    assert forall|i: int| 0 <= i < p.len() implies p[i] == q[i] by {
        lemma_orders_agree(keys, p, q, i);
    }
}

proof fn lemma_orders_agree(keys: Seq<u128>, p: Seq<usize>, q: Seq<usize>, i: int)
    requires
        is_stable_order(keys, p),
        is_stable_order(keys, q),
        0 <= i < p.len(),
    ensures
        p[i] == q[i],
    decreases i,
{
    assert forall|k: int| 0 <= k < i implies p[k] == q[k] by {
        lemma_orders_agree(keys, p, q, k);
    }
    assert(q.contains(p[i]));
    assert(p.contains(q[i]));
    let j = choose|j: int| 0 <= j < q.len() && q[j] == p[i];
    let k = choose|k: int| 0 <= k < p.len() && p[k] == q[i];
    if j < i {
        assert(p[j] == q[j]);
        assert(precedes(keys, p[j], p[i]));
    } else if k < i {
        assert(p[k] == q[k]);
        assert(precedes(keys, q[k], q[i]));
    } else if j > i && k > i {
        assert(precedes(keys, q[i], q[j]));
        assert(precedes(keys, p[i], p[k]));
    }
}

proof fn lemma_arranged_multiset<T>(s: Seq<T>, p: Seq<usize>)
    requires
        p.len() == s.len(),
        p.no_duplicates(),
        forall|i: int| 0 <= i < p.len() ==> (#[trigger] p[i]) < s.len(),
        forall|k: usize| k < s.len() ==> #[trigger] p.contains(k),
        s.len() <= usize::MAX,
    ensures
        arranged(s, p).to_multiset() == s.to_multiset(),
    decreases s.len(),
{
    broadcast use vstd::seq_lib::group_to_multiset_ensures;

    if s.len() == 0 {
        assert(arranged(s, p) =~= s);
    } else {
        let n = (s.len() - 1) as usize;
        assert(p.contains(n));
        let k = choose|k: int| 0 <= k < p.len() && p[k] == n;
        let q = p.remove(k);
        let t = s.drop_last();
        assert forall|i: int| 0 <= i < q.len() implies (#[trigger] q[i]) < t.len() by {
            let from = if i < k {
                i
            } else {
                i + 1
            };
            assert(q[i] == p[from]);
            assert(p[from] < s.len());
        }
        assert forall|v: usize| v < t.len() implies #[trigger] q.contains(v) by {
            assert(p.contains(v));
            let w = choose|w: int| 0 <= w < p.len() && p[w] == v;
            if w < k {
                assert(q[w] == v);
            } else {
                assert(q[w - 1] == v);
            }
        }
        assert(q.no_duplicates());
        lemma_arranged_multiset(t, q);
        assert(arranged(t, q) =~= arranged(s, p).remove(k));
        assert(arranged(s, p)[k] == s.last());
        assert(s =~= t.push(s.last()));
        let whole = arranged(s, p).to_multiset();
        assert(arranged(s, p).remove(k).to_multiset() == whole.remove(s.last()));
        assert(arranged(s, p).contains(s.last()));
        assert(whole.remove(s.last()).insert(s.last()) =~= whole);
    }
}

/// A stable sort keeps every item and puts the keys in ascending order.
pub proof fn law_stable_sort<T>(before: Seq<T>, after: Seq<T>, key: spec_fn(T) -> u128)
    requires
        stably_sorted(before, after, key),
        before.len() <= usize::MAX,
    ensures
        after.to_multiset() == before.to_multiset(),
        forall|i: int, j: int|
            0 <= i <= j < after.len() ==> key(#[trigger] after[i]) <= key(#[trigger] after[j]),
{
    let p = choose|p: Seq<usize>|
        #[trigger] is_stable_order(before.map_values(key), p) && after == arranged(before, p);
    let keys = before.map_values(key);
    lemma_order_no_duplicates(keys, p);
    lemma_arranged_multiset(before, p);
    assert forall|i: int, j: int| 0 <= i <= j < after.len() implies key(#[trigger] after[i])
        <= key(#[trigger] after[j]) by {
        if i < j {
            assert(precedes(keys, p[i], p[j]));
        }
    }
}

/// A stable sort leaves items with the same key in the order in which they were: each item has a
/// place of its own among those before, and of two with the same key the one that was first
/// stays first.
pub proof fn law_stable_sort_keeps_order<T>(before: Seq<T>, after: Seq<T>, key: spec_fn(T) -> u128)
    requires
        stably_sorted(before, after, key),
        before.len() <= usize::MAX,
    ensures
        after.len() == before.len(),
        exists|places: Seq<int>|
            {
                &&& places.len() == after.len()
                &&& places.no_duplicates()
                &&& forall|i: int| #![trigger places[i]]
                    0 <= i < after.len() ==> 0 <= places[i] < before.len() && after[i]
                        == before[places[i]]
                &&& forall|i: int, j: int| #![trigger places[i], places[j]]
                    0 <= i < j < after.len() ==> key(after[i]) < key(after[j]) || (key(after[i])
                        == key(after[j]) && places[i] < places[j])
            },
{
    let p = choose|p: Seq<usize>|
        #[trigger] is_stable_order(before.map_values(key), p) && after == arranged(before, p);
    let keys = before.map_values(key);
    lemma_order_no_duplicates(keys, p);
    let places = Seq::new(p.len(), |i: int| p[i] as int);
    assert(places.no_duplicates()) by {
        assert forall|i: int, j: int|
            0 <= i < places.len() && 0 <= j < places.len() && i != j implies places[i]
            != places[j] by {
            assert(p[i] != p[j]);
        }
    }
    assert forall|i: int| #![trigger places[i]] 0 <= i < after.len() implies 0 <= places[i]
        < before.len() && after[i] == before[places[i]] by {
        assert(p[i] < keys.len());
    }
    assert forall|i: int, j: int| #![trigger places[i], places[j]]
        0 <= i < j < after.len() implies key(after[i]) < key(after[j]) || (key(after[i]) == key(
        after[j],
    ) && places[i] < places[j]) by {
        assert(precedes(keys, p[i], p[j]));
        assert(p[i] < keys.len() && p[j] < keys.len());
    }
}

} // verus!
