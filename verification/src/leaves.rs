//! Large directories: a root that points to leaf directories.
use vstd::arithmetic::power2::{lemma2_to64, lemma2_to64_rest, lemma_pow2_unfold, pow2};
use vstd::prelude::*;
use vstd::slice::slice_subrange;

use crate::directory::{
    directory, follows, id_column, law_directory_round_trip, lemma_directory_len, length_column,
    offset_code, offset_column, read_directory, run_column, serializable, serialize_directory,
    Entry,
};
use crate::varint::{lemma_varint_len, varint, varints};

verus! {

/// Rows per leaf that are tried first.
pub const FIRST_LEAF_SIZE: usize = 4096;

/// Rows per leaf on try `k`: twice as many each time.
pub open spec fn leaf_size(k: nat) -> nat {
    FIRST_LEAF_SIZE as nat * pow2(k)
}

/// The rows can be written as a directory, whole or in any split into leaves.
pub open spec fn splittable(entries: Seq<Entry>) -> bool {
    &&& serializable(entries)
    &&& forall|i: int| 0 <= i < entries.len() ==> (#[trigger] entries[i]).offset < u64::MAX
}

/// Number of leaves for `n` rows.
pub open spec fn leaf_count(n: nat, size: nat) -> nat {
    (n + size - 1) as nat / size
}

/// The rows of leaf `k`.
pub open spec fn leaf_rows(entries: Seq<Entry>, size: nat, k: int) -> Seq<Entry> {
    entries.subrange(
        k * size,
        if (k + 1) * size <= entries.len() {
            (k + 1) * size
        } else {
            entries.len() as int
        },
    )
}

/// The rows of all leaves, in order.
pub open spec fn leaf_chunks(entries: Seq<Entry>, size: nat) -> Seq<Seq<Entry>> {
    Seq::new(leaf_count(entries.len(), size), |k: int| leaf_rows(entries, size, k))
}

/// The bytes of the leaves, one after the other.
pub open spec fn leaf_bytes(chunks: Seq<Seq<Entry>>) -> Seq<u8>
    decreases chunks.len(),
{
    if chunks.len() == 0 {
        Seq::empty()
    } else {
        leaf_bytes(chunks.drop_last()) + directory(chunks.last())
    }
}

/// The row of the root that points to leaf `k`.
pub open spec fn root_row(chunks: Seq<Seq<Entry>>, k: int) -> Entry {
    Entry {
        tile_id: chunks[k][0].tile_id,
        offset: leaf_bytes(chunks.take(k)).len() as u64,
        length: directory(chunks[k]).len() as u32,
        run_length: 0,
    }
}

pub open spec fn root_rows(chunks: Seq<Seq<Entry>>) -> Seq<Entry> {
    Seq::new(chunks.len(), |k: int| root_row(chunks, k))
}

/// The bytes of a root over leaves of the given size.
pub open spec fn root_bytes(entries: Seq<Entry>, size: nat) -> Seq<u8> {
    directory(root_rows(leaf_chunks(entries, size)))
}

proof fn lemma_leaf_count(n: nat, size: nat, k: nat)
    requires
        size > 0,
    ensures
        k < leaf_count(n, size) ==> k * size < n,
        k >= leaf_count(n, size) ==> k * size >= n,
        k * size < n ==> k < leaf_count(n, size),
{
    let c = leaf_count(n, size);
    vstd::arithmetic::div_mod::lemma_fundamental_div_mod((n + size - 1) as int, size as int);
    vstd::arithmetic::div_mod::lemma_mod_bound((n + size - 1) as int, size as int);
    assert(size * c == c * size) by (nonlinear_arith);
    if k < c {
        assert(k * size <= (c - 1) * size) by (nonlinear_arith)
            requires
                k <= c - 1,
        ;
        assert((c - 1) * size == c * size - size) by (nonlinear_arith);
    } else {
        assert(k * size >= c * size) by (nonlinear_arith)
            requires
                k >= c,
        ;
    }
}

proof fn lemma_subrange_splittable(entries: Seq<Entry>, a: int, b: int)
    requires
        splittable(entries),
        0 <= a <= b <= entries.len(),
    ensures
        splittable(entries.subrange(a, b)),
{
    let sub = entries.subrange(a, b);
    assert forall|i: int| 0 <= i < sub.len() implies #[trigger] offset_code(sub, i)
        <= u64::MAX by {
        assert(sub[i] == entries[a + i]);
        assert(entries[a + i].offset < u64::MAX);
    }
    assert forall|i: int| 0 <= i < sub.len() - 1 implies (#[trigger] sub[i]).offset + sub[i].length
        <= u64::MAX by {
        assert(sub[i] == entries[a + i]);
    }
}

proof fn lemma_leaf_bytes_step(chunks: Seq<Seq<Entry>>, k: int)
    requires
        0 <= k < chunks.len(),
    ensures
        leaf_bytes(chunks.take(k + 1)) == leaf_bytes(chunks.take(k)) + directory(chunks[k]),
{
    assert(chunks.take(k + 1).drop_last() =~= chunks.take(k));
}

proof fn lemma_leaf_bytes_grow(chunks: Seq<Seq<Entry>>, j: int, k: int)
    requires
        0 <= j <= k <= chunks.len(),
    ensures
        leaf_bytes(chunks.take(j)).len() <= leaf_bytes(chunks.take(k)).len(),
    decreases k - j,
{
    if j < k {
        lemma_leaf_bytes_step(chunks, k - 1);
        lemma_leaf_bytes_grow(chunks, j, k - 1);
    }
}

proof fn lemma_truncated_length(len: nat)
    requires
        len <= u64::MAX,
    ensures
        len as u32 <= len,
{
    let l = len as u64;
    assert(l as u32 <= l) by (bit_vector);
}

proof fn lemma_chunk(entries: Seq<Entry>, size: nat, k: int)
    requires
        splittable(entries),
        size > 0,
        0 <= k < leaf_count(entries.len(), size),
    ensures
        0 <= k * size < entries.len(),
        leaf_chunks(entries, size)[k].len() > 0,
        leaf_chunks(entries, size)[k].len() <= entries.len(),
        leaf_chunks(entries, size)[k][0] == entries[k * size],
        splittable(leaf_chunks(entries, size)[k]),
{
    lemma_leaf_count(entries.len(), size, k as nat);
    assert((k + 1) * size == k * size + size) by (nonlinear_arith);
    assert(k * size >= 0) by (nonlinear_arith)
        requires
            k >= 0,
            size >= 0,
    ;
    lemma_subrange_splittable(
        entries,
        k * size,
        if (k + 1) * size <= entries.len() {
            (k + 1) * size
        } else {
            entries.len() as int
        },
    );
}

proof fn lemma_root_serializable(entries: Seq<Entry>, size: nat)
    requires
        splittable(entries),
        entries.len() <= u64::MAX,
        size > 0,
        leaf_bytes(leaf_chunks(entries, size)).len() <= u64::MAX,
    ensures
        serializable(root_rows(leaf_chunks(entries, size))),
        forall|k: int|
            0 <= k < leaf_chunks(entries, size).len() ==> (#[trigger] root_rows(
                leaf_chunks(entries, size),
            )[k]).offset == leaf_bytes(leaf_chunks(entries, size).take(k)).len(),
{
    let chunks = leaf_chunks(entries, size);
    let rows = root_rows(chunks);
    assert(chunks.take(chunks.len() as int) =~= chunks);
    assert forall|k: int| 0 <= k < rows.len() implies {
        &&& (#[trigger] rows[k]).offset == leaf_bytes(chunks.take(k)).len()
        &&& rows[k].offset + rows[k].length <= u64::MAX
        &&& rows[k].offset < u64::MAX
    } by {
        lemma_chunk(entries, size, k);
        lemma_leaf_bytes_step(chunks, k);
        lemma_leaf_bytes_grow(chunks, k + 1, chunks.len() as int);
        lemma_directory_len(chunks[k]);
        lemma_truncated_length(directory(chunks[k]).len());
    }
    assert forall|i: int, j: int| 0 <= i <= j < rows.len() implies (#[trigger] rows[i]).tile_id
        <= (#[trigger] rows[j]).tile_id by {
        lemma_chunk(entries, size, i);
        lemma_chunk(entries, size, j);
        assert(i * size <= j * size) by (nonlinear_arith)
            requires
                i <= j,
        ;
    }
    assert forall|k: int| 0 <= k < rows.len() implies #[trigger] offset_code(rows, k)
        <= u64::MAX by {
        assert(rows[k].offset < u64::MAX);
    }
}

/// The root and the leaves for a given number of rows per leaf.
pub(crate) fn build_root_and_leaves(entries: &[Entry], size: usize) -> (r: (Vec<u8>, Vec<u8>))
    requires
        splittable(entries@),
        size > 0,
    ensures
        r.0@ == root_bytes(entries@, size as nat),
        r.1@ == leaf_bytes(leaf_chunks(entries@, size as nat)),
{
    let n: usize = entries.len();
    let ghost chunks = leaf_chunks(entries@, size as nat);
    let ghost mut k: int = 0;
    let mut root_entries: Vec<Entry> = Vec::new();
    let mut leaves: Vec<u8> = Vec::new();
    let mut start: usize = 0;
    proof {
        lemma_leaf_count(n as nat, size as nat, 0);
        assert(0 * size == 0);
    }
    while start < n
        invariant
            n == entries@.len(),
            size > 0,
            splittable(entries@),
            chunks == leaf_chunks(entries@, size as nat),
            0 <= k <= chunks.len(),
            start <= n,
            start < n ==> start == k * size && k < chunks.len(),
            start == n ==> k == chunks.len(),
            leaves@ == leaf_bytes(chunks.take(k)),
            root_entries@ == root_rows(chunks).take(k),
        decreases n - start,
    {
        let end: usize = if n - start <= size {
            n
        } else {
            start + size
        };
        proof {
            assert((k + 1) * size == k * size + size) by (nonlinear_arith);
            assert(entries@.subrange(start as int, end as int) =~= chunks[k]);
            lemma_chunk(entries@, size as nat, k);
            lemma_leaf_bytes_step(chunks, k);
            lemma_leaf_count(n as nat, size as nat, (k + 1) as nat);
        }
        let mut leaf = serialize_directory(slice_subrange(entries, start, end));
        root_entries.push(
            Entry {
                tile_id: entries[start].tile_id,
                offset: leaves.len() as u64,
                length: #[verifier::truncate] (leaf.len() as u32),
                run_length: 0,
            },
        );
        leaves.append(&mut leaf);
        start = end;
        proof {
            assert(root_entries@ =~= root_rows(chunks).take(k + 1));
            k = k + 1;
        }
    }
    let _total: usize = leaves.len();
    proof {
        assert(chunks.take(k) =~= chunks);
        assert(_total == leaves@.len());
        assert(root_rows(chunks).take(k) =~= root_rows(chunks));
        lemma_root_serializable(entries@, size as nat);
    }
    (serialize_directory(root_entries.as_slice()), leaves)
}

/// A root over leaves of try `k` stays within the target.
pub open spec fn split_fits(entries: Seq<Entry>, target_root_len: nat, k: nat) -> bool {
    leaf_size(k) <= usize::MAX && root_bytes(entries, leaf_size(k)).len() <= target_root_len
}

/// Some form of the directory has a root within the target.
pub open spec fn directories_fit(entries: Seq<Entry>, target_root_len: nat) -> bool {
    ||| directory(entries).len() <= target_root_len
    ||| exists|k: nat| split_fits(entries, target_root_len, k)
}

/// `root` and `leaves` are the directory in one piece where that stays within the target, and
/// else in the smallest leaves, by doubling, whose root does.
pub open spec fn optimized(
    entries: Seq<Entry>,
    target_root_len: nat,
    root: Seq<u8>,
    leaves: Seq<u8>,
) -> bool {
    if directory(entries).len() <= target_root_len {
        root == directory(entries) && leaves == Seq::<u8>::empty()
    } else {
        exists|k: nat|
            {
                &&& #[trigger] split_fits(entries, target_root_len, k)
                &&& forall|j: nat| j < k ==> !#[trigger] split_fits(entries, target_root_len, j)
                &&& root == root_bytes(entries, leaf_size(k))
                &&& leaves == leaf_bytes(leaf_chunks(entries, leaf_size(k)))
            }
    }
}

proof fn lemma_leaf_size_grows(j: nat, k: nat)
    requires
        j <= k,
    ensures
        0 < leaf_size(j) <= leaf_size(k),
        j < k ==> leaf_size(j + 1) == 2 * leaf_size(j) && leaf_size(j + 1) <= leaf_size(k),
    decreases k - j,
{
    vstd::arithmetic::power2::lemma_pow2_pos(j);
    if j < k {
        lemma_leaf_size_grows(j + 1, k);
        lemma_pow2_unfold(j + 1);
    }
}

/// The bytes of the root directory, and of the leaf directories where the root would otherwise
/// be longer than the target.
pub fn optimize_directories(entries: &[Entry], target_root_len: usize) -> (r: (Vec<u8>, Vec<u8>))
    requires
        splittable(entries@),
        directories_fit(entries@, target_root_len as nat),
    ensures
        optimized(entries@, target_root_len as nat, r.0@, r.1@),
{
    let root = serialize_directory(entries);
    if root.len() <= target_root_len {
        return (root, Vec::new());
    }
    let ghost goal = choose|k: nat| split_fits(entries@, target_root_len as nat, k);
    let ghost mut k: nat = 0;
    let mut size: usize = FIRST_LEAF_SIZE;
    proof {
        lemma2_to64();
    }
    loop
        invariant
            splittable(entries@),
            directory(entries@).len() > target_root_len,
            split_fits(entries@, target_root_len as nat, goal),
            k <= goal,
            size == leaf_size(k),
            forall|j: nat| j < k ==> !#[trigger] split_fits(entries@, target_root_len as nat, j),
        decreases goal - k,
    {
        proof {
            lemma_leaf_size_grows(k, goal);
        }
        let (root, leaves) = build_root_and_leaves(entries, size);
        if root.len() <= target_root_len {
            proof {
                assert(split_fits(entries@, target_root_len as nat, k));
            }
            return (root, leaves);
        }
        proof {
            assert(!split_fits(entries@, target_root_len as nat, k));
            k = k + 1;
        }
        size = size * 2;
    }
}

proof fn lemma_leaf_bytes_len(entries: Seq<Entry>, size: nat, k: int)
    requires
        splittable(entries),
        size > 0,
        entries.len() <= u64::MAX,
        0 <= k <= leaf_count(entries.len(), size),
    ensures
        leaf_bytes(leaf_chunks(entries, size).take(k)).len() <= 40 * (if k * size <= entries.len() {
            k * size
        } else {
            entries.len() as int
        }),
    decreases k,
{
    let chunks = leaf_chunks(entries, size);
    if k > 0 {
        lemma_leaf_bytes_len(entries, size, k - 1);
        lemma_chunk(entries, size, k - 1);
        lemma_leaf_bytes_step(chunks, k - 1);
        lemma_directory_len(chunks[k - 1]);
        assert((k - 1) * size == k * size - size) by (nonlinear_arith);
    } else {
        assert(k * size == 0) by (nonlinear_arith)
            requires
                k == 0,
        ;
    }
}

/// The leaves take at most forty bytes for each row.
pub(crate) proof fn lemma_leaves_len(entries: Seq<Entry>, size: nat)
    requires
        splittable(entries),
        size > 0,
        entries.len() <= u64::MAX,
    ensures
        leaf_bytes(leaf_chunks(entries, size)).len() <= 40 * entries.len(),
{
    let chunks = leaf_chunks(entries, size);
    lemma_leaf_bytes_len(entries, size, chunks.len() as int);
    assert(chunks.take(chunks.len() as int) =~= chunks);
}

/// The largest number of rows per leaf that is tried.
pub open spec fn largest_leaf() -> nat {
    (usize::MAX / 2 + 1) as nat
}

proof fn lemma_largest_leaf() -> (k: nat)
    ensures
        leaf_size(k) == largest_leaf(),
        largest_leaf() <= usize::MAX < 2 * largest_leaf(),
{
    lemma2_to64();
    lemma2_to64_rest();
    assert(usize::MAX == 0xffff_ffff || usize::MAX == 0xffff_ffff_ffff_ffff);
    if usize::MAX == 0xffff_ffff {
        19
    } else {
        51
    }
}

proof fn lemma_one_row_len(row: Entry)
    requires
        row.offset == 0,
        row.run_length == 0,
    ensures
        directory(seq![row]).len() <= 18,
{
    let rows = seq![row];
    assert(varint(1).len() == 1);
    assert(varint(0).len() == 1);
    lemma_varints_of_one(id_column(rows));
    lemma_varints_of_one(run_column(rows));
    lemma_varints_of_one(length_column(rows));
    lemma_varints_of_one(offset_column(rows));
    assert(!follows(rows, 0));
    assert(offset_column(rows)[0] == 1);
    lemma_varint_len(row.tile_id as nat);
    lemma_varint_len(row.length as nat);
}

proof fn lemma_varints_of_one(s: Seq<nat>)
    requires
        s.len() == 1,
    ensures
        varints(s) == varint(s[0]),
{
    assert(s.drop_first() =~= Seq::empty());
    assert(varints(s.drop_first()) =~= Seq::<u8>::empty());
    assert(varints(s) =~= varint(s[0]));
}

/// As many rows as one leaf can hold fit a target of eighteen bytes, the most that a root of one
/// row takes, and every larger one; and the root that is chosen stays within the target.
pub proof fn law_directories_fit(entries: Seq<Entry>, target_root_len: nat)
    requires
        splittable(entries),
        entries.len() <= largest_leaf(),
        target_root_len >= 18,
    ensures
        directories_fit(entries, target_root_len),
        forall|root: Seq<u8>, leaves: Seq<u8>| #[trigger]
            optimized(entries, target_root_len, root, leaves) ==> root.len() <= target_root_len,
{
    if entries.len() == 0 {
        assert(varint(0).len() == 1);
        assert(directory(entries).len() == 1);
    } else {
        let k = lemma_largest_leaf();
        let chunks = leaf_chunks(entries, leaf_size(k));
        lemma_leaf_count(entries.len(), leaf_size(k), 0);
        lemma_leaf_count(entries.len(), leaf_size(k), 1);
        assert(chunks.len() == 1);
        assert(chunks.take(0) =~= Seq::empty());
        assert(root_rows(chunks) =~= seq![root_row(chunks, 0)]);
        lemma_one_row_len(root_row(chunks, 0));
        assert(split_fits(entries, target_root_len, k));
    }
}

/// A root of two rows, which is enough for any number of rows, fits into seventy bytes.
pub(crate) proof fn lemma_long_directories_fit(entries: Seq<Entry>, target_root_len: nat)
    requires
        splittable(entries),
        entries.len() <= usize::MAX,
        40 * entries.len() <= u64::MAX,
        target_root_len >= 70,
    ensures
        directories_fit(entries, target_root_len),
{
    let k = lemma_largest_leaf();
    let size = leaf_size(k);
    let chunks = leaf_chunks(entries, size);
    lemma_leaf_count(entries.len(), size, 2);
    assert(chunks.len() <= 2);
    lemma_leaves_len(entries, size);
    lemma_root_serializable(entries, size);
    lemma_directory_len(root_rows(chunks));
    assert(split_fits(entries, target_root_len, k));
}

/// The rows that a reader finds: those of the root, and those of a leaf where the root points
/// to one.
pub open spec fn rows_found(root: Seq<Entry>, leaves: Seq<u8>) -> Option<Seq<Entry>>
    decreases root.len(),
{
    if root.len() == 0 {
        Some(Seq::empty())
    } else {
        let row = root.last();
        let own = if row.run_length == 0 {
            match read_directory(leaves.subrange(row.offset as int, row.offset + row.length)) {
                Some((rows, _)) => Some(rows),
                None => None,
            }
        } else {
            Some(seq![row])
        };
        match (rows_found(root.drop_last(), leaves), own) {
            (Some(before), Some(rows)) => Some(before + rows),
            _ => None,
        }
    }
}

/// What a reader finds in the bytes of a root and of leaves.
pub open spec fn read_back(root: Seq<u8>, leaves: Seq<u8>) -> Option<Seq<Entry>> {
    match read_directory(root) {
        Some((rows, _)) => rows_found(rows, leaves),
        None => None,
    }
}

proof fn lemma_plain_rows_found(rows: Seq<Entry>, leaves: Seq<u8>)
    requires
        forall|i: int| 0 <= i < rows.len() ==> (#[trigger] rows[i]).run_length > 0,
    ensures
        rows_found(rows, leaves) == Some(rows),
    decreases rows.len(),
{
    if rows.len() > 0 {
        lemma_plain_rows_found(rows.drop_last(), leaves);
        assert(rows.drop_last() + seq![rows.last()] =~= rows);
    } else {
        assert(rows =~= Seq::empty());
    }
}

proof fn lemma_leaf_found(entries: Seq<Entry>, size: nat, k: int)
    requires
        splittable(entries),
        entries.len() <= u64::MAX,
        size > 0,
        leaf_bytes(leaf_chunks(entries, size)).len() <= u64::MAX,
        0 <= k < leaf_count(entries.len(), size),
        directory(leaf_chunks(entries, size)[k]).len() <= u32::MAX,
    ensures
        ({
            let chunks = leaf_chunks(entries, size);
            let row = root_rows(chunks)[k];
            leaf_bytes(chunks).subrange(row.offset as int, row.offset + row.length) == directory(
                chunks[k],
            )
        }),
{
    let chunks = leaf_chunks(entries, size);
    let row = root_rows(chunks)[k];
    lemma_root_serializable(entries, size);
    lemma_leaf_bytes_step(chunks, k);
    lemma_leaf_bytes_prefix(chunks, k + 1);
    let all = leaf_bytes(chunks);
    let upto = leaf_bytes(chunks.take(k + 1));
    assert(all.subrange(row.offset as int, row.offset + row.length) =~= upto.subrange(
        row.offset as int,
        row.offset + row.length,
    ));
    assert(upto.subrange(row.offset as int, row.offset + row.length) =~= directory(chunks[k]));
}

proof fn lemma_leaf_bytes_prefix(chunks: Seq<Seq<Entry>>, k: int)
    requires
        0 <= k <= chunks.len(),
    ensures
        leaf_bytes(chunks.take(k)).len() <= leaf_bytes(chunks).len(),
        leaf_bytes(chunks).take(leaf_bytes(chunks.take(k)).len() as int) == leaf_bytes(
            chunks.take(k),
        ),
    decreases chunks.len(),
{
    if k == chunks.len() {
        assert(chunks.take(k) =~= chunks);
        assert(leaf_bytes(chunks).take(leaf_bytes(chunks).len() as int) =~= leaf_bytes(chunks));
    } else {
        let front = chunks.drop_last();
        lemma_leaf_bytes_prefix(front, k);
        assert(front.take(k) =~= chunks.take(k));
        let m = leaf_bytes(chunks.take(k)).len() as int;
        assert(leaf_bytes(chunks).take(m) =~= leaf_bytes(front).take(m));
    }
}

proof fn lemma_leaf_read(entries: Seq<Entry>, size: nat, k: int)
    requires
        splittable(entries),
        entries.len() <= u64::MAX,
        size > 0,
        leaf_bytes(leaf_chunks(entries, size)).len() <= u64::MAX,
        0 <= k < leaf_count(entries.len(), size),
        directory(leaf_chunks(entries, size)[k]).len() <= u32::MAX,
    ensures
        ({
            let chunks = leaf_chunks(entries, size);
            let row = root_rows(chunks)[k];
            read_directory(
                leaf_bytes(chunks).subrange(row.offset as int, row.offset + row.length),
            ) == Some((chunks[k], directory(chunks[k]).len()))
        }),
{
    let chunk = leaf_chunks(entries, size)[k];
    lemma_chunk(entries, size, k);
    lemma_leaf_found(entries, size, k);
    law_directory_round_trip(chunk, Seq::empty());
    assert(directory(chunk) + Seq::<u8>::empty() =~= directory(chunk));
}

proof fn lemma_rows_found_step(
    root: Seq<Entry>,
    leaves: Seq<u8>,
    before: Seq<Entry>,
    own: Seq<Entry>,
    used: nat,
)
    requires
        root.len() > 0,
        root.last().run_length == 0,
        rows_found(root.drop_last(), leaves) == Some(before),
        read_directory(
            leaves.subrange(
                root.last().offset as int,
                root.last().offset + root.last().length,
            ),
        ) == Some((own, used)),
    ensures
        rows_found(root, leaves) == Some(before + own),
{
}

proof fn lemma_leaves_found(entries: Seq<Entry>, size: nat, k: int)
    requires
        splittable(entries),
        entries.len() <= u64::MAX,
        size > 0,
        leaf_bytes(leaf_chunks(entries, size)).len() <= u64::MAX,
        0 <= k <= leaf_count(entries.len(), size),
        forall|j: int|
            0 <= j < leaf_chunks(entries, size).len() ==> directory(
                #[trigger] leaf_chunks(entries, size)[j],
            ).len() <= u32::MAX,
    ensures
        rows_found(
            root_rows(leaf_chunks(entries, size)).take(k),
            leaf_bytes(leaf_chunks(entries, size)),
        ) == Some(
            entries.take(
                if k * size <= entries.len() {
                    k * size
                } else {
                    entries.len() as int
                },
            ),
        ),
    decreases k,
{
    let chunks = leaf_chunks(entries, size);
    let rows = root_rows(chunks);
    let leaves = leaf_bytes(chunks);
    if k > 0 {
        lemma_leaves_found(entries, size, k - 1);
        lemma_chunk(entries, size, k - 1);
        lemma_leaf_read(entries, size, k - 1);
        assert(rows.take(k).drop_last() =~= rows.take(k - 1));
        lemma_rows_found_step(
            rows.take(k),
            leaves,
            entries.take(
                if (k - 1) * size <= entries.len() {
                    (k - 1) * size
                } else {
                    entries.len() as int
                },
            ),
            chunks[k - 1],
            directory(chunks[k - 1]).len(),
        );
        assert((k - 1) * size == k * size - size) by (nonlinear_arith);
        let a = (k - 1) * size;
        let b = if k * size <= entries.len() {
            k * size
        } else {
            entries.len() as int
        };
        assert(entries.take(a) + chunks[k - 1] =~= entries.take(b));
    } else {
        assert(k * size == 0) by (nonlinear_arith)
            requires
                k == 0,
        ;
        assert(rows.take(0) =~= Seq::empty());
        assert(entries.take(0) =~= Seq::empty());
    }
}

/// Every leaf that `leaves` is made of has a length that a row of the root can hold.
pub open spec fn leaves_measurable(entries: Seq<Entry>, leaves: Seq<u8>) -> bool {
    forall|k: nat, j: int|
        leaves == leaf_bytes(leaf_chunks(entries, leaf_size(k))) && 0 <= j < leaf_chunks(
            entries,
            leaf_size(k),
        ).len() ==> directory(#[trigger] leaf_chunks(entries, leaf_size(k))[j]).len() <= u32::MAX
}

/// Up to some hundred million rows, no leaf is longer than a row can say.
pub proof fn law_leaves_are_measurable(entries: Seq<Entry>, leaves: Seq<u8>)
    requires
        splittable(entries),
        40 * entries.len() <= u32::MAX,
    ensures
        leaves_measurable(entries, leaves),
{
    assert forall|k: nat, j: int|
        leaves == leaf_bytes(leaf_chunks(entries, leaf_size(k))) && 0 <= j < leaf_chunks(
            entries,
            leaf_size(k),
        ).len() implies directory(#[trigger] leaf_chunks(entries, leaf_size(k))[j]).len()
        <= u32::MAX by {
        lemma_leaf_size_grows(k, k);
        lemma_chunk(entries, leaf_size(k), j);
        lemma_directory_len(leaf_chunks(entries, leaf_size(k))[j]);
    }
}

/// What a reader finds in the directories is what was put in, row by row, as long as no row is
/// marked as a leaf and no leaf is longer than a row can say.
pub proof fn law_directories_read_back(
    entries: Seq<Entry>,
    target_root_len: nat,
    root: Seq<u8>,
    leaves: Seq<u8>,
)
    requires
        splittable(entries),
        optimized(entries, target_root_len, root, leaves),
        forall|i: int| 0 <= i < entries.len() ==> (#[trigger] entries[i]).run_length > 0,
        leaves_measurable(entries, leaves),
        leaves.len() <= u64::MAX,
        entries.len() <= u64::MAX,
    ensures
        read_back(root, leaves) == Some(entries),
{
    if directory(entries).len() <= target_root_len {
        law_directory_round_trip(entries, Seq::empty());
        assert(directory(entries) + Seq::<u8>::empty() =~= directory(entries));
        lemma_plain_rows_found(entries, leaves);
    } else {
        let k = choose|k: nat|
            {
                &&& #[trigger] split_fits(entries, target_root_len, k)
                &&& forall|j: nat| j < k ==> !#[trigger] split_fits(entries, target_root_len, j)
                &&& root == root_bytes(entries, leaf_size(k))
                &&& leaves == leaf_bytes(leaf_chunks(entries, leaf_size(k)))
            };
        let size = leaf_size(k);
        lemma_leaf_size_grows(k, k);
        let chunks = leaf_chunks(entries, size);
        let rows = root_rows(chunks);
        let count = chunks.len() as int;
        lemma_root_serializable(entries, size);
        law_directory_round_trip(rows, Seq::empty());
        assert(directory(rows) + Seq::<u8>::empty() =~= directory(rows));
        lemma_leaves_found(entries, size, count);
        lemma_leaf_count(entries.len(), size, count as nat);
        assert(rows.take(count) =~= rows);
        assert(entries.take(entries.len() as int) =~= entries);
    }
}

/// Where the directory in one piece is longer than the target, the rows are cut into leaves of
/// 4096 rows, or of twice as many as often as is needed: the root has one row for each leaf, which
/// holds the first tile number of the leaf and is marked by a run length of zero, and leaves of
/// half the size would have had a root longer than the target.
pub proof fn law_leaves_are_cut_evenly(
    entries: Seq<Entry>,
    target_root_len: nat,
    root: Seq<u8>,
    leaves: Seq<u8>,
)
    requires
        splittable(entries),
        optimized(entries, target_root_len, root, leaves),
        directory(entries).len() > target_root_len,
    ensures
        exists|k: nat, rows: Seq<Entry>|
            {
                let size = 4096 * #[trigger] pow2(k);
                &&& root == #[trigger] directory(rows)
                &&& root.len() <= target_root_len
                &&& rows.len() * size >= entries.len()
                &&& (rows.len() - 1) * size < entries.len()
                &&& forall|j: int|
                    0 <= j < rows.len() ==> (#[trigger] rows[j]).run_length == 0
                        && rows[j].tile_id == entries[j * size].tile_id
                &&& k > 0 ==> root_bytes(entries, 2048 * pow2(k)).len() > target_root_len
            },
{
    let k = choose|k: nat|
        {
            &&& #[trigger] split_fits(entries, target_root_len, k)
            &&& forall|j: nat| j < k ==> !#[trigger] split_fits(entries, target_root_len, j)
            &&& root == root_bytes(entries, leaf_size(k))
            &&& leaves == leaf_bytes(leaf_chunks(entries, leaf_size(k)))
        };
    let size = leaf_size(k);
    lemma_leaf_size_grows(k, k);
    let chunks = leaf_chunks(entries, size);
    let rows = root_rows(chunks);
    lemma_leaf_count(entries.len(), size, rows.len());
    if rows.len() > 0 {
        lemma_leaf_count(entries.len(), size, (rows.len() - 1) as nat);
    } else {
        assert((0 - 1) * size < 0) by (nonlinear_arith)
            requires
                size > 0,
        ;
    }
    assert forall|j: int| 0 <= j < rows.len() implies (#[trigger] rows[j]).run_length == 0
        && rows[j].tile_id == entries[j * size].tile_id by {
        lemma_chunk(entries, size, j);
    }
    if k > 0 {
        let j = (k - 1) as nat;
        lemma_leaf_size_grows(j, k);
        lemma_pow2_unfold(k);
        assert(leaf_size(j) == 2048 * pow2(k));
        assert(!split_fits(entries, target_root_len, j));
    }
    assert(size == 4096 * pow2(k));
    assert(root == directory(rows));
}

/// A directory that is within the target is left in one piece, without leaves.
pub proof fn law_short_directories_are_whole(
    entries: Seq<Entry>,
    target_root_len: nat,
    root: Seq<u8>,
    leaves: Seq<u8>,
)
    requires
        optimized(entries, target_root_len, root, leaves),
        directory(entries).len() <= target_root_len,
    ensures
        root == directory(entries),
        leaves.len() == 0,
{
}

/// Each row of a root says where its leaf starts among the bytes of the leaves and how long it
/// is, and there stands the directory of the rows of that leaf.
pub proof fn law_root_points_to_leaves(entries: Seq<Entry>, size: nat, j: int)
    requires
        splittable(entries),
        entries.len() <= u64::MAX,
        size > 0,
        leaf_bytes(leaf_chunks(entries, size)).len() <= u64::MAX,
        0 <= j,
        j * size < entries.len(),
        directory(
            entries.subrange(
                j * size,
                if (j + 1) * size <= entries.len() {
                    (j + 1) * size
                } else {
                    entries.len() as int
                },
            ),
        ).len() <= u32::MAX,
    ensures
        ({
            let rows = root_rows(leaf_chunks(entries, size));
            let leaves = leaf_bytes(leaf_chunks(entries, size));
            let own = entries.subrange(
                j * size,
                if (j + 1) * size <= entries.len() {
                    (j + 1) * size
                } else {
                    entries.len() as int
                },
            );
            &&& j < rows.len()
            &&& root_bytes(entries, size) == directory(rows)
            &&& rows[j].tile_id == entries[j * size].tile_id
            &&& rows[j].run_length == 0
            &&& rows[j].length == directory(own).len()
            &&& rows[0].offset == 0
            &&& leaves.subrange(rows[j].offset as int, rows[j].offset + rows[j].length)
                == directory(own)
        }),
{
    let chunks = leaf_chunks(entries, size);
    lemma_leaf_count(entries.len(), size, j as nat);
    lemma_chunk(entries, size, j);
    lemma_leaf_found(entries, size, j);
    lemma_leaf_count(entries.len(), size, 0);
    assert(chunks.take(0) =~= Seq::empty());
}

} // verus!
