//! Directories: the tables that say where the data of each tile lies.
use vstd::prelude::*;


use crate::varint::{
    law_varint_round_trip, law_varints_round_trip, lemma_varint_len, lemma_varints_len,
    lemma_varints_join, lemma_varints_push, read_varint, read_varints, varint, varints,
    write_varint,
};

verus! {

/// One row of a directory: a run of tiles, or a leaf directory where the run length is zero.
#[derive(Clone, Copy, Debug, PartialEq, Eq, Structural)]
pub struct Entry {
    pub tile_id: u64,
    pub offset: u64,
    pub length: u32,
    pub run_length: u32,
}

/// The distance of each tile number from the one before it.
pub open spec fn id_column(entries: Seq<Entry>) -> Seq<nat> {
    Seq::new(
        entries.len(),
        |i: int|
            if i == 0 {
                entries[0].tile_id as nat
            } else {
                (entries[i].tile_id - entries[i - 1].tile_id) as nat
            },
    )
}

pub open spec fn run_column(entries: Seq<Entry>) -> Seq<nat> {
    Seq::new(entries.len(), |i: int| entries[i].run_length as nat)
}

pub open spec fn length_column(entries: Seq<Entry>) -> Seq<nat> {
    Seq::new(entries.len(), |i: int| entries[i].length as nat)
}

/// The data of row `i` starts where that of the row before it ends.
pub open spec fn follows(entries: Seq<Entry>, i: int) -> bool {
    i > 0 && entries[i].offset == entries[i - 1].offset + entries[i - 1].length
}

/// Zero where a row follows the one before it, else its offset plus one.
pub open spec fn offset_code(entries: Seq<Entry>, i: int) -> nat {
    if follows(entries, i) {
        0
    } else {
        (entries[i].offset + 1) as nat
    }
}

pub open spec fn offset_column(entries: Seq<Entry>) -> Seq<nat> {
    Seq::new(entries.len(), |i: int| offset_code(entries, i))
}

/// The bytes of a directory: the number of rows, then the rows column by column.
pub open spec fn directory(entries: Seq<Entry>) -> Seq<u8> {
    varint(entries.len()) + varints(id_column(entries)) + varints(run_column(entries)) + varints(
        length_column(entries),
    ) + varints(offset_column(entries))
}

/// The tile numbers never decrease.
pub open spec fn sorted_by_id(entries: Seq<Entry>) -> bool {
    forall|i: int, j: int|
        0 <= i <= j < entries.len() ==> (#[trigger] entries[i]).tile_id <= (
        #[trigger] entries[j]).tile_id
}

/// The rows can be written as a directory: the numbers are in order and every sum that is
/// formed on the way fits 64 bits.
pub open spec fn serializable(entries: Seq<Entry>) -> bool {
    &&& sorted_by_id(entries)
    &&& forall|i: int|
        0 <= i < entries.len() - 1 ==> (#[trigger] entries[i]).offset + entries[i].length
            <= u64::MAX
    &&& forall|i: int| 0 <= i < entries.len() ==> #[trigger] offset_code(entries, i) <= u64::MAX
}

/// The bytes of a directory.
pub fn serialize_directory(entries: &[Entry]) -> (out: Vec<u8>)
    requires
        serializable(entries@),
    ensures
        out@ == directory(entries@),
{
    let mut out: Vec<u8> = Vec::new();
    write_varint(entries.len() as u64, &mut out);
    let ghost rows = entries@;
    let ghost n = rows.len();

    let ghost done = out@;
    let mut last_id: u64 = 0;
    let mut i: usize = 0;
    proof {
        assert(varints(id_column(rows).take(0)) =~= Seq::<u8>::empty());
    }
    while i < entries.len()
        invariant
            i <= n,
            rows == entries@,
            n == rows.len(),
            serializable(rows),
            last_id == (if i == 0 {
                0
            } else {
                rows[i - 1].tile_id
            }),
            out@ == done + varints(id_column(rows).take(i as int)),
        decreases n - i,
    {
        proof {
            lemma_varints_push(id_column(rows).take(i as int), id_column(rows)[i as int]);
            assert(id_column(rows).take(i as int).push(id_column(rows)[i as int]) =~= id_column(
                rows,
            ).take(i + 1));
        }
        write_varint(entries[i].tile_id - last_id, &mut out);
        last_id = entries[i].tile_id;
        i = i + 1;
        assert(out@ =~= done + varints(id_column(rows).take(i as int)));
    }
    assert(id_column(rows).take(n as int) =~= id_column(rows));

    let ghost done = out@;
    let mut i: usize = 0;
    proof {
        assert(varints(run_column(rows).take(0)) =~= Seq::<u8>::empty());
    }
    while i < entries.len()
        invariant
            i <= n,
            rows == entries@,
            n == rows.len(),
            out@ == done + varints(run_column(rows).take(i as int)),
        decreases n - i,
    {
        proof {
            lemma_varints_push(run_column(rows).take(i as int), run_column(rows)[i as int]);
            assert(run_column(rows).take(i as int).push(run_column(rows)[i as int]) =~= run_column(
                rows,
            ).take(i + 1));
        }
        write_varint(entries[i].run_length as u64, &mut out);
        i = i + 1;
        assert(out@ =~= done + varints(run_column(rows).take(i as int)));
    }
    assert(run_column(rows).take(n as int) =~= run_column(rows));

    let ghost done = out@;
    let mut i: usize = 0;
    proof {
        assert(varints(length_column(rows).take(0)) =~= Seq::<u8>::empty());
    }
    while i < entries.len()
        invariant
            i <= n,
            rows == entries@,
            n == rows.len(),
            out@ == done + varints(length_column(rows).take(i as int)),
        decreases n - i,
    {
        proof {
            lemma_varints_push(length_column(rows).take(i as int), length_column(rows)[i as int]);
            assert(length_column(rows).take(i as int).push(length_column(rows)[i as int])
                =~= length_column(rows).take(i + 1));
        }
        write_varint(entries[i].length as u64, &mut out);
        i = i + 1;
        assert(out@ =~= done + varints(length_column(rows).take(i as int)));
    }
    assert(length_column(rows).take(n as int) =~= length_column(rows));

    let ghost done = out@;
    let mut i: usize = 0;
    proof {
        assert(varints(offset_column(rows).take(0)) =~= Seq::<u8>::empty());
    }
    while i < entries.len()
        invariant
            i <= n,
            rows == entries@,
            n == rows.len(),
            serializable(rows),
            out@ == done + varints(offset_column(rows).take(i as int)),
        decreases n - i,
    {
        proof {
            lemma_varints_push(offset_column(rows).take(i as int), offset_column(rows)[i as int]);
            assert(offset_column(rows).take(i as int).push(offset_column(rows)[i as int])
                =~= offset_column(rows).take(i + 1));
            assert(offset_code(rows, i as int) <= u64::MAX);
            if i > 0 {
                assert(rows[i - 1].offset + rows[i - 1].length <= u64::MAX);
            }
        }
        if i > 0 && entries[i].offset == entries[i - 1].offset + entries[i - 1].length as u64 {
            write_varint(0, &mut out);
        } else {
            write_varint(entries[i].offset + 1, &mut out);
        }
        i = i + 1;
        assert(out@ =~= done + varints(offset_column(rows).take(i as int)));
    }
    assert(offset_column(rows).take(n as int) =~= offset_column(rows));
    out
}

/// The tile number of row `i`, from the distances between the rows.
pub open spec fn id_from(ids: Seq<nat>, i: int) -> nat
    decreases i,
{
    if i <= 0 {
        ids[0]
    } else {
        id_from(ids, i - 1) + ids[i]
    }
}

/// The offset of row `i`, from the codes and the lengths of the rows.
pub open spec fn offset_from(codes: Seq<nat>, lengths: Seq<nat>, i: int) -> nat
    decreases i,
{
    if codes[i] == 0 && i > 0 {
        offset_from(codes, lengths, i - 1) + lengths[i - 1]
    } else {
        (codes[i] - 1) as nat
    }
}

/// The rows that the four columns stand for.
pub open spec fn rows_from(
    ids: Seq<nat>,
    runs: Seq<nat>,
    lengths: Seq<nat>,
    codes: Seq<nat>,
) -> Seq<Entry> {
    Seq::new(
        ids.len(),
        |i: int|
            Entry {
                tile_id: id_from(ids, i) as u64,
                offset: offset_from(codes, lengths, i) as u64,
                length: lengths[i] as u32,
                run_length: runs[i] as u32,
            },
    )
}

/// Reads a directory: the rows and the number of bytes that they take.
pub open spec fn read_directory(s: Seq<u8>) -> Option<(Seq<Entry>, nat)> {
    match read_varint(s) {
        None => None,
        Some((n, a)) => match read_varints(s.skip(a as int), n) {
            None => None,
            Some((ids, b)) => match read_varints(s.skip((a + b) as int), n) {
                None => None,
                Some((runs, c)) => match read_varints(s.skip((a + b + c) as int), n) {
                    None => None,
                    Some((lengths, d)) => match read_varints(s.skip((a + b + c + d) as int), n) {
                        None => None,
                        Some((codes, e)) => Some(
                            (rows_from(ids, runs, lengths, codes), a + b + c + d + e),
                        ),
                    },
                },
            },
        },
    }
}

proof fn lemma_ids_restored(entries: Seq<Entry>, i: int)
    requires
        sorted_by_id(entries),
        0 <= i < entries.len(),
    ensures
        id_from(id_column(entries), i) == entries[i].tile_id,
    decreases i,
{
    if i > 0 {
        lemma_ids_restored(entries, i - 1);
        assert(entries[i - 1].tile_id <= entries[i].tile_id);
    }
}

proof fn lemma_offsets_restored(entries: Seq<Entry>, i: int)
    requires
        0 <= i < entries.len(),
    ensures
        offset_from(offset_column(entries), length_column(entries), i) == entries[i].offset,
    decreases i,
{
    if follows(entries, i) {
        lemma_offsets_restored(entries, i - 1);
    }
}

proof fn lemma_pieces(
    p0: Seq<u8>,
    p1: Seq<u8>,
    p2: Seq<u8>,
    p3: Seq<u8>,
    p4: Seq<u8>,
    rest: Seq<u8>,
)
    ensures
        ({
            let s = p0 + p1 + p2 + p3 + p4 + rest;
            &&& s == p0 + (p1 + (p2 + (p3 + (p4 + rest))))
            &&& s.skip(p0.len() as int) == p1 + (p2 + (p3 + (p4 + rest)))
            &&& s.skip((p0.len() + p1.len()) as int) == p2 + (p3 + (p4 + rest))
            &&& s.skip((p0.len() + p1.len() + p2.len()) as int) == p3 + (p4 + rest)
            &&& s.skip((p0.len() + p1.len() + p2.len() + p3.len()) as int) == p4 + rest
        }),
{
    let s = p0 + p1 + p2 + p3 + p4 + rest;
    assert(s =~= p0 + (p1 + (p2 + (p3 + (p4 + rest)))));
    assert(s.skip(p0.len() as int) =~= p1 + (p2 + (p3 + (p4 + rest))));
    assert(s.skip((p0.len() + p1.len()) as int) =~= p2 + (p3 + (p4 + rest)));
    assert(s.skip((p0.len() + p1.len() + p2.len()) as int) =~= p3 + (p4 + rest));
    assert(s.skip((p0.len() + p1.len() + p2.len() + p3.len()) as int) =~= p4 + rest);
}

/// Reading a directory gives back the rows that were written, whatever follows them.
pub proof fn law_directory_round_trip(entries: Seq<Entry>, rest: Seq<u8>)
    requires
        serializable(entries),
    ensures
        read_directory(directory(entries) + rest) == Some((entries, directory(entries).len())),
{
    let n = entries.len();
    let (ids, runs, lengths, codes) = (
        id_column(entries),
        run_column(entries),
        length_column(entries),
        offset_column(entries),
    );
    let (p0, p1, p2, p3, p4) = (
        varint(n),
        varints(ids),
        varints(runs),
        varints(lengths),
        varints(codes),
    );
    lemma_pieces(p0, p1, p2, p3, p4, rest);
    law_varint_round_trip(n, p1 + (p2 + (p3 + (p4 + rest))));
    law_varints_round_trip(ids, p2 + (p3 + (p4 + rest)));
    law_varints_round_trip(runs, p3 + (p4 + rest));
    law_varints_round_trip(lengths, p4 + rest);
    law_varints_round_trip(codes, rest);
    assert forall|i: int| 0 <= i < n implies rows_from(ids, runs, lengths, codes)[i]
        == entries[i] by {
        lemma_ids_restored(entries, i);
        lemma_offsets_restored(entries, i);
    }
    assert(rows_from(ids, runs, lengths, codes) =~= entries);
}

/// A directory takes at most ten bytes, and thirty more for each row.
pub(crate) proof fn lemma_directory_len(entries: Seq<Entry>)
    requires
        serializable(entries),
        entries.len() <= u64::MAX,
    ensures
        1 <= directory(entries).len() <= 10 + 30 * entries.len(),
{
    lemma_varint_len(entries.len());
    assert forall|i: int| 0 <= i < entries.len() implies varint(
        #[trigger] id_column(entries)[i],
    ).len() <= 10 by {
        if i > 0 {
            assert(entries[i - 1].tile_id <= entries[i].tile_id);
        }
        lemma_varint_len(id_column(entries)[i]);
    }
    lemma_varints_len(id_column(entries), 10);
    assert forall|i: int| 0 <= i < entries.len() implies varint(
        #[trigger] run_column(entries)[i],
    ).len() <= 5 by {
        lemma_varint_len(run_column(entries)[i]);
    }
    lemma_varints_len(run_column(entries), 5);
    assert forall|i: int| 0 <= i < entries.len() implies varint(
        #[trigger] length_column(entries)[i],
    ).len() <= 5 by {
        lemma_varint_len(length_column(entries)[i]);
    }
    lemma_varints_len(length_column(entries), 5);
    assert forall|i: int| 0 <= i < entries.len() implies varint(
        #[trigger] offset_column(entries)[i],
    ).len() <= 10 by {
        assert(offset_code(entries, i) <= u64::MAX);
        lemma_varint_len(offset_column(entries)[i]);
    }
    lemma_varints_len(offset_column(entries), 10);
}

/// A directory is a list of integers: the number of rows; how far the number of each tile is from
/// the one before it; the run lengths; the lengths; and for each row zero where its data follow
/// those of the row before it, else its offset plus one.
pub proof fn law_directory_columns(entries: Seq<Entry>)
    requires
        serializable(entries),
    ensures
        ({
            let n = entries.len() as int;
            let read = read_varints(directory(entries), (1 + 4 * n) as nat);
            &&& read matches Some((v, used))
            &&& used == directory(entries).len()
            &&& v.len() == 1 + 4 * n
            &&& v[0] == n
            &&& forall|i: int| #![trigger entries[i]]
                0 <= i < n ==> {
                    &&& v[1 + i] == entries[i].tile_id - (if i == 0 {
                        0
                    } else {
                        entries[i - 1].tile_id as int
                    })
                    &&& v[1 + n + i] == entries[i].run_length
                    &&& v[1 + 2 * n + i] == entries[i].length
                    &&& v[1 + 3 * n + i] == if i > 0 && entries[i].offset == entries[i - 1].offset
                        + entries[i - 1].length {
                        0
                    } else {
                        entries[i].offset + 1
                    }
                }
        }),
{
    let n = entries.len();
    let count = seq![n];
    let (ids, runs, lengths, codes) = (
        id_column(entries),
        run_column(entries),
        length_column(entries),
        offset_column(entries),
    );
    let v = count + ids + runs + lengths + codes;
    lemma_varints_join(count, ids);
    lemma_varints_join(count + ids, runs);
    lemma_varints_join(count + ids + runs, lengths);
    lemma_varints_join(count + ids + runs + lengths, codes);
    assert(count.drop_first() =~= Seq::empty());
    assert(varints(count) =~= varint(n)) by {
        assert(varints(count.drop_first()) =~= Seq::<u8>::empty());
    }
    assert(varints(v) =~= directory(entries));
    law_varints_round_trip(v, Seq::empty());
    assert(varints(v) + Seq::<u8>::empty() =~= varints(v));
    assert forall|i: int| #![trigger entries[i]] 0 <= i < n implies {
        &&& v[1 + i] == entries[i].tile_id - (if i == 0 {
            0
        } else {
            entries[i - 1].tile_id as int
        })
        &&& v[1 + n + i] == entries[i].run_length
        &&& v[1 + 2 * n + i] == entries[i].length
        &&& v[1 + 3 * n + i] == if i > 0 && entries[i].offset == entries[i - 1].offset
            + entries[i - 1].length {
            0
        } else {
            entries[i].offset + 1
        }
    } by {
        if i > 0 {
            assert(entries[i - 1].tile_id <= entries[i].tile_id);
        }
    }
}

} // verus!
