//! Writing an archive: which tiles it holds, and where each of its sections lies.
use vstd::prelude::*;

use crate::directory::{directory, offset_code, sorted_by_id, Entry};
use crate::error::{failed, other, Error};
use crate::header::{fields_of, header_bytes, law_header_round_trip, Header, HEADER_LEN};
use crate::leaves::{
    law_directories_read_back, leaf_bytes, leaf_chunks, leaf_size, leaves_measurable,
    lemma_leaves_len, lemma_long_directories_fit, optimize_directories, optimized, read_back,
    split_fits, splittable,
};
use crate::order::{
    arrange, arranged, is_stable_order, law_stable_order_is_unique, law_stable_sort,
    lemma_order_no_duplicates, precedes, stable_order, stably_sorted,
};

verus! {

/// Longest root directory that is written in one piece.
pub const TARGET_ROOT_LEN: usize = 16_257;

/// Where the sections of an archive lie.
#[derive(Clone, Copy, Debug, PartialEq, Eq, Structural)]
pub struct ArchiveLayout {
    pub root_length: u64,
    pub metadata_offset: u64,
    pub metadata_length: u64,
    pub leaf_directory_offset: u64,
    pub leaf_directory_length: u64,
    pub tile_data_offset: u64,
    pub tile_data_length: u64,
    pub entries_count: u64,
}

/// The directories of an archive, and where its sections lie.
pub struct Directories {
    pub root: Vec<u8>,
    pub leaves: Vec<u8>,
    pub layout: ArchiveLayout,
}

/// The tiles that were put into an archive so far.
pub struct ArchiveWriter {
    pub entries: Vec<Entry>,
    pub tile_data_length: u64,
    /// Bytes that are kept free for the directories and the metadata in front of the tile data.
    pub reserved: u64,
}

/// The data of the two tiles do not overlap.
pub open spec fn apart(a: Entry, b: Entry) -> bool {
    a.offset + a.length <= b.offset || b.offset + b.length <= a.offset
}

/// The key by which the rows of a directory are sorted.
pub open spec fn id_key() -> spec_fn(Entry) -> u128 {
    |e: Entry| e.tile_id as u128
}

impl ArchiveWriter {
    /// Each entry is one tile, its data lie within the tile data, and no two overlap.
    pub open spec fn wf(self) -> bool {
        &&& forall|i: int|
            0 <= i < self.entries@.len() ==> (#[trigger] self.entries@[i]).offset
                + self.entries@[i].length <= self.tile_data_length
        &&& forall|i: int|
            0 <= i < self.entries@.len() ==> (#[trigger] self.entries@[i]).run_length == 1
        &&& forall|i: int, j: int|
            0 <= i < j < self.entries@.len() ==> apart(
                #[trigger] self.entries@[i],
                #[trigger] self.entries@[j],
            )
    }

    /// The sums that are formed when the directories are written fit 64 bits.
    pub open spec fn measurable(self, metadata_len: nat) -> bool {
        &&& forall|i: int|
            0 <= i < self.entries@.len() ==> (#[trigger] self.entries@[i]).offset < u64::MAX
        &&& metadata_len + 40 * self.entries@.len() + 16_384 <= u64::MAX
    }

    /// An archive without tiles, whose directories go in front of the tile data once all tiles
    /// are known.
    pub fn create() -> (r: ArchiveWriter)
        ensures
            r.wf(),
            r.entries@.len() == 0,
            r.tile_data_length == 0,
            r.reserved == 0,
    {
        ArchiveWriter { entries: Vec::new(), tile_data_length: 0, reserved: 0 }
    }

    /// An archive without tiles that keeps the given number of bytes free in front of the tile
    /// data.
    pub fn create_with_reserved_directories(reserved: u64) -> (r: ArchiveWriter)
        ensures
            r.wf(),
            r.entries@.len() == 0,
            r.tile_data_length == 0,
            r.reserved == reserved,
    {
        ArchiveWriter { entries: Vec::new(), tile_data_length: 0, reserved }
    }

    /// Adds a tile whose data follow those of all tiles before it.
    pub fn add_tile(&mut self, tile_id: u64, length: u32)
        requires
            old(self).wf(),
            old(self).tile_data_length + length <= u64::MAX,
        ensures
            final(self).wf(),
            final(self).entries@ == old(self).entries@.push(
                Entry {
                    tile_id,
                    offset: old(self).tile_data_length,
                    length,
                    run_length: 1,
                },
            ),
            final(self).tile_data_length == old(self).tile_data_length + length,
            final(self).reserved == old(self).reserved,
    {
        let offset: u64 = self.tile_data_length;
        self.entries.push(Entry { tile_id, offset, length, run_length: 1 });
        self.tile_data_length = offset + length as u64;
    }

    /// Sorts the tiles by number and writes their directories, with the metadata between the
    /// root and the leaves and the tile data behind all three.
    pub fn finish_directories(&mut self, metadata: &[u8]) -> (r: Directories)
        requires
            old(self).wf(),
            old(self).measurable(metadata@.len()),
        ensures
            final(self).wf(),
            stably_sorted(old(self).entries@, final(self).entries@, id_key()),
            final(self).tile_data_length == old(self).tile_data_length,
            final(self).reserved == old(self).reserved,
            optimized(final(self).entries@, TARGET_ROOT_LEN as nat, r.root@, r.leaves@),
            r.layout == packed_layout(
                r.root@.len(),
                metadata@.len(),
                r.leaves@.len(),
                old(self).tile_data_length,
                old(self).entries@.len(),
            ),
            HEADER_LEN + r.root@.len() + metadata@.len() + r.leaves@.len() <= u64::MAX,
    {
        let (root, leaves) = self.sort_and_write(metadata);
        let metadata_offset: u64 = HEADER_LEN + root.len() as u64;
        let leaf_directory_offset: u64 = metadata_offset + metadata.len() as u64;
        let tile_data_offset: u64 = leaf_directory_offset + leaves.len() as u64;
        let layout = ArchiveLayout {
            root_length: root.len() as u64,
            metadata_offset,
            metadata_length: metadata.len() as u64,
            leaf_directory_offset,
            leaf_directory_length: leaves.len() as u64,
            tile_data_offset,
            tile_data_length: self.tile_data_length,
            entries_count: self.entries.len() as u64,
        };
        Directories { root, leaves, layout }
    }

    /// As [`ArchiveWriter::finish_directories`], but the tile data start behind the bytes that
    /// were kept free; the directories and the metadata must fit into those.
    pub fn finish_reserved_directories(&mut self, metadata: &[u8]) -> (r: Result<
        Directories,
        Error,
    >)
        requires
            old(self).wf(),
            old(self).measurable(metadata@.len()),
            HEADER_LEN + old(self).reserved <= u64::MAX,
        ensures
            final(self).wf(),
            stably_sorted(old(self).entries@, final(self).entries@, id_key()),
            final(self).tile_data_length == old(self).tile_data_length,
            final(self).reserved == old(self).reserved,
            exists|root: Seq<u8>, leaves: Seq<u8>|
                {
                    &&& #[trigger] optimized(
                        final(self).entries@,
                        TARGET_ROOT_LEN as nat,
                        root,
                        leaves,
                    )
                    &&& if root.len() + metadata@.len() + leaves.len() > old(self).reserved {
                        failed(r, "directories and metadata exceed the reserved space"@)
                    } else {
                        &&& r matches Ok(d)
                        &&& d.root@ == root
                        &&& d.leaves@ == leaves
                        &&& d.layout == reserved_layout(
                            root.len(),
                            metadata@.len(),
                            leaves.len(),
                            old(self).reserved,
                            old(self).tile_data_length,
                            old(self).entries@.len(),
                        )
                    }
                },
    {
        let (root, leaves) = self.sort_and_write(metadata);
        let metadata_offset: u64 = HEADER_LEN + root.len() as u64;
        let leaf_directory_offset: u64 = metadata_offset + metadata.len() as u64;
        let end: u64 = leaf_directory_offset + leaves.len() as u64;
        if end - HEADER_LEN > self.reserved {
            return Err(other("directories and metadata exceed the reserved space"));
        }
        let layout = ArchiveLayout {
            root_length: root.len() as u64,
            metadata_offset,
            metadata_length: metadata.len() as u64,
            leaf_directory_offset,
            leaf_directory_length: leaves.len() as u64,
            tile_data_offset: HEADER_LEN + self.reserved,
            tile_data_length: self.tile_data_length,
            entries_count: self.entries.len() as u64,
        };
        Ok(Directories { root, leaves, layout })
    }

    fn sort_and_write(&mut self, metadata: &[u8]) -> (r: (Vec<u8>, Vec<u8>))
        requires
            old(self).wf(),
            old(self).measurable(metadata@.len()),
        ensures
            final(self).wf(),
            stably_sorted(old(self).entries@, final(self).entries@, id_key()),
            final(self).entries@.len() == old(self).entries@.len(),
            final(self).tile_data_length == old(self).tile_data_length,
            final(self).reserved == old(self).reserved,
            optimized(final(self).entries@, TARGET_ROOT_LEN as nat, r.0@, r.1@),
            HEADER_LEN + r.0@.len() + metadata@.len() + r.1@.len() <= u64::MAX,
    {
        let mut taken: Vec<Entry> = Vec::new();
        std::mem::swap(&mut taken, &mut self.entries);
        let ghost before = taken@;
        let sorted = sort_entries(taken);
        proof {
            lemma_sorted_entries(before, sorted@, self.tile_data_length);
        }
        self.entries = sorted;
        let ghost rows = self.entries@;
        let _count: usize = self.entries.len();
        proof {
            lemma_long_directories_fit(rows, TARGET_ROOT_LEN as nat);
        }
        let (root, leaves) = optimize_directories(self.entries.as_slice(), TARGET_ROOT_LEN);
        proof {
            lemma_optimized_len(rows, TARGET_ROOT_LEN as nat, root@, leaves@);
        }
        (root, leaves)
    }
}

/// The sections one after the other behind the header.
pub open spec fn packed_layout(
    root_len: nat,
    metadata_len: nat,
    leaves_len: nat,
    tile_data_length: u64,
    entries_count: nat,
) -> ArchiveLayout {
    ArchiveLayout {
        root_length: root_len as u64,
        metadata_offset: (HEADER_LEN + root_len) as u64,
        metadata_length: metadata_len as u64,
        leaf_directory_offset: (HEADER_LEN + root_len + metadata_len) as u64,
        leaf_directory_length: leaves_len as u64,
        tile_data_offset: (HEADER_LEN + root_len + metadata_len + leaves_len) as u64,
        tile_data_length,
        entries_count: entries_count as u64,
    }
}

/// The sections one after the other behind the header, but the tile data behind the bytes that
/// were kept free.
pub open spec fn reserved_layout(
    root_len: nat,
    metadata_len: nat,
    leaves_len: nat,
    reserved: u64,
    tile_data_length: u64,
    entries_count: nat,
) -> ArchiveLayout {
    ArchiveLayout {
        tile_data_offset: (HEADER_LEN + reserved) as u64,
        ..packed_layout(root_len, metadata_len, leaves_len, tile_data_length, entries_count)
    }
}

/// The sections lie one behind the other and do not overlap.
pub open spec fn sections_in_order(layout: ArchiveLayout) -> bool {
    &&& HEADER_LEN + layout.root_length == layout.metadata_offset
    &&& layout.metadata_offset + layout.metadata_length == layout.leaf_directory_offset
    &&& layout.leaf_directory_offset + layout.leaf_directory_length <= layout.tile_data_offset
}

/// In a packed archive the sections follow each other without gaps; where space was kept free,
/// there is a gap at most in front of the tile data.
pub proof fn law_sections_in_order(
    root_len: nat,
    metadata_len: nat,
    leaves_len: nat,
    reserved: u64,
    tile_data_length: u64,
    entries_count: nat,
)
    requires
        HEADER_LEN + root_len + metadata_len + leaves_len <= u64::MAX,
        HEADER_LEN + reserved <= u64::MAX,
    ensures
        ({
            let packed = packed_layout(
                root_len,
                metadata_len,
                leaves_len,
                tile_data_length,
                entries_count,
            );
            &&& sections_in_order(packed)
            &&& packed.leaf_directory_offset + packed.leaf_directory_length
                == packed.tile_data_offset
        }),
        root_len + metadata_len + leaves_len <= reserved ==> sections_in_order(
            reserved_layout(
                root_len,
                metadata_len,
                leaves_len,
                reserved,
                tile_data_length,
                entries_count,
            ),
        ),
{
}

/// The bytes of a packed archive.
pub open spec fn packed_file(
    header: Seq<u8>,
    root: Seq<u8>,
    metadata: Seq<u8>,
    leaves: Seq<u8>,
    data: Seq<u8>,
) -> Seq<u8> {
    header + root + metadata + leaves + data
}

/// The bytes of an archive that kept space free, `gap` of which was not used.
pub open spec fn reserved_file(
    header: Seq<u8>,
    root: Seq<u8>,
    metadata: Seq<u8>,
    leaves: Seq<u8>,
    gap: Seq<u8>,
    data: Seq<u8>,
) -> Seq<u8> {
    header + root + metadata + leaves + gap + data
}

/// Every section stands in the file where the header says.
pub open spec fn sections_found(
    file: Seq<u8>,
    h: Header,
    root: Seq<u8>,
    metadata: Seq<u8>,
    leaves: Seq<u8>,
    data: Seq<u8>,
) -> bool {
    &&& file.subrange(h.root_offset as int, h.root_offset + h.root_length) == root
    &&& file.subrange(h.metadata_offset as int, h.metadata_offset + h.metadata_length) == metadata
    &&& file.subrange(
        h.leaf_directory_offset as int,
        h.leaf_directory_offset + h.leaf_directory_length,
    ) == leaves
    &&& file.subrange(h.tile_data_offset as int, h.tile_data_offset + h.tile_data_length) == data
}

/// The sections stand in a file where a header says that has them one behind the other, with
/// `gap` in front of the tile data.
proof fn lemma_sections_found(
    h: Header,
    root: Seq<u8>,
    metadata: Seq<u8>,
    leaves: Seq<u8>,
    gap: Seq<u8>,
    data: Seq<u8>,
)
    requires
        h.root_offset == HEADER_LEN,
        h.root_length == root.len(),
        h.metadata_offset == HEADER_LEN + root.len(),
        h.metadata_length == metadata.len(),
        h.leaf_directory_offset == HEADER_LEN + root.len() + metadata.len(),
        h.leaf_directory_length == leaves.len(),
        h.tile_data_offset == HEADER_LEN + root.len() + metadata.len() + leaves.len() + gap.len(),
        h.tile_data_length == data.len(),
    ensures
        ({
            let file = reserved_file(header_bytes(h), root, metadata, leaves, gap, data);
            &&& fields_of(file.take(HEADER_LEN as int)) == h
            &&& sections_found(file, h, root, metadata, leaves, data)
        }),
{
    law_header_round_trip(h);
    lemma_pieces_of_file(header_bytes(h), root, metadata, leaves, gap, data);
}

proof fn lemma_pieces_of_file(
    header: Seq<u8>,
    root: Seq<u8>,
    metadata: Seq<u8>,
    leaves: Seq<u8>,
    gap: Seq<u8>,
    data: Seq<u8>,
)
    ensures
        ({
            let file = reserved_file(header, root, metadata, leaves, gap, data);
            let a = header.len() as int;
            let b = a + root.len();
            let c = b + metadata.len();
            let d = c + leaves.len();
            let e = d + gap.len();
            &&& file.take(a) == header
            &&& file.subrange(a, b) == root
            &&& file.subrange(b, c) == metadata
            &&& file.subrange(c, d) == leaves
            &&& file.subrange(e, e + data.len()) == data
        }),
{
    let file = reserved_file(header, root, metadata, leaves, gap, data);
    let a = header.len() as int;
    let b = a + root.len();
    let c = b + metadata.len();
    let d = c + leaves.len();
    let e = d + gap.len();
    assert(file.take(a) =~= header);
    assert(file.subrange(a, b) =~= root);
    assert(file.subrange(b, c) =~= metadata);
    assert(file.subrange(c, d) =~= leaves);
    assert(file.subrange(e, e + data.len()) =~= data);
}

/// The header of an archive, read from its first bytes, points to the sections of the file.
pub proof fn law_header_points_to_sections(
    root: Seq<u8>,
    metadata: Seq<u8>,
    leaves: Seq<u8>,
    gap: Seq<u8>,
    data: Seq<u8>,
    entries_count: nat,
    tile_type: u8,
    min_zoom: u8,
    max_zoom: u8,
    area: Area,
)
    requires
        HEADER_LEN + root.len() + metadata.len() + leaves.len() + gap.len() <= u64::MAX,
        data.len() <= u64::MAX,
    ensures
        ({
            let layout = packed_layout(
                root.len(),
                metadata.len(),
                leaves.len(),
                data.len() as u64,
                entries_count,
            );
            let h = archive_header(layout, tile_type, min_zoom, max_zoom, area);
            let file = packed_file(header_bytes(h), root, metadata, leaves, data);
            &&& fields_of(file.take(HEADER_LEN as int)) == h
            &&& sections_found(file, h, root, metadata, leaves, data)
        }),
        ({
            let layout = reserved_layout(
                root.len(),
                metadata.len(),
                leaves.len(),
                (root.len() + metadata.len() + leaves.len() + gap.len()) as u64,
                data.len() as u64,
                entries_count,
            );
            let h = archive_header(layout, tile_type, min_zoom, max_zoom, area);
            let file = reserved_file(header_bytes(h), root, metadata, leaves, gap, data);
            &&& fields_of(file.take(HEADER_LEN as int)) == h
            &&& sections_found(file, h, root, metadata, leaves, data)
        }),
{
    let layout = packed_layout(
        root.len(),
        metadata.len(),
        leaves.len(),
        data.len() as u64,
        entries_count,
    );
    let h = archive_header(layout, tile_type, min_zoom, max_zoom, area);
    let none = Seq::<u8>::empty();
    lemma_sections_found(h, root, metadata, leaves, none, data);
    assert(reserved_file(header_bytes(h), root, metadata, leaves, none, data) =~= packed_file(
        header_bytes(h),
        root,
        metadata,
        leaves,
        data,
    ));
    let layout = reserved_layout(
        root.len(),
        metadata.len(),
        leaves.len(),
        (root.len() + metadata.len() + leaves.len() + gap.len()) as u64,
        data.len() as u64,
        entries_count,
    );
    let h = archive_header(layout, tile_type, min_zoom, max_zoom, area);
    lemma_sections_found(h, root, metadata, leaves, gap, data);
}

fn sort_entries(entries: Vec<Entry>) -> (r: Vec<Entry>)
    ensures
        stably_sorted(entries@, r@, id_key()),
{
    let mut keys: Vec<u128> = Vec::new();
    let mut i: usize = 0;
    while i < entries.len()
        invariant
            i <= entries@.len(),
            keys@ == entries@.map_values(id_key()).take(i as int),
        decreases entries@.len() - i,
    {
        keys.push(entries[i].tile_id as u128);
        i = i + 1;
        assert(keys@ =~= entries@.map_values(id_key()).take(i as int));
    }
    assert(keys@ =~= entries@.map_values(id_key()));
    let p = stable_order(&keys);
    proof {
        lemma_order_no_duplicates(keys@, p@);
    }
    arrange(entries, &p)
}

proof fn lemma_sorted_entries(before: Seq<Entry>, after: Seq<Entry>, total: u64)
    requires
        stably_sorted(before, after, id_key()),
        forall|i: int|
            0 <= i < before.len() ==> (#[trigger] before[i]).offset + before[i].length <= total,
        forall|i: int| 0 <= i < before.len() ==> (#[trigger] before[i]).run_length == 1,
        forall|i: int| 0 <= i < before.len() ==> (#[trigger] before[i]).offset < u64::MAX,
        forall|i: int, j: int|
            0 <= i < j < before.len() ==> apart(#[trigger] before[i], #[trigger] before[j]),
    ensures
        after.len() == before.len(),
        forall|i: int|
            0 <= i < after.len() ==> (#[trigger] after[i]).offset + after[i].length <= total,
        forall|i: int| 0 <= i < after.len() ==> (#[trigger] after[i]).run_length == 1,
        forall|i: int, j: int|
            0 <= i < j < after.len() ==> apart(#[trigger] after[i], #[trigger] after[j]),
        splittable(after),
{
    let keys = before.map_values(id_key());
    let p = choose|p: Seq<usize>|
        #[trigger] is_stable_order(before.map_values(id_key()), p) && after == arranged(before, p);
    lemma_order_no_duplicates(keys, p);
    assert forall|i: int| 0 <= i < after.len() implies #[trigger] after[i] == before[p[i] as int]
        && p[i] < before.len() by {}
    assert forall|i: int, j: int| 0 <= i < j < after.len() implies apart(
        #[trigger] after[i],
        #[trigger] after[j],
    ) by {
        let a = p[i] as int;
        let b = p[j] as int;
        assert(a != b);
        if a < b {
            assert(apart(before[a], before[b]));
        } else {
            assert(apart(before[b], before[a]));
        }
    }
    assert(sorted_by_id(after)) by {
        assert forall|i: int, j: int| 0 <= i <= j < after.len() implies (
        #[trigger] after[i]).tile_id <= (#[trigger] after[j]).tile_id by {
            if i < j {
                assert(precedes(keys, p[i], p[j]));
            }
        }
    }
    assert forall|i: int| 0 <= i < after.len() implies #[trigger] offset_code(after, i)
        <= u64::MAX by {
        assert(after[i].offset < u64::MAX);
    }
}

proof fn lemma_optimized_len(
    entries: Seq<Entry>,
    target: nat,
    root: Seq<u8>,
    leaves: Seq<u8>,
)
    requires
        splittable(entries),
        entries.len() <= u64::MAX,
        optimized(entries, target, root, leaves),
    ensures
        root.len() <= target,
        leaves.len() <= 40 * entries.len(),
{
    if leaves.len() > 0 {
        let k = choose|k: nat|
            {
                &&& #[trigger] split_fits(entries, target, k)
                &&& forall|j: nat| j < k ==> !#[trigger] split_fits(entries, target, j)
                &&& root == crate::leaves::root_bytes(entries, leaf_size(k))
                &&& leaves == leaf_bytes(leaf_chunks(entries, leaf_size(k)))
            };
        vstd::arithmetic::power2::lemma_pow2_pos(k);
        lemma_leaves_len(entries, leaf_size(k));
    }
}

/// An area of the globe and its centre, in ten millionths of a degree.
#[derive(Clone, Copy, Debug, PartialEq, Eq, Structural)]
pub struct Area {
    pub min_lon_e7: i32,
    pub min_lat_e7: i32,
    pub max_lon_e7: i32,
    pub max_lat_e7: i32,
    pub center_lon_e7: i32,
    pub center_lat_e7: i32,
}

impl Header {
    /// The header of an archive of uncompressed raster tiles, each stored once.
    pub fn for_archive(
        layout: &ArchiveLayout,
        tile_type: u8,
        min_zoom: u8,
        max_zoom: u8,
        area: &Area,
    ) -> (r: Header)
        ensures
            r == archive_header(*layout, tile_type, min_zoom, max_zoom, *area),
            r.min_lon_e7 == area.min_lon_e7 && r.min_lat_e7 == area.min_lat_e7,
            r.max_lon_e7 == area.max_lon_e7 && r.max_lat_e7 == area.max_lat_e7,
            r.center_lon_e7 == area.center_lon_e7 && r.center_lat_e7 == area.center_lat_e7,
            r.min_zoom == min_zoom && r.max_zoom == max_zoom && r.center_zoom == min_zoom,
            r.tile_type == tile_type,
    {
        Header {
            root_offset: HEADER_LEN,
            root_length: layout.root_length,
            metadata_offset: layout.metadata_offset,
            metadata_length: layout.metadata_length,
            leaf_directory_offset: layout.leaf_directory_offset,
            leaf_directory_length: layout.leaf_directory_length,
            tile_data_offset: layout.tile_data_offset,
            tile_data_length: layout.tile_data_length,
            addressed_tiles_count: layout.entries_count,
            tile_entries_count: layout.entries_count,
            tile_contents_count: layout.entries_count,
            clustered: true,
            internal_compression: 1,
            tile_compression: 1,
            tile_type,
            min_zoom,
            max_zoom,
            min_lon_e7: area.min_lon_e7,
            min_lat_e7: area.min_lat_e7,
            max_lon_e7: area.max_lon_e7,
            max_lat_e7: area.max_lat_e7,
            center_zoom: min_zoom,
            center_lon_e7: area.center_lon_e7,
            center_lat_e7: area.center_lat_e7,
        }
    }
}

/// The header that points to the sections of a layout.
pub open spec fn archive_header(
    layout: ArchiveLayout,
    tile_type: u8,
    min_zoom: u8,
    max_zoom: u8,
    area: Area,
) -> Header {
    Header {
        root_offset: HEADER_LEN,
        root_length: layout.root_length,
        metadata_offset: layout.metadata_offset,
        metadata_length: layout.metadata_length,
        leaf_directory_offset: layout.leaf_directory_offset,
        leaf_directory_length: layout.leaf_directory_length,
        tile_data_offset: layout.tile_data_offset,
        tile_data_length: layout.tile_data_length,
        addressed_tiles_count: layout.entries_count,
        tile_entries_count: layout.entries_count,
        tile_contents_count: layout.entries_count,
        clustered: true,
        internal_compression: 1,
        tile_compression: 1,
        tile_type,
        min_zoom,
        max_zoom,
        min_lon_e7: area.min_lon_e7,
        min_lat_e7: area.min_lat_e7,
        max_lon_e7: area.max_lon_e7,
        max_lat_e7: area.max_lat_e7,
        center_zoom: min_zoom,
        center_lon_e7: area.center_lon_e7,
        center_lat_e7: area.center_lat_e7,
    }
}

/// Bytes of the data of tiles, of each of which the number and the length are given.
pub open spec fn total_length(tiles: Seq<(u64, u32)>) -> nat
    decreases tiles.len(),
{
    if tiles.len() == 0 {
        0
    } else {
        total_length(tiles.drop_last()) + tiles.last().1 as nat
    }
}

/// The tiles at the front are no longer than all of them.
pub(crate) proof fn lemma_total_grows(a: Seq<(u64, u32)>, b: Seq<(u64, u32)>)
    ensures
        total_length(a) <= total_length(a + b),
    decreases b.len(),
{
    if b.len() == 0 {
        assert(a + b =~= a);
    } else {
        lemma_total_grows(a, b.drop_last());
        assert((a + b).drop_last() =~= a + b.drop_last());
    }
}

/// The length of the first tile and of the others.
pub(crate) proof fn lemma_total_first(tiles: Seq<(u64, u32)>)
    requires
        tiles.len() > 0,
    ensures
        total_length(tiles) == tiles[0].1 + total_length(tiles.drop_first()),
    decreases tiles.len(),
{
    let rest = tiles.drop_first();
    if rest.len() > 0 {
        lemma_total_first(tiles.drop_last());
        assert(tiles.drop_last().drop_first() =~= rest.drop_last());
    } else {
        assert(tiles.drop_last() =~= rest);
    }
}

/// The rows for tiles that were added one after the other.
pub open spec fn rows_of(tiles: Seq<(u64, u32)>) -> Seq<Entry>
    decreases tiles.len(),
{
    if tiles.len() == 0 {
        Seq::empty()
    } else {
        rows_of(tiles.drop_last()).push(
            Entry {
                tile_id: tiles.last().0,
                offset: total_length(tiles.drop_last()) as u64,
                length: tiles.last().1,
                run_length: 1,
            },
        )
    }
}

/// Number and length of each of some tiles.
pub open spec fn lengths_of(tiles: Seq<(u64, Seq<u8>)>) -> Seq<(u64, u32)> {
    tiles.map_values(|t: (u64, Seq<u8>)| (t.0, t.1.len() as u32))
}

/// The data of tiles, one after the other.
pub open spec fn data_of(tiles: Seq<(u64, Seq<u8>)>) -> Seq<u8>
    decreases tiles.len(),
{
    if tiles.len() == 0 {
        Seq::empty()
    } else {
        data_of(tiles.drop_last()) + tiles.last().1
    }
}

/// The data that a row points to.
pub open spec fn data_at(data: Seq<u8>, row: Entry) -> Seq<u8> {
    data.subrange(row.offset as int, row.offset + row.length)
}

/// Every tile is short enough for a directory, and so are all of them together.
pub open spec fn storable(tiles: Seq<(u64, Seq<u8>)>) -> bool {
    &&& forall|i: int| 0 <= i < tiles.len() ==> (#[trigger] tiles[i]).1.len() <= u32::MAX
    &&& data_of(tiles).len() <= u64::MAX
}

/// The row of each tile points to its data.
pub proof fn law_rows_point_to_data(tiles: Seq<(u64, Seq<u8>)>)
    requires
        storable(tiles),
    ensures
        total_length(lengths_of(tiles)) == data_of(tiles).len(),
        rows_of(lengths_of(tiles)).len() == tiles.len(),
        forall|i: int|
            0 <= i < tiles.len() ==> {
                let row = #[trigger] rows_of(lengths_of(tiles))[i];
                &&& row.tile_id == tiles[i].0
                &&& row.offset + row.length <= data_of(tiles).len()
                &&& data_at(data_of(tiles), row) == tiles[i].1
            },
    decreases tiles.len(),
{
    if tiles.len() > 0 {
        let rest = tiles.drop_last();
        let last = tiles.last();
        let rows = rows_of(lengths_of(tiles));
        assert(lengths_of(tiles).drop_last() =~= lengths_of(rest));
        assert forall|i: int| 0 <= i < rest.len() implies (#[trigger] rest[i]).1.len()
            <= u32::MAX by {
            assert(rest[i] == tiles[i]);
        }
        law_rows_point_to_data(rest);
        assert(last == tiles[tiles.len() - 1]);
        assert forall|i: int| 0 <= i < tiles.len() implies {
            let row = #[trigger] rows[i];
            &&& row.tile_id == tiles[i].0
            &&& row.offset + row.length <= data_of(tiles).len()
            &&& data_at(data_of(tiles), row) == tiles[i].1
        } by {
            if i < rest.len() {
                let row = rows_of(lengths_of(rest))[i];
                assert(rows[i] == row);
                assert(data_at(data_of(tiles), row) =~= data_at(data_of(rest), row));
            } else {
                assert(data_at(data_of(tiles), rows[i]) =~= last.1);
            }
        }
    }
}

/// A finished archive gives back what was put in: a reader of its directories finds the rows of
/// all tiles, and the row of each tile points to the data of that tile. This holds for any
/// archive whose leaves are not longer than a row can say.
pub proof fn law_archive_round_trip(
    tiles: Seq<(u64, Seq<u8>)>,
    sorted: Seq<Entry>,
    root: Seq<u8>,
    leaves: Seq<u8>,
)
    requires
        storable(tiles),
        data_of(tiles).len() < u64::MAX,
        tiles.len() <= usize::MAX,
        40 * tiles.len() <= u64::MAX,
        stably_sorted(rows_of(lengths_of(tiles)), sorted, id_key()),
        optimized(sorted, TARGET_ROOT_LEN as nat, root, leaves),
        leaves_measurable(sorted, leaves),
    ensures
        read_back(root, leaves) == Some(sorted),
        sorted.len() == tiles.len(),
        forall|i: int|
            0 <= i < tiles.len() ==> exists|j: int|
                {
                    &&& 0 <= j < sorted.len()
                    &&& (#[trigger] sorted[j]).tile_id == (#[trigger] tiles[i]).0
                    &&& data_at(data_of(tiles), sorted[j]) == tiles[i].1
                },
{
    let rows = rows_of(lengths_of(tiles));
    law_rows_point_to_data(tiles);
    lemma_rows_follow(lengths_of(tiles));
    assert forall|i: int| 0 <= i < rows.len() implies (#[trigger] rows[i]).offset
        < u64::MAX by {
        assert(rows[i].offset + rows[i].length <= data_of(tiles).len());
    }
    lemma_sorted_entries(rows, sorted, data_of(tiles).len() as u64);
    lemma_optimized_len(sorted, TARGET_ROOT_LEN as nat, root, leaves);
    law_directories_read_back(sorted, TARGET_ROOT_LEN as nat, root, leaves);
    let p = choose|p: Seq<usize>|
        #[trigger] is_stable_order(rows.map_values(id_key()), p) && sorted == arranged(rows, p);
    assert forall|i: int| 0 <= i < tiles.len() implies exists|j: int|
        {
            &&& 0 <= j < sorted.len()
            &&& (#[trigger] sorted[j]).tile_id == (#[trigger] tiles[i]).0
            &&& data_at(data_of(tiles), sorted[j]) == tiles[i].1
        } by {
        assert(p.contains(i as usize));
        let j = choose|j: int| 0 <= j < p.len() && p[j] == i as usize;
        assert(sorted[j] == rows[i]);
        assert(data_at(data_of(tiles), rows[i]) == tiles[i].1);
    }
}

proof fn lemma_rows_follow(tiles: Seq<(u64, u32)>)
    requires
        total_length(tiles) <= u64::MAX,
    ensures
        rows_of(tiles).len() == tiles.len(),
        forall|i: int|
            0 <= i < tiles.len() ==> (#[trigger] rows_of(tiles)[i]).tile_id == tiles[i].0
                && rows_of(tiles)[i].run_length == 1,
        forall|i: int|
            0 <= i < tiles.len() ==> (#[trigger] rows_of(tiles)[i]).offset + rows_of(
                tiles,
            )[i].length <= total_length(tiles),
        forall|i: int, j: int|
            0 <= i < j < tiles.len() ==> (#[trigger] rows_of(tiles)[i]).offset + rows_of(
                tiles,
            )[i].length <= (#[trigger] rows_of(tiles)[j]).offset,
    decreases tiles.len(),
{
    if tiles.len() > 0 {
        lemma_rows_follow(tiles.drop_last());
    }
}

/// Where tiles are added in the order of their numbers, sorting changes nothing, and the data of
/// the tiles lie in the order of the directory, as the header says of every archive.
pub proof fn law_archive_is_clustered(tiles: Seq<(u64, u32)>, sorted: Seq<Entry>)
    requires
        total_length(tiles) <= u64::MAX,
        tiles.len() <= usize::MAX,
        forall|i: int, j: int|
            0 <= i <= j < tiles.len() ==> (#[trigger] tiles[i]).0 <= (#[trigger] tiles[j]).0,
        stably_sorted(rows_of(tiles), sorted, id_key()),
    ensures
        sorted == rows_of(tiles),
        forall|i: int, j: int|
            0 <= i < j < sorted.len() ==> (#[trigger] sorted[i]).offset + sorted[i].length <= (
            #[trigger] sorted[j]).offset,
{
    let rows = rows_of(tiles);
    let keys = rows.map_values(id_key());
    lemma_rows_follow(tiles);
    let p = choose|p: Seq<usize>|
        #[trigger] is_stable_order(rows.map_values(id_key()), p) && sorted == arranged(rows, p);
    let same = Seq::new(rows.len(), |i: int| i as usize);
    assert forall|k: usize| k < keys.len() implies #[trigger] same.contains(k) by {
        assert(same[k as int] == k);
    }
    assert forall|i: int, j: int| 0 <= i < j < same.len() implies precedes(
        keys,
        #[trigger] same[i],
        #[trigger] same[j],
    ) by {
        assert(tiles[i].0 <= tiles[j].0);
    }
    assert(is_stable_order(keys, same));
    law_stable_order_is_unique(keys, p, same);
    assert(sorted =~= rows);
}

/// The header of an archive keeps the area, the zoom levels and the kind of tiles that it is
/// given, and counts every entry as a tile of its own. A centre within the bounds stays within
/// them.
pub proof fn law_header_keeps_area(
    layout: ArchiveLayout,
    tile_type: u8,
    min_zoom: u8,
    max_zoom: u8,
    area: Area,
)
    ensures
        ({
            let h = archive_header(layout, tile_type, min_zoom, max_zoom, area);
            &&& h.min_lon_e7 == area.min_lon_e7
            &&& h.min_lat_e7 == area.min_lat_e7
            &&& h.max_lon_e7 == area.max_lon_e7
            &&& h.max_lat_e7 == area.max_lat_e7
            &&& h.center_lon_e7 == area.center_lon_e7
            &&& h.center_lat_e7 == area.center_lat_e7
            &&& area.min_lon_e7 <= area.center_lon_e7 <= area.max_lon_e7 ==> h.min_lon_e7
                <= h.center_lon_e7 <= h.max_lon_e7
            &&& area.min_lat_e7 <= area.center_lat_e7 <= area.max_lat_e7 ==> h.min_lat_e7
                <= h.center_lat_e7 <= h.max_lat_e7
            &&& h.min_zoom == min_zoom
            &&& h.max_zoom == max_zoom
            &&& h.center_zoom == min_zoom
            &&& h.tile_type == tile_type
            &&& h.internal_compression == 1
            &&& h.tile_compression == 1
            &&& h.clustered
            &&& h.addressed_tiles_count == layout.entries_count
            &&& h.tile_entries_count == layout.entries_count
            &&& h.tile_contents_count == layout.entries_count
        }),
{
}

/// The root stands behind the 127 bytes of the header, the metadata behind the root, and the
/// leaves behind the metadata. The tile data stand behind the leaves, or behind the bytes that
/// were kept free after the header. All lengths are those of the sections.
pub proof fn law_sections_stand_in_place(
    root_len: nat,
    metadata_len: nat,
    leaves_len: nat,
    reserved: u64,
    tile_data_length: u64,
    entries_count: nat,
    area: Area,
)
    requires
        127 + root_len + metadata_len + leaves_len <= u64::MAX,
        127 + reserved <= u64::MAX,
        entries_count <= u64::MAX,
    ensures
        ({
            let packed = packed_layout(
                root_len,
                metadata_len,
                leaves_len,
                tile_data_length,
                entries_count,
            );
            let h = archive_header(packed, 0, 0, 0, area);
            &&& h.root_offset == 127
            &&& h.root_length == root_len
            &&& h.metadata_offset == 127 + root_len
            &&& h.metadata_length == metadata_len
            &&& h.leaf_directory_offset == 127 + root_len + metadata_len
            &&& h.leaf_directory_length == leaves_len
            &&& h.tile_data_offset == 127 + root_len + metadata_len + leaves_len
            &&& h.tile_data_length == tile_data_length
            &&& packed.entries_count == entries_count
            &&& h.addressed_tiles_count == entries_count
        }),
        ({
            let kept = reserved_layout(
                root_len,
                metadata_len,
                leaves_len,
                reserved,
                tile_data_length,
                entries_count,
            );
            let h = archive_header(kept, 0, 0, 0, area);
            &&& h.root_offset == 127
            &&& h.root_length == root_len
            &&& h.metadata_offset == 127 + root_len
            &&& h.metadata_length == metadata_len
            &&& h.leaf_directory_offset == 127 + root_len + metadata_len
            &&& h.leaf_directory_length == leaves_len
            &&& h.tile_data_offset == 127 + reserved
            &&& h.tile_data_length == tile_data_length
            &&& kept.entries_count == entries_count
            &&& h.addressed_tiles_count == entries_count
        }),
{
}

/// The header and the root together fit into the first 16 KiB of an archive.
pub proof fn law_root_lies_in_front(entries: Seq<Entry>, root: Seq<u8>, leaves: Seq<u8>)
    requires
        optimized(entries, TARGET_ROOT_LEN as nat, root, leaves),
    ensures
        127 + root.len() <= 16_384,
        127 + directory(entries).len() <= 16_384 ==> root == directory(entries) && leaves.len()
            == 0,
{
}

/// The entries of a finished archive are those that were added, in the order of their tile
/// numbers.
pub proof fn law_entries_are_sorted(added: Seq<Entry>, sorted: Seq<Entry>)
    requires
        stably_sorted(added, sorted, id_key()),
        added.len() <= usize::MAX,
    ensures
        sorted.to_multiset() == added.to_multiset(),
        forall|i: int, j: int|
            0 <= i <= j < sorted.len() ==> (#[trigger] sorted[i]).tile_id <= (
            #[trigger] sorted[j]).tile_id,
{
    law_stable_sort(added, sorted, id_key());
    assert forall|i: int, j: int| 0 <= i <= j < sorted.len() implies (
    #[trigger] sorted[i]).tile_id <= (#[trigger] sorted[j]).tile_id by {
        assert(id_key()(sorted[i]) <= id_key()(sorted[j]));
    }
}

/// The row of each tile that is added holds its number and its length, says that it is one tile,
/// and starts where the data of the tiles before it end.
pub proof fn law_rows_are_single_tiles(tiles: Seq<(u64, u32)>, next: (u64, u32))
    requires
        total_length(tiles) <= u64::MAX,
    ensures
        rows_of(Seq::empty()).len() == 0,
        total_length(Seq::empty()) == 0,
        total_length(tiles.push(next)) == total_length(tiles) + next.1,
        rows_of(tiles.push(next)).len() == rows_of(tiles).len() + 1,
        rows_of(tiles.push(next)).drop_last() == rows_of(tiles),
        rows_of(tiles.push(next)).last().tile_id == next.0,
        rows_of(tiles.push(next)).last().length == next.1,
        rows_of(tiles.push(next)).last().offset == total_length(tiles),
        rows_of(tiles.push(next)).last().run_length == 1,
{
    assert(tiles.push(next).drop_last() =~= tiles);
    assert(rows_of(tiles.push(next)).drop_last() =~= rows_of(tiles));
}

} // verus!
