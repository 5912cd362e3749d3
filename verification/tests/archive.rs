use pmtiler::archive::{Area, ArchiveWriter, TARGET_ROOT_LEN};
use pmtiler::bytes::{read_i32, read_u64, write_i32, write_u64};
use pmtiler::directory::{serialize_directory, Entry};
use pmtiler::error::ErrorKind;
use pmtiler::header::{Header, ParsedHeader, HEADER_LEN};
use pmtiler::leaves::optimize_directories;
use pmtiler::tile_id::zxy_to_tile_id;
use pmtiler::varint::write_varint;

fn entry(tile_id: u64, offset: u64, length: u32, run_length: u32) -> Entry {
    Entry { tile_id, offset, length, run_length }
}

fn read_varint(bytes: &[u8], at: &mut usize) -> u64 {
    let mut value = 0;
    let mut shift = 0;
    loop {
        let byte = bytes[*at];
        *at += 1;
        value |= u64::from(byte & 0x7f) << shift;
        if byte & 0x80 == 0 {
            return value;
        }
        shift += 7;
    }
}

fn read_directory(bytes: &[u8]) -> Vec<Entry> {
    let mut at = 0;
    let count = read_varint(bytes, &mut at) as usize;
    let mut rows = vec![entry(0, 0, 0, 0); count];
    let mut id = 0;
    for row in rows.iter_mut() {
        id += read_varint(bytes, &mut at);
        row.tile_id = id;
    }
    for row in rows.iter_mut() {
        row.run_length = read_varint(bytes, &mut at) as u32;
    }
    for row in rows.iter_mut() {
        row.length = read_varint(bytes, &mut at) as u32;
    }
    for i in 0..count {
        let code = read_varint(bytes, &mut at);
        rows[i].offset = if code == 0 {
            rows[i - 1].offset + u64::from(rows[i - 1].length)
        } else {
            code - 1
        };
    }
    assert_eq!(at, bytes.len());
    rows
}

fn read_all(root: &[u8], leaves: &[u8]) -> Vec<Entry> {
    let mut all = Vec::new();
    for row in read_directory(root) {
        if row.run_length == 0 {
            let from = row.offset as usize;
            all.extend(read_directory(&leaves[from..from + row.length as usize]));
        } else {
            all.push(row);
        }
    }
    all
}

#[test]
fn zxy_tile_ids_match_pmtiles_order() {
    assert_eq!(zxy_to_tile_id(0, 0, 0).unwrap(), 0);
    assert_eq!(zxy_to_tile_id(1, 0, 0).unwrap(), 1);
    assert_eq!(zxy_to_tile_id(1, 0, 1).unwrap(), 2);
    assert_eq!(zxy_to_tile_id(1, 1, 1).unwrap(), 3);
    assert_eq!(zxy_to_tile_id(1, 1, 0).unwrap(), 4);
}

#[test]
fn directory_serialization_delta_encodes_offsets() {
    let entries = vec![
        Entry {
            tile_id: 1,
            offset: 0,
            length: 10,
            run_length: 1,
        },
        Entry {
            tile_id: 2,
            offset: 10,
            length: 20,
            run_length: 1,
        },
    ];

    assert_eq!(
        serialize_directory(&entries),
        vec![2, 1, 1, 1, 1, 10, 20, 1, 0]
    );
}

#[test]
fn zoom_levels_above_31_have_no_tile_ids() {
    let error = zxy_to_tile_id(32, 0, 0).unwrap_err();
    assert_eq!(error.kind, ErrorKind::InvalidInput);
    assert_eq!(error.message, "PMTiles tile ids support zoom levels 0..31");
    assert!(zxy_to_tile_id(31, 0, 0).is_ok());
}

#[test]
fn tile_ids_number_each_zoom_once_and_step_to_neighbours() {
    let mut next = 0;
    for z in 0..7u8 {
        let side = 1u32 << z;
        let mut cells = Vec::new();
        for y in 0..side {
            for x in 0..side {
                cells.push((zxy_to_tile_id(z, x, y).unwrap(), x, y));
            }
        }
        cells.sort();
        for (i, cell) in cells.iter().enumerate() {
            assert_eq!(cell.0, next + i as u64);
        }
        for pair in cells.windows(2) {
            let step = pair[0].1.abs_diff(pair[1].1) + pair[0].2.abs_diff(pair[1].2);
            assert_eq!(step, 1);
        }
        next += cells.len() as u64;
    }
    assert_eq!(zxy_to_tile_id(31, 0, 0).unwrap(), 1_537_228_672_809_129_301);
    assert_eq!(zxy_to_tile_id(12, 3423, 1763).unwrap(), 19_078_479);
}

#[test]
fn varints_hold_seven_bits_a_byte() {
    let mut out = Vec::new();
    write_varint(0, &mut out);
    write_varint(127, &mut out);
    write_varint(128, &mut out);
    write_varint(300, &mut out);
    write_varint(u64::MAX, &mut out);
    assert_eq!(out[..6], [0, 127, 128, 1, 172, 2]);
    assert_eq!(out[6..], [255, 255, 255, 255, 255, 255, 255, 255, 255, 1]);
    let mut at = 0;
    let mut values = Vec::new();
    while at < out.len() {
        values.push(read_varint(&out, &mut at));
    }
    assert_eq!(values, vec![0, 127, 128, 300, u64::MAX]);
}

#[test]
fn directory_offsets_restart_where_data_do_not_follow() {
    let entries = vec![entry(5, 100, 7, 1), entry(9, 107, 3, 2), entry(300, 0, 1, 1)];
    let bytes = serialize_directory(&entries);
    assert_eq!(bytes, vec![3, 5, 4, 163, 2, 1, 2, 1, 7, 3, 1, 101, 0, 1]);
    assert_eq!(read_directory(&bytes), entries);
    assert_eq!(serialize_directory(&[]), vec![0]);
}

#[test]
fn small_directories_have_no_leaves() {
    let entries = vec![entry(1, 0, 10, 1), entry(2, 10, 20, 1)];
    let (root, leaves) = optimize_directories(&entries, TARGET_ROOT_LEN);
    assert_eq!(root, serialize_directory(&entries));
    assert!(leaves.is_empty());
}

#[test]
fn large_directories_are_split_and_read_back() {
    let mut entries = Vec::new();
    let mut offset = 0;
    for i in 0..20_000u64 {
        let length = (i % 977 + 1) as u32;
        entries.push(entry(3 * i + i % 3, offset, length, 1));
        offset += u64::from(length);
    }
    let (root, leaves) = optimize_directories(&entries, TARGET_ROOT_LEN);
    assert!(root.len() <= TARGET_ROOT_LEN);
    assert_eq!(read_directory(&root).len(), 5);
    assert_eq!(read_all(&root, &leaves), entries);

    // A smaller target doubles the leaves until the root fits.
    let (root, leaves) = optimize_directories(&entries, 70);
    assert!(root.len() <= 70);
    assert_eq!(read_all(&root, &leaves), entries);
}

#[test]
fn one_leaf_is_enough_for_the_smallest_root() {
    let entries: Vec<Entry> =
        (0..5_000).map(|i| entry(u64::MAX - 10_000 + i, 7 * i, 7, 1)).collect();
    let (root, leaves) = optimize_directories(&entries, 18);
    assert!(root.len() <= 18);
    assert_eq!(read_directory(&root).len(), 1);
    assert_eq!(read_all(&root, &leaves), entries);
}

#[test]
fn numbers_are_stored_low_byte_first() {
    let mut out = vec![9];
    write_u64(&mut out, 0x0102_0304_0506_0708);
    write_i32(&mut out, -2);
    assert_eq!(out, vec![9, 8, 7, 6, 5, 4, 3, 2, 1, 254, 255, 255, 255]);
    assert_eq!(read_u64(&out, 1), 0x0102_0304_0506_0708);
    assert_eq!(read_i32(&out, 9), -2);
}

fn sample_header() -> Header {
    Header {
        root_offset: 127,
        root_length: 25,
        metadata_offset: 152,
        metadata_length: 247,
        leaf_directory_offset: 399,
        leaf_directory_length: 0,
        tile_data_offset: 399,
        tile_data_length: 1 << 40,
        addressed_tiles_count: 5,
        tile_entries_count: 6,
        tile_contents_count: 7,
        clustered: true,
        internal_compression: 1,
        tile_compression: 2,
        tile_type: 4,
        min_zoom: 3,
        max_zoom: 9,
        min_lon_e7: -1_800_000_000,
        min_lat_e7: -850_511_287,
        max_lon_e7: 1_800_000_000,
        max_lat_e7: 850_511_287,
        center_zoom: 3,
        center_lon_e7: -1,
        center_lat_e7: 0,
    }
}

#[test]
fn headers_are_read_back() {
    let header = sample_header();
    let bytes = header.serialize();
    assert_eq!(bytes.len() as u64, HEADER_LEN);
    assert_eq!(&bytes[..8], b"PMTiles\x03");
    assert_eq!(bytes[8], 127);
    assert_eq!(bytes[96..102], [1, 1, 2, 4, 3, 9]);
    let parsed = ParsedHeader::parse(&bytes).unwrap();
    assert_eq!(parsed.version, 3);
    assert_eq!(parsed.fields, header);
}

#[test]
fn other_files_are_refused() {
    let good = sample_header().serialize();
    let mut bytes = good;
    bytes[0] = b'p';
    let error = ParsedHeader::parse(&bytes).err().unwrap();
    assert_eq!(error.kind, ErrorKind::InvalidInput);
    assert_eq!(error.message, "not a PMTiles archive");
    let mut bytes = good;
    bytes[7] = 42;
    let error = ParsedHeader::parse(&bytes).err().unwrap();
    assert_eq!(error.kind, ErrorKind::InvalidInput);
    assert_eq!(error.message, "unsupported PMTiles version 42");
    // Only 1 means clustered.
    let mut bytes = good;
    bytes[96] = 2;
    assert!(!ParsedHeader::parse(&bytes).ok().unwrap().fields.clustered);
}

#[test]
fn packed_archives_give_tiles_back() {
    let tiles = [(7u64, b"seven".to_vec()), (2, b"two".to_vec()), (30, b"thirty".to_vec())];
    let mut writer = ArchiveWriter::create();
    let mut data = Vec::new();
    for (id, bytes) in &tiles {
        writer.add_tile(*id, bytes.len() as u32);
        data.extend_from_slice(bytes);
    }
    let metadata = b"{}";
    let directories = writer.finish_directories(metadata);
    let layout = directories.layout;
    assert_eq!(layout.entries_count, 3);
    assert_eq!(layout.tile_data_length, 14);
    assert_eq!(layout.metadata_offset, HEADER_LEN + directories.root.len() as u64);
    assert_eq!(layout.leaf_directory_offset, layout.metadata_offset + 2);
    assert_eq!(layout.tile_data_offset, layout.leaf_directory_offset);

    let area = Area {
        min_lon_e7: -1,
        min_lat_e7: -2,
        max_lon_e7: 3,
        max_lat_e7: 4,
        center_lon_e7: 1,
        center_lat_e7: 1,
    };
    let header = Header::for_archive(&layout, 2, 0, 3, &area);
    let mut file = header.serialize().to_vec();
    file.extend_from_slice(&directories.root);
    file.extend_from_slice(metadata);
    file.extend_from_slice(&directories.leaves);
    file.extend_from_slice(&data);

    let mut start = [0; 127];
    start.copy_from_slice(&file[..127]);
    let h = ParsedHeader::parse(&start).ok().unwrap().fields;
    assert_eq!(h, header);
    assert_eq!((h.tile_type, h.min_zoom, h.max_zoom, h.center_zoom), (2, 0, 3, 0));
    assert_eq!((h.internal_compression, h.tile_compression, h.clustered), (1, 1, true));
    assert_eq!((h.min_lon_e7, h.min_lat_e7, h.max_lon_e7, h.max_lat_e7), (-1, -2, 3, 4));
    let root = &file[h.root_offset as usize..(h.root_offset + h.root_length) as usize];
    let rows = read_directory(root);
    let ids: Vec<u64> = rows.iter().map(|row| row.tile_id).collect();
    assert_eq!(ids, vec![2, 7, 30]);
    for (id, bytes) in &tiles {
        let row = rows.iter().find(|row| row.tile_id == *id).unwrap();
        let from = (h.tile_data_offset + row.offset) as usize;
        assert_eq!(&file[from..from + row.length as usize], &bytes[..]);
    }
}

#[test]
fn tiles_added_in_order_are_clustered() {
    let mut writer = ArchiveWriter::create();
    for (id, length) in [(3, 10), (4, 0), (4, 7), (90, 1)] {
        writer.add_tile(id, length);
    }
    let before = writer.entries.clone();
    writer.finish_directories(b"");
    assert_eq!(writer.entries, before);
    let offsets: Vec<u64> = writer.entries.iter().map(|e| e.offset).collect();
    assert_eq!(offsets, vec![0, 10, 10, 17]);
}

#[test]
fn reserved_space_keeps_tile_data_in_place() {
    let mut writer = ArchiveWriter::create_with_reserved_directories(65_536);
    writer.add_tile(1, 10);
    writer.add_tile(0, 5);
    let directories = writer.finish_reserved_directories(b"meta").ok().unwrap();
    let layout = directories.layout;
    assert_eq!(layout.tile_data_offset, HEADER_LEN + 65_536);
    assert_eq!(layout.metadata_offset, HEADER_LEN + layout.root_length);
    assert_eq!(layout.leaf_directory_offset, layout.metadata_offset + 4);
    assert_eq!(layout.leaf_directory_length, 0);
    assert_eq!(layout.tile_data_length, 15);
    assert_eq!(read_directory(&directories.root), vec![entry(0, 10, 5, 1), entry(1, 0, 10, 1)]);

    // Both directories and metadata count against the space.
    let mut writer = ArchiveWriter::create_with_reserved_directories(10);
    writer.add_tile(1, 10);
    let error = writer.finish_reserved_directories(b"metadata").err().unwrap();
    assert_eq!(error.kind, ErrorKind::Other);
    assert_eq!(error.message, "directories and metadata exceed the reserved space");
}
