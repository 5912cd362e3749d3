use pmtiler::archive::ArchiveWriter;
use pmtiler::error::ErrorKind;
use pmtiler::jobs::TileJob;
use pmtiler::stream::{
    collect_tiles, entry_length, sort_tiles, write_rendered_tile, ChunkCollector, RenderedTile, TileStream,
};

fn tile(tile_id: u64) -> RenderedTile {
    RenderedTile { tile_id, data: vec![tile_id as u8; tile_id as usize + 1] }
}

fn jobs(ids: &[u64]) -> Vec<TileJob> {
    ids.iter().map(|id| TileJob { z: 3, x: 0, y: 0, tile_id: *id }).collect()
}

fn ids(tiles: &[RenderedTile]) -> Vec<u64> {
    tiles.iter().map(|tile| tile.tile_id).collect()
}

#[test]
fn tiles_wait_for_earlier_ones() {
    let expected = jobs(&[1, 2, 3, 4]);
    let mut writer = ArchiveWriter::create();
    let mut stream = TileStream::new();
    stream.count_chunk();
    let ready = stream.write_ready_tiles(&mut writer, &expected, vec![tile(2), tile(4)]);
    assert!(ready.tiles.is_empty() && ready.error.is_none());
    assert_eq!(stream.next_expected, 0);

    stream.count_chunk();
    let ready = stream.write_ready_tiles(&mut writer, &expected, vec![tile(1)]);
    assert_eq!(ids(&ready.tiles), vec![1, 2]);
    assert_eq!(stream.next_expected, 2);
    let error = stream.finish(2, &expected).unwrap_err();
    assert_eq!(error.kind, ErrorKind::Other);
    assert_eq!(error.message, "not all rendered tiles were written");

    stream.count_chunk();
    let ready = stream.write_ready_tiles(&mut writer, &expected, vec![tile(3)]);
    assert_eq!(ids(&ready.tiles), vec![3, 4]);
    assert!(stream.finish(3, &expected).is_ok());
    assert_eq!(
        stream.finish(4, &expected).unwrap_err().message,
        "not all chunk workers completed"
    );

    let rows: Vec<(u64, u64, u32)> =
        writer.entries.iter().map(|e| (e.tile_id, e.offset, e.length)).collect();
    assert_eq!(rows, vec![(1, 0, 2), (2, 2, 3), (3, 5, 4), (4, 9, 5)]);
    assert_eq!(writer.tile_data_length, 14);
}

#[test]
fn tiles_that_nobody_expects_are_left_over() {
    let expected = jobs(&[1]);
    let mut writer = ArchiveWriter::create();
    let mut stream = TileStream::new();
    stream.count_chunk();
    let ready = stream.write_ready_tiles(&mut writer, &expected, vec![tile(9), tile(1)]);
    assert_eq!(ids(&ready.tiles), vec![1]);
    assert_eq!(
        stream.finish(1, &expected).unwrap_err().message,
        "not all rendered tiles were written"
    );
}

#[test]
fn the_order_of_chunks_does_not_matter() {
    let expected = jobs(&[0, 1, 2, 3, 4, 5]);
    let batches = [vec![0, 3], vec![1, 4], vec![2, 5]];
    for order in [[0, 1, 2], [2, 1, 0], [1, 2, 0]] {
        let mut writer = ArchiveWriter::create();
        let mut stream = TileStream::new();
        let mut written = Vec::new();
        for index in order {
            let tiles = batches[index].iter().map(|id| tile(*id)).collect();
            stream.count_chunk();
            let ready = stream.write_ready_tiles(&mut writer, &expected, tiles);
            written.extend(ids(&ready.tiles));
        }
        assert_eq!(written, vec![0, 1, 2, 3, 4, 5]);
        assert!(stream.finish(3, &expected).is_ok());
        assert_eq!(writer.tile_data_length, 21);
    }
}

#[test]
fn tiles_follow_jobs_in_any_order() {
    let expected = jobs(&[5, 1, 3]);
    let mut writer = ArchiveWriter::create();
    let mut stream = TileStream::new();
    let mut written = Vec::new();
    for id in [3, 1, 5] {
        stream.count_chunk();
        let ready = stream.write_ready_tiles(&mut writer, &expected, vec![tile(id)]);
        written.extend(ids(&ready.tiles));
    }
    assert_eq!(written, vec![5, 1, 3]);
    assert!(stream.finish(3, &expected).is_ok());
}

#[test]
fn rendered_tiles_become_entries() {
    let mut writer = ArchiveWriter::create();
    write_rendered_tile(&mut writer, &tile(4)).unwrap();
    write_rendered_tile(&mut writer, &tile(2)).unwrap();
    assert_eq!(writer.entries[1].offset, 5);
    assert_eq!(writer.entries[1].length, 3);
    assert_eq!(writer.entries[1].run_length, 1);
}

#[test]
fn tiles_longer_than_a_row_can_say_are_refused() {
    assert_eq!(entry_length(77, u32::MAX as usize).unwrap(), u32::MAX);
    let error = entry_length(77, u32::MAX as usize + 1).unwrap_err();
    assert_eq!(error.kind, ErrorKind::InvalidInput);
    assert_eq!(error.message, "encoded tile exceeds PMTiles entry limit: 77");
}

#[test]
fn chunks_are_joined_in_order() {
    let mut collector = ChunkCollector::new(3);
    collector.put(2, vec![tile(5)]);
    collector.put(0, vec![tile(1), tile(2)]);
    collector.put(1, Vec::new());
    assert_eq!(ids(&collector.finish().unwrap()), vec![1, 2, 5]);

    let mut collector = ChunkCollector::new(2);
    collector.put(1, vec![tile(1)]);
    let error = collector.finish().unwrap_err();
    assert_eq!(error.kind, ErrorKind::Other);
    assert_eq!(error.message, "not all chunk workers completed");

    let mut collector = ChunkCollector::new(2);
    collector.put(1, vec![tile(1)]);
    collector.put(1, vec![tile(1)]);
    let error = collector.finish().unwrap_err();
    assert_eq!(error.kind, ErrorKind::Other);
    assert_eq!(error.message, "missing rendered chunk");
}

#[test]
fn tiles_of_several_workers_are_sorted() {
    let tiles = collect_tiles(vec![tile(3), tile(1), tile(2)], 3).unwrap();
    assert_eq!(ids(&tiles), vec![1, 2, 3]);
    let error = collect_tiles(vec![tile(3)], 2).unwrap_err();
    assert_eq!(error.kind, ErrorKind::Other);
    assert_eq!(error.message, "not all tile workers completed");
    assert_eq!(ids(&sort_tiles(vec![tile(9), tile(8)])), vec![8, 9]);
}
