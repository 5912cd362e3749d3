use pmtiler::error::ErrorKind;
use pmtiler::jobs::TileJob;
use pmtiler::pixels::{
    blank, copy_interleaved_window, deinterleave_band, interleave_bands_into,
    read_native_tile_pixels, tile_origin, DestinationWindow, InterleavedWindow, NativeChunk, TilePixels,
    TileScratch,
};

fn job(x: u32, y: u32) -> TileJob {
    TileJob { z: 5, x, y, tile_id: 0 }
}

/// A chunk of two by two tiles of two by two pixels in two bands.
fn chunk() -> NativeChunk {
    NativeChunk {
        pixels: (0..32).collect(),
        width: 4,
        min_x: 10,
        min_y: 20,
        band_count: 2,
    }
}

#[test]
fn tiles_show_their_part_of_a_chunk() {
    let chunk = chunk();
    let tile = read_native_tile_pixels(2, &chunk, &job(11, 21)).ok().unwrap();
    assert_eq!((tile.tile_size, tile.band_count, tile.row_stride), (2, 2, 8));
    // The lower right pixels are (2, 2), (3, 2), (2, 3) and (3, 3).
    assert_eq!(tile.pixels, [20, 21, 22, 23, 24, 25, 26, 27, 28, 29, 30, 31]);
    assert_eq!(deinterleave_band(&tile, 0), vec![20, 22, 28, 30]);
    assert_eq!(deinterleave_band(&tile, 1), vec![21, 23, 29, 31]);
    let tile = read_native_tile_pixels(2, &chunk, &job(10, 20)).ok().unwrap();
    assert_eq!(deinterleave_band(&tile, 0), vec![0, 2, 8, 10]);
}

#[test]
fn tiles_have_an_origin() {
    assert_eq!(tile_origin(256, 10, 20, &job(13, 20)), (768, 0));
}

#[test]
fn tiles_outside_of_a_chunk_are_refused() {
    let error = read_native_tile_pixels(2, &chunk(), &job(11, 22)).err().unwrap();
    assert_eq!(error.kind, ErrorKind::Other);
    assert_eq!(error.message, "native chunk tile view is out of bounds");
    assert!(read_native_tile_pixels(4, &chunk(), &job(10, 20)).is_ok());
    assert!(read_native_tile_pixels(5, &chunk(), &job(10, 20)).is_err());
}

#[test]
fn bands_are_interleaved_and_back() {
    let bands = vec![vec![1, 2, 3, 4], vec![5, 6, 7, 8, 99], vec![9, 10, 11, 12]];
    let mut pixels = vec![42; 100];
    interleave_bands_into(&bands, 4, &mut pixels);
    assert_eq!(pixels, vec![1, 5, 9, 2, 6, 10, 3, 7, 11, 4, 8, 12]);
    let tile = TilePixels { tile_size: 2, band_count: 3, row_stride: 6, pixels: &pixels };
    for (index, band) in bands.iter().enumerate() {
        assert_eq!(deinterleave_band(&tile, index), band[..4]);
    }
    interleave_bands_into(&Vec::new(), 4, &mut pixels);
    assert!(pixels.is_empty());
}

#[test]
fn windows_are_copied_into_place() {
    let source = vec![1, 2, 3, 4, 5, 6, 7, 8];
    let mut image = blank(24);
    assert_eq!(image, vec![0; 24]);
    let part = InterleavedWindow { width: 2, height: 2, band_count: 2 };
    let place = DestinationWindow { width: 4, x: 1, y: 1 };
    copy_interleaved_window(&source, &mut image, part, place);
    assert_eq!(
        image,
        vec![0, 0, 0, 0, 0, 0, 0, 0, 0, 0, 1, 2, 3, 4, 0, 0, 0, 0, 5, 6, 7, 8, 0, 0]
    );
    let nothing = InterleavedWindow { width: 2, height: 0, band_count: 2 };
    let before = image.clone();
    copy_interleaved_window(&source, &mut image, nothing, place);
    assert_eq!(image, before);
}

#[test]
fn scratch_buffers_start_empty() {
    let scratch = TileScratch::new();
    assert!(scratch.pixels.is_empty() && scratch.bands.is_empty());
}
