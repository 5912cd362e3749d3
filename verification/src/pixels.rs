//! Pixels of several bands, stored pixel by pixel.
use vstd::prelude::*;

use crate::error::{failed, other, Error};
use crate::jobs::TileJob;

verus! {

/// The pixels of a block of tiles. The tile in its upper left corner has the indices `min_x` and
/// `min_y`.
#[derive(Debug)]
pub struct NativeChunk {
    pub pixels: Vec<u8>,
    pub width: usize,
    pub min_x: u32,
    pub min_y: u32,
    pub band_count: usize,
}

/// The pixels of a tile, as a part of those of a larger image. Rows are `row_stride` bytes apart.
pub struct TilePixels<'a> {
    pub tile_size: usize,
    pub band_count: usize,
    pub row_stride: usize,
    pub pixels: &'a [u8],
}

impl<'a> TilePixels<'a> {
    /// All rows of the tile are there.
    pub open spec fn wf(self) -> bool {
        self.tile_size > 0 ==> (self.tile_size - 1) * self.row_stride + self.tile_size
            * self.band_count <= self.pixels@.len()
    }

    /// The value of a pixel in one band.
    pub open spec fn at(self, x: int, y: int, band: int) -> u8 {
        self.pixels@[y * self.row_stride + x * self.band_count + band]
    }
}

impl NativeChunk {
    /// The value of a pixel in one band.
    pub open spec fn at(self, x: int, y: int, band: int) -> u8 {
        self.pixels@[(y * self.width + x) * self.band_count + band]
    }

    /// Left column of a tile.
    pub open spec fn left(self, job: TileJob, tile_size: u32) -> int {
        (job.x - self.min_x) * tile_size
    }

    /// Upper row of a tile.
    pub open spec fn top(self, job: TileJob, tile_size: u32) -> int {
        (job.y - self.min_y) * tile_size
    }

    /// Place of the first byte of a tile.
    pub open spec fn start(self, job: TileJob, tile_size: u32) -> int {
        (self.top(job, tile_size) * self.width + self.left(job, tile_size)) * self.band_count
    }

    /// Number of bytes from the first of a tile to its last.
    pub open spec fn extent(self, tile_size: u32) -> int {
        (tile_size - 1) * (self.width * self.band_count) + tile_size * self.band_count
    }
}

proof fn lemma_product_bound(a: int, b: int, c: int)
    requires
        0 <= a <= c,
        0 <= b,
    ensures
        0 <= a * b <= c * b,
{
    assert(0 <= a * b <= c * b) by (nonlinear_arith)
        requires
            0 <= a <= c,
            0 <= b,
    ;
}

/// Left column and upper row of a tile in a block whose corner is the tile `min_x`, `min_y`.
pub fn tile_origin(tile_size: u32, min_x: u32, min_y: u32, job: &TileJob) -> (r: (u32, u32))
    requires
        min_x <= job.x,
        min_y <= job.y,
        (job.x - min_x) * tile_size <= u32::MAX,
        (job.y - min_y) * tile_size <= u32::MAX,
    ensures
        r.0 == (job.x - min_x) * tile_size,
        r.1 == (job.y - min_y) * tile_size,
{
    proof {
        lemma_product_bound(0, tile_size as int, job.x - min_x);
        lemma_product_bound(0, tile_size as int, job.y - min_y);
    }
    ((job.x - min_x) * tile_size, (job.y - min_y) * tile_size)
}

/// The pixels of one tile of a block.
pub fn read_native_tile_pixels<'a>(tile_size: u32, chunk: &'a NativeChunk, job: &TileJob) -> (r:
    Result<TilePixels<'a>, Error>)
    requires
        tile_size > 0,
        chunk.min_x <= job.x,
        chunk.min_y <= job.y,
        chunk.left(*job, tile_size) <= u32::MAX,
        chunk.top(*job, tile_size) <= u32::MAX,
        chunk.width * chunk.band_count <= usize::MAX,
        tile_size * chunk.band_count <= usize::MAX,
        chunk.top(*job, tile_size) * chunk.width + chunk.left(*job, tile_size) <= usize::MAX,
        chunk.start(*job, tile_size) <= usize::MAX,
    ensures
        if chunk.start(*job, tile_size) + chunk.extent(tile_size) > chunk.pixels@.len() {
            failed(r, "native chunk tile view is out of bounds"@)
        } else {
            &&& r matches Ok(tile)
            &&& tile.wf()
            &&& tile.tile_size == tile_size
            &&& tile.band_count == chunk.band_count
            &&& tile.row_stride == chunk.width * chunk.band_count
            &&& tile.pixels@ == chunk.pixels@.subrange(
                chunk.start(*job, tile_size),
                chunk.start(*job, tile_size) + chunk.extent(tile_size),
            )
        },
{
    let ghost left = chunk.left(*job, tile_size);
    let ghost top = chunk.top(*job, tile_size);
    let (left_pixel, top_pixel) = tile_origin(tile_size, chunk.min_x, chunk.min_y, job);
    proof {
        lemma_product_bound(0, chunk.width as int, top);
        lemma_product_bound(0, chunk.band_count as int, top * chunk.width + left);
        lemma_product_bound(0, chunk.band_count as int, chunk.width as int);
        lemma_product_bound(0, chunk.band_count as int, tile_size as int);
        lemma_product_bound(0, chunk.width * chunk.band_count, tile_size - 1);
    }
    let xoff: usize = left_pixel as usize;
    let yoff: usize = top_pixel as usize;
    let total: usize = chunk.pixels.len();
    let row_stride: usize = chunk.width * chunk.band_count;
    let row_bytes: usize = tile_size as usize * chunk.band_count;
    let start: usize = (yoff * chunk.width + xoff) * chunk.band_count;
    let between: Option<usize> = (tile_size as usize - 1).checked_mul(row_stride);
    if let Some(between) = between {
        if let Some(length) = between.checked_add(row_bytes) {
            if let Some(end) = start.checked_add(length) {
                if end <= total {
                    return Ok(
                        TilePixels {
                            tile_size: tile_size as usize,
                            band_count: chunk.band_count,
                            row_stride,
                            pixels: vstd::slice::slice_subrange(
                                chunk.pixels.as_slice(),
                                start,
                                end,
                            ),
                        },
                    );
                }
            }
        }
    }
    Err(other("native chunk tile view is out of bounds"))
}

/// A tile shows the pixels of the block at its place.
pub proof fn law_tile_shows_chunk(
    chunk: NativeChunk,
    job: TileJob,
    tile_size: u32,
    tile: TilePixels,
    x: int,
    y: int,
    band: int,
)
    requires
        chunk.min_x <= job.x,
        chunk.min_y <= job.y,
        chunk.start(job, tile_size) + chunk.extent(tile_size) <= chunk.pixels@.len(),
        tile.tile_size == tile_size,
        tile.band_count == chunk.band_count,
        tile.row_stride == chunk.width * chunk.band_count,
        tile.pixels@ == chunk.pixels@.subrange(
            chunk.start(job, tile_size),
            chunk.start(job, tile_size) + chunk.extent(tile_size),
        ),
        0 <= x < tile_size,
        0 <= y < tile_size,
        0 <= band < chunk.band_count,
    ensures
        tile.at(x, y, band) == chunk.at(
            chunk.left(job, tile_size) + x,
            chunk.top(job, tile_size) + y,
            band,
        ),
{
    let w = chunk.width as int;
    let n = chunk.band_count as int;
    let left = chunk.left(job, tile_size);
    let top = chunk.top(job, tile_size);
    lemma_product_bound(0, tile_size as int, job.x - chunk.min_x);
    lemma_product_bound(0, tile_size as int, job.y - chunk.min_y);
    lemma_product_bound(0, w, top);
    lemma_product_bound(0, n, top * w + left);
    lemma_product_bound(0, n, w);
    lemma_product_bound(y, w * n, tile_size - 1);
    lemma_product_bound(x, n, tile_size - 1);
    assert((tile_size - 1) * n + n == tile_size * n) by (nonlinear_arith);
    let i = y * (w * n) + x * n + band;
    assert(0 <= i < chunk.extent(tile_size));
    assert((top * w + left) * n + i == ((top + y) * w + (left + x)) * n + band) by (
    nonlinear_arith)
        requires
            i == y * (w * n) + x * n + band,
    ;
}

/// One band of a tile, row by row.
pub open spec fn band_of(tile: TilePixels, band: int) -> Seq<u8> {
    Seq::new(
        (tile.tile_size * tile.tile_size) as nat,
        |i: int| tile.at(i % (tile.tile_size as int), i / (tile.tile_size as int), band),
    )
}

/// Takes one band out of the pixels of a tile.
pub fn deinterleave_band(pixels: &TilePixels<'_>, band_offset: usize) -> (r: Vec<u8>)
    requires
        pixels.wf(),
        band_offset < pixels.band_count,
        pixels.tile_size * pixels.tile_size <= usize::MAX,
    ensures
        r@ == band_of(*pixels, band_offset as int),
{
    let size: usize = pixels.tile_size;
    let _total: usize = pixels.pixels.len();
    let mut band: Vec<u8> = Vec::new();
    let mut y: usize = 0;
    let ghost whole = band_of(*pixels, band_offset as int);
    while y < size
        invariant
            y <= size == pixels.tile_size,
            _total == pixels.pixels@.len(),
            pixels.wf(),
            band_offset < pixels.band_count,
            pixels.tile_size * pixels.tile_size <= usize::MAX,
            whole == band_of(*pixels, band_offset as int),
            band@.len() == y * size,
            band@ == whole.take(y * size),
            y * size <= size * size,
        decreases size - y,
    {
        proof {
            lemma_product_bound(y as int, pixels.row_stride as int, size - 1);
            lemma_product_bound(1, pixels.band_count as int, size as int);
            assert(y * size + size <= size * size) by (nonlinear_arith)
                requires
                    y < size,
            ;
        }
        let row_start: usize = y * pixels.row_stride;
        let mut x: usize = 0;
        while x < size
            invariant
                x <= size == pixels.tile_size,
                y < size,
                _total == pixels.pixels@.len(),
                row_start == y * pixels.row_stride,
                0 <= row_start <= (size - 1) * pixels.row_stride,
                (size - 1) * pixels.row_stride + size * pixels.band_count <= _total,
                band_offset < pixels.band_count,
                whole == band_of(*pixels, band_offset as int),
                band@.len() == y * size + x,
                y * size + size <= size * size,
                band@ == whole.take(y * size + x),
            decreases size - x,
        {
            proof {
                lemma_product_bound(x as int, pixels.band_count as int, size - 1);
                assert((size - 1) * pixels.band_count + pixels.band_count == size
                    * pixels.band_count) by (nonlinear_arith);
                lemma_place(x as int, y as int, size as int);
            }
            let ghost k = y * size + x;
            let value: u8 = pixels.pixels[row_start + x * pixels.band_count + band_offset];
            assert(whole[k] == value);
            band.push(value);
            x = x + 1;
            assert(band@ =~= whole.take(y * size + x));
        }
        assert((y + 1) * size == y * size + size) by (nonlinear_arith);
        y = y + 1;
    }
    assert(whole.take(size * size) =~= whole);
    band
}

proof fn lemma_place(x: int, y: int, size: int)
    requires
        0 <= x < size,
        0 <= y,
    ensures
        (y * size + x) / size == y,
        (y * size + x) % size == x,
{
    vstd::arithmetic::div_mod::lemma_fundamental_div_mod_converse(y * size + x, size, y, x);
}

/// The bands of `pixel_count` pixels, pixel by pixel.
pub open spec fn interleaved(bands: Seq<Vec<u8>>, pixel_count: nat) -> Seq<u8> {
    Seq::new(
        pixel_count * bands.len(),
        |i: int| bands[i % (bands.len() as int)]@[i / (bands.len() as int)],
    )
}

/// Stores bands pixel by pixel, in place of what was there.
pub fn interleave_bands_into(bands: &Vec<Vec<u8>>, pixel_count: usize, pixels: &mut Vec<u8>)
    requires
        forall|b: int| 0 <= b < bands@.len() ==> pixel_count <= (#[trigger] bands@[b])@.len(),
        pixel_count * bands@.len() <= usize::MAX,
    ensures
        final(pixels)@ == interleaved(bands@, pixel_count as nat),
{
    let band_count: usize = bands.len();
    let ghost whole = interleaved(bands@, pixel_count as nat);
    pixels.clear();
    let mut pixel_index: usize = 0;
    assert(pixels@ =~= whole.take(0));
    while pixel_index < pixel_count
        invariant
            pixel_index <= pixel_count,
            band_count == bands@.len(),
            forall|b: int| 0 <= b < bands@.len() ==> pixel_count <= (#[trigger] bands@[b])@.len(),
            whole == interleaved(bands@, pixel_count as nat),
            0 <= pixel_index * band_count <= pixel_count * band_count,
            pixels@ == whole.take(pixel_index * band_count),
        decreases pixel_count - pixel_index,
    {
        let mut band_offset: usize = 0;
        assert(pixel_index * band_count + band_count <= pixel_count * band_count)
            by (nonlinear_arith)
            requires
                pixel_index < pixel_count,
        ;
        while band_offset < band_count
            invariant
                pixel_index < pixel_count,
                band_offset <= band_count == bands@.len(),
                forall|b: int|
                    0 <= b < bands@.len() ==> pixel_count <= (#[trigger] bands@[b])@.len(),
                whole == interleaved(bands@, pixel_count as nat),
                0 <= pixel_index * band_count,
                pixel_index * band_count + band_count <= pixel_count * band_count,
                pixels@ == whole.take(pixel_index * band_count + band_offset),
            decreases band_count - band_offset,
        {
            let ghost k = pixel_index * band_count + band_offset;
            proof {
                lemma_place(band_offset as int, pixel_index as int, band_count as int);
            }
            let value: u8 = bands[band_offset][pixel_index];
            assert(whole[k] == value);
            pixels.push(value);
            band_offset = band_offset + 1;
            assert(pixels@ =~= whole.take(pixel_index * band_count + band_offset));
        }
        assert((pixel_index + 1) * band_count == pixel_index * band_count + band_count)
            by (nonlinear_arith);
        pixel_index = pixel_index + 1;
    }
    assert(whole.take(pixel_count * band_count) =~= whole);
}

/// Interleaved bands hold one byte for each pixel and band, and taking a band out of them, which
/// is always possible, gives the band back.
pub proof fn law_bands_round_trip(bands: Seq<Vec<u8>>, tile: TilePixels, band: int)
    requires
        0 <= band < bands.len(),
        forall|b: int|
            0 <= b < bands.len() ==> tile.tile_size * tile.tile_size <= (
            #[trigger] bands[b])@.len(),
        tile.band_count == bands.len(),
        tile.row_stride == tile.tile_size * tile.band_count,
        tile.pixels@ == interleaved(bands, (tile.tile_size * tile.tile_size) as nat),
    ensures
        tile.wf(),
        tile.tile_size * tile.tile_size <= usize::MAX,
        tile.pixels@.len() == tile.tile_size * tile.tile_size * bands.len(),
        band_of(tile, band) == bands[band]@.take(tile.tile_size * tile.tile_size),
        bands[band]@.len() == tile.tile_size * tile.tile_size ==> band_of(tile, band)
            == bands[band]@,
{
    let s = tile.tile_size as int;
    let n = tile.band_count as int;
    let count = s * s;
    assert(s > 0 ==> (s - 1) * (s * n) + s * n == (s * s) * n) by (nonlinear_arith);
    lemma_product_bound(0, s, s);
    lemma_product_bound(0, n, count);
    assert(band_of(tile, band).len() == count);
    assert forall|i: int| 0 <= i < count implies band_of(tile, band)[i] == bands[band]@[i] by {
        assert(s > 0) by (nonlinear_arith)
            requires
                0 <= s,
                0 < s * s,
        ;
        vstd::arithmetic::div_mod::lemma_fundamental_div_mod(i, s);
        let x = i % s;
        let y = i / s;
        assert(y * (s * n) + x * n + band == i * n + band) by (nonlinear_arith)
            requires
                i == s * y + x,
        ;
        lemma_product_bound(i, n, count - 1);
        assert((count - 1) * n + n == count * n) by (nonlinear_arith);
        lemma_place(band, i, n);
    }
    assert(band_of(tile, band) =~= bands[band]@.take(count));
    assert(bands[band]@.len() == count ==> bands[band]@.take(count) =~= bands[band]@);
    assert(tile.pixels.len() == tile.pixels@.len());
    lemma_product_bound(1, count, n);
    assert(count * n == n * count) by (nonlinear_arith);
}

/// A part of an image, stored without gaps.
#[derive(Clone, Copy, Debug, PartialEq, Eq, Structural)]
pub struct InterleavedWindow {
    pub width: usize,
    pub height: usize,
    pub band_count: usize,
}

/// The place of a part within an image of the given width.
#[derive(Clone, Copy, Debug, PartialEq, Eq, Structural)]
pub struct DestinationWindow {
    pub width: usize,
    pub x: usize,
    pub y: usize,
}

/// The bytes with others in their place from `at` on.
pub open spec fn overwritten(bytes: Seq<u8>, at: int, part: Seq<u8>) -> Seq<u8> {
    bytes.take(at) + part + bytes.skip(at + part.len())
}

/// Bytes of one row of the part.
pub open spec fn row_bytes(part: InterleavedWindow) -> int {
    part.width * part.band_count
}

/// Place of a row of the part within the image.
pub open spec fn row_place(part: InterleavedWindow, place: DestinationWindow, row: int) -> int {
    ((place.y + row) * place.width + place.x) * part.band_count
}

/// The image after the first rows of the part were copied into it.
pub open spec fn with_rows(
    image: Seq<u8>,
    source: Seq<u8>,
    part: InterleavedWindow,
    place: DestinationWindow,
    rows: nat,
) -> Seq<u8>
    decreases rows,
{
    if rows == 0 {
        image
    } else {
        overwritten(
            with_rows(image, source, part, place, (rows - 1) as nat),
            row_place(part, place, rows - 1),
            source.subrange((rows - 1) * row_bytes(part), rows * row_bytes(part)),
        )
    }
}

/// Copies a part into an image.
pub fn copy_interleaved_window(
    source: &Vec<u8>,
    destination: &mut Vec<u8>,
    source_window: InterleavedWindow,
    destination_window: DestinationWindow,
)
    requires
        row_bytes(source_window) <= usize::MAX,
        source_window.height * row_bytes(source_window) <= source@.len(),
        destination_window.y + source_window.height <= usize::MAX,
        (destination_window.y + source_window.height) * destination_window.width
            + destination_window.x <= usize::MAX,
        forall|y: int|
            0 <= y < source_window.height ==> #[trigger] row_place(
                source_window,
                destination_window,
                y,
            ) + row_bytes(source_window) <= old(destination)@.len(),
    ensures
        final(destination)@ == with_rows(
            old(destination)@,
            source@,
            source_window,
            destination_window,
            source_window.height as nat,
        ),
        final(destination)@.len() == old(destination)@.len(),
{
    let ghost image = destination@;
    let _total: usize = source.len();
    let _room: usize = destination.len();
    proof {
        lemma_product_bound(0, source_window.band_count as int, source_window.width as int);
    }
    let row_len: usize = source_window.width * source_window.band_count;
    let mut y: usize = 0;
    while y < source_window.height
        invariant
            y <= source_window.height,
            row_len == row_bytes(source_window),
            _total == source@.len(),
            _room == image.len() == destination@.len(),
            source_window.height * row_len <= _total,
            destination_window.y + source_window.height <= usize::MAX,
            (destination_window.y + source_window.height) * destination_window.width
                + destination_window.x <= usize::MAX,
            forall|y: int|
                0 <= y < source_window.height ==> #[trigger] row_place(
                    source_window,
                    destination_window,
                    y,
                ) + row_bytes(source_window) <= _room,
            destination@ == with_rows(image, source@, source_window, destination_window, y as nat),
        decreases source_window.height - y,
    {
        let ghost at = row_place(source_window, destination_window, y as int);
        proof {
            lemma_product_bound(y + 1, row_len as int, source_window.height as int);
            assert((y + 1) * row_len == y * row_len + row_len) by (nonlinear_arith);
            lemma_product_bound(y as int, row_len as int, source_window.height as int);
            lemma_product_bound(
                destination_window.y + y,
                destination_window.width as int,
                destination_window.y + source_window.height,
            );
            lemma_product_bound(
                0,
                source_window.band_count as int,
                (destination_window.y + y) * destination_window.width + destination_window.x,
            );
        }
        let source_start: usize = y * row_len;
        let destination_start: usize = ((destination_window.y + y) * destination_window.width
            + destination_window.x) * source_window.band_count;
        let ghost before = destination@;
        let ghost part = source@.subrange(y * row_len, (y + 1) * row_len);
        let mut i: usize = 0;
        while i < row_len
            invariant
                i <= row_len,
                row_len == part.len(),
                source_start + row_len <= _total == source@.len(),
                destination_start + row_len <= _room == destination@.len() == before.len(),
                part == source@.subrange(source_start as int, source_start + row_len),
                forall|k: int|
                    0 <= k < _room ==> #[trigger] destination@[k] == if destination_start <= k
                        < destination_start + i {
                        part[k - destination_start]
                    } else {
                        before[k]
                    },
            decreases row_len - i,
        {
            let value: u8 = source[source_start + i];
            destination[destination_start + i] = value;
            i = i + 1;
        }
        assert(destination@ =~= overwritten(before, destination_start as int, part));
        y = y + 1;
    }
}

/// Where the part fits the width of the image, each of its pixels is then at its place, and all
/// others are as they were.
pub proof fn law_copied_window(
    image: Seq<u8>,
    source: Seq<u8>,
    part: InterleavedWindow,
    place: DestinationWindow,
    rows: nat,
    x: int,
    y: int,
    band: int,
)
    requires
        rows <= part.height,
        place.x + part.width <= place.width,
        part.height * row_bytes(part) <= source.len(),
        rows > 0 ==> row_place(part, place, rows - 1) + row_bytes(part) <= image.len(),
        0 <= x < place.width,
        0 <= y,
        0 <= band < part.band_count,
        (y * place.width + x) * part.band_count + band < image.len(),
    ensures
        with_rows(image, source, part, place, rows).len() == image.len(),
        with_rows(image, source, part, place, rows)[(y * place.width + x) * part.band_count + band]
            == if place.x <= x < place.x + part.width && place.y <= y < place.y + rows {
            source[((y - place.y) * part.width + (x - place.x)) * part.band_count + band]
        } else {
            image[(y * place.width + x) * part.band_count + band]
        },
    decreases rows,
{
    if rows > 0 {
        let n = part.band_count as int;
        let w = place.width as int;
        let row = rows - 1;
        let at = row_place(part, place, row);
        let len = row_bytes(part);
        let k = (y * w + x) * n + band;
        let before = with_rows(image, source, part, place, row as nat);
        lemma_product_bound(0, n, part.width as int);
        lemma_product_bound(0, w, place.y + row);
        lemma_product_bound(0, n, (place.y + row) * w + place.x);
        lemma_product_bound(rows as int, len, part.height as int);
        lemma_product_bound(0, len, row);
        assert(rows * len == row * len + len) by (nonlinear_arith)
            requires
                row == rows - 1,
        ;
        if row > 0 {
            lemma_rows_rise(part, place, row);
        }
        law_copied_window(image, source, part, place, row as nat, x, y, band);
        let bytes = source.subrange(row * len, rows * len);
        assert(bytes.len() == len);
        let after = overwritten(before, at, bytes);
        assert(after.len() == image.len());
        lemma_in_row(x, y, band, n, w, place.x as int, place.y + row, part.width as int);
        if y == place.y + row && place.x <= x < place.x + part.width {
            assert(k - at == (x - place.x) * n + band) by (nonlinear_arith)
                requires
                    k == (y * w + x) * n + band,
                    at == (y * w + place.x) * n,
            ;
            assert(after[k] == bytes[k - at]);
            assert(row * len + (x - place.x) * n + band == (row * part.width + (x - place.x)) * n
                + band) by (nonlinear_arith)
                requires
                    len == part.width * n,
            ;
        } else {
            assert(k < at || k >= at + len);
            assert(after[k] == before[k]);
        }
    }
}

proof fn lemma_rows_rise(part: InterleavedWindow, place: DestinationWindow, row: int)
    requires
        row > 0,
    ensures
        row_place(part, place, row - 1) <= row_place(part, place, row),
{
    let n = part.band_count as int;
    let w = place.width as int;
    assert((place.y + (row - 1)) * w <= (place.y + row) * w) by (nonlinear_arith)
        requires
            w >= 0,
    ;
    let a = (place.y + (row - 1)) * w + place.x;
    let b = (place.y + row) * w + place.x;
    assert(a * n <= b * n) by (nonlinear_arith)
        requires
            a <= b,
            n >= 0,
    ;
}

/// A byte of the image lies in the copied bytes of a row only where its pixel does.
proof fn lemma_in_row(
    x: int,
    y: int,
    band: int,
    n: int,
    w: int,
    place_x: int,
    row: int,
    width: int,
)
    requires
        0 <= x < w,
        0 <= y,
        0 <= row,
        0 <= band < n,
        0 <= place_x,
        0 <= width,
        place_x + width <= w,
    ensures
        (row * w + place_x) * n <= (y * w + x) * n + band < (row * w + place_x) * n + width * n
            <==> (y == row && place_x <= x < place_x + width),
{
    let p = y * w + x;
    let q = row * w + place_x;
    lemma_pixel_order(p, q, band, n);
    assert((q + width) * n == q * n + width * n) by (nonlinear_arith);
    lemma_pixel_order(p, q + width, band, n);
    // The byte lies in the row's bytes where its pixel lies between the two ends.
    assert((q * n <= p * n + band < q * n + width * n) <==> q <= p < q + width);
    if y < row {
        assert(y * w + w <= row * w) by (nonlinear_arith)
            requires
                y + 1 <= row,
                w >= 0,
        ;
    } else if y > row {
        assert(row * w + w <= y * w) by (nonlinear_arith)
            requires
                row + 1 <= y,
                w >= 0,
        ;
    }
}

proof fn lemma_pixel_order(p: int, q: int, band: int, n: int)
    requires
        0 <= band < n,
    ensures
        q * n <= p * n + band <==> q <= p,
{
    if q <= p {
        assert(q * n <= p * n) by (nonlinear_arith)
            requires
                q <= p,
                n >= 0,
        ;
    } else {
        assert(p * n + n <= q * n) by (nonlinear_arith)
            requires
                p + 1 <= q,
                n >= 0,
        ;
    }
}

/// A buffer of zeros.
pub fn blank(len: usize) -> (r: Vec<u8>)
    ensures
        r@ == Seq::new(len as nat, |i: int| 0u8),
{
    let mut r: Vec<u8> = Vec::new();
    let mut i: usize = 0;
    while i < len
        invariant
            i <= len,
            r@ == Seq::new(i as nat, |k: int| 0u8),
        decreases len - i,
    {
        r.push(0);
        i = i + 1;
        assert(r@ =~= Seq::new(i as nat, |k: int| 0u8));
    }
    r
}

/// Buffers that are used again for each tile.
pub struct TileScratch {
    pub pixels: Vec<u8>,
    pub bands: Vec<Vec<u8>>,
}

impl TileScratch {
    /// Empty buffers.
    pub fn new() -> (r: TileScratch)
        ensures
            r.pixels@.len() == 0,
            r.bands@.len() == 0,
    {
        TileScratch { pixels: Vec::new(), bands: Vec::new() }
    }
}

/// The byte of a tile for column `x`, row `y` and a band is the one of the block that many columns
/// to the right of the left side of the tile, and that many rows below its upper side.
pub proof fn law_tile_bytes_are_chunk_bytes(
    chunk: NativeChunk,
    job: TileJob,
    tile_size: u32,
    tile: TilePixels,
    x: int,
    y: int,
    band: int,
)
    requires
        chunk.min_x <= job.x,
        chunk.min_y <= job.y,
        chunk.start(job, tile_size) + chunk.extent(tile_size) <= chunk.pixels@.len(),
        tile.tile_size == tile_size,
        tile.band_count == chunk.band_count,
        tile.row_stride == chunk.width * chunk.band_count,
        tile.pixels@ == chunk.pixels@.subrange(
            chunk.start(job, tile_size),
            chunk.start(job, tile_size) + chunk.extent(tile_size),
        ),
        0 <= x < tile_size,
        0 <= y < tile_size,
        0 <= band < chunk.band_count,
    ensures
        tile.pixels@[y * tile.row_stride + x * tile.band_count + band] == chunk.pixels@[(((job.y
            - chunk.min_y) * tile_size + y) * chunk.width + ((job.x - chunk.min_x) * tile_size
            + x)) * chunk.band_count + band],
        tile.at(x, y, band) == tile.pixels@[y * tile.row_stride + x * tile.band_count + band],
{
    law_tile_shows_chunk(chunk, job, tile_size, tile, x, y, band);
}

/// A tile is refused only where the block does not hold all of its pixels: the last byte of the
/// tile is the one for its last column, row and band.
pub proof fn law_tile_extent(chunk: NativeChunk, job: TileJob, tile_size: u32)
    requires
        tile_size > 0,
        chunk.band_count > 0,
        chunk.min_x <= job.x,
        chunk.min_y <= job.y,
    ensures
        chunk.start(job, tile_size) + chunk.extent(tile_size) == (((job.y - chunk.min_y)
            * tile_size + (tile_size - 1)) * chunk.width + ((job.x - chunk.min_x) * tile_size + (
        tile_size - 1))) * chunk.band_count + chunk.band_count,
{
    let w = chunk.width as int;
    let n = chunk.band_count as int;
    let t = tile_size as int;
    let left = (job.x - chunk.min_x) * tile_size;
    let top = (job.y - chunk.min_y) * tile_size;
    assert((top * w + left) * n + ((t - 1) * (w * n) + t * n) == ((top + (t - 1)) * w + (left + (t
        - 1))) * n + n) by (nonlinear_arith);
}

/// The value of a band for column `x` and row `y` of a tile.
pub proof fn law_band_values(tile: TilePixels, band: int, x: int, y: int)
    requires
        0 <= x < tile.tile_size,
        0 <= y < tile.tile_size,
    ensures
        band_of(tile, band).len() == tile.tile_size * tile.tile_size,
        band_of(tile, band)[y * tile.tile_size + x] == tile.pixels@[y * tile.row_stride + x
            * tile.band_count + band],
{
    let n = tile.tile_size as int;
    lemma_place(x, y, n);
    assert(0 <= y * n + x < n * n) by (nonlinear_arith)
        requires
            0 <= x < n,
            0 <= y < n,
    ;
}

/// The bands of each pixel stand side by side, and the pixels one after the other.
pub proof fn law_interleaved_values(bands: Seq<Vec<u8>>, pixel_count: nat, pixel: int, band: int)
    requires
        0 <= pixel < pixel_count,
        0 <= band < bands.len(),
    ensures
        interleaved(bands, pixel_count).len() == pixel_count * bands.len(),
        interleaved(bands, pixel_count)[pixel * bands.len() + band] == bands[band]@[pixel],
{
    let n = bands.len() as int;
    lemma_place(band, pixel, n);
    assert(0 <= pixel * n + band < pixel_count * n) by (nonlinear_arith)
        requires
            0 <= band < n,
            0 <= pixel < pixel_count,
    ;
}

} // verus!
