# pmtiler

Creates PMTiles archives from raster map tiles and from rasters that GDAL can read. The logic is a
library that Verus verifies; a thin program around it does the reading, warping and writing.

## Layout

- `src/` is the library.
  - Archives: `tile_id`, `varint`, `directory`, `leaves`, `bytes`, `header`, `archive`.
  - Rendering: `jobs`, `chunking`, `render`, `stream`, `pixels`.
  - Packing a directory of tiles: `pack`, `metadata`.
  - The command line: `options`, `args`, `commands`.
  - What is shown: `numbers`, `text`, `report`.
  - Shared: `error`, `order`.
- `app/` is the `pmtiler` program: files, threads, GDAL, libwebp and floating point.
- `tests/` run the library.

## What is proved

Each function states in its contract what it returns, and on which inputs it fails with which
message. Properties of several functions together are proof functions whose names start with
`law_`. The most important ones:

- The numbers of the tiles of a zoom level are consecutive and follow a curve from neighbour to
  neighbour (`tile_id`).
- A directory, split into leaves or not, is read back as it was written (`directory`, `leaves`).
- A header points to the sections of its archive, and the directories of an archive to the data of
  each tile (`archive`).
- Tiles are written in the order of their numbers, whatever the order in which they are rendered,
  and none is lost (`jobs`, `stream`).

The one item of the standard library whose behaviour is taken for granted here is `String::push`
(`text`); all others come with specifications in `vstd`.
