//! Build, inspect and plan PMTiles raster archives.
pub mod archive;
pub mod args;
pub mod bytes;
pub mod chunking;
pub mod commands;
pub mod directory;
pub mod error;
pub mod header;
pub mod jobs;
pub mod leaves;
pub mod metadata;
pub mod numbers;
pub mod options;
pub mod order;
pub mod pack;
pub mod pixels;
pub mod render;
pub mod report;
pub mod stream;
pub mod text;
pub mod tile_id;
pub mod varint;
