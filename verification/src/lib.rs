//! Random-access elevation lookup over a tiled, gridded terrain dataset.
//!
//! Elevation samples are stored in fixed-format binary tiles, one per
//! 1 x 1 degree cell.  The crate resolves coordinates to tile keys and
//! filenames, parses raw tile bytes into an indexable sample grid,
//! answers point queries under two rounding conventions or by bilinear
//! interpolation, and keeps a bounded, recency-evicting cache of loaded
//! tiles so that batches of nearby queries share a handful of tile loads.
//!
//! Coordinates are carried as exact micro-degree integers, so every
//! grid-index computation in this crate is exact integer arithmetic.

pub mod coord;
pub mod download;
pub mod filename;
pub mod preload;
pub mod service;
pub mod tile;
pub mod error;

pub use coord::{Coord, TileKey};
pub use error::SrtmError;
pub use service::{CacheStats, SrtmService, SrtmServiceBuilder};
pub use tile::{SrtmResolution, SrtmTile, VOID_VALUE};
