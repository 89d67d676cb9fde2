//! Error taxonomy for tile access.

use vstd::prelude::*;
use crate::coord::Coord;

verus! {

/// Errors that can occur when resolving coordinates or loading tiles.
///
/// A missing tile is a data-availability fact, not an error: the query
/// methods recover it into `Ok(None)`.  The variants here are the hard
/// failures (bad input coordinates, corrupt file, I/O trouble) and the
/// acquisition failures that the loading side reduces to "tile not
/// available" before they ever reach a query result.
#[derive(Clone, Debug)]
pub enum SrtmError {
    /// A filesystem failure reading or mapping a file that does exist.
    Io { message: String },
    /// On-disk byte count matches neither supported grid size.
    InvalidFileSize { size: usize },
    /// Coordinate outside the dataset's coverage envelope.
    OutOfBounds { coord: Coord },
    /// The required tile file was not found on disk.
    FileNotFound { path: String },
    /// No local file and acquisition did not produce one.
    TileNotAvailable { filename: String },
    /// Acquisition (download or archive extraction) failed.
    DownloadFailed { filename: String, reason: String },
    /// A malformed coordinate value was handed in.
    InvalidCoordinate { message: String },
}

} // verus!
