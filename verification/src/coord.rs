//! Coordinates in exact micro-degrees and their resolution to tile keys.
//!
//! A [`Coord`] holds latitude and longitude as integers scaled by
//! 1,000,000, so a tile key (the whole-degree southwest corner of the
//! 1 x 1 degree cell containing the point) is computed by exact floor
//! division, never by float truncation.

use vstd::prelude::*;

verus! {

/// Number of micro-degrees in one degree.
pub const MICRO_PER_DEG: i64 = 1_000_000;

/// A geographic point: latitude and longitude in micro-degrees
/// (one millionth of a degree).
#[derive(Clone, Copy, PartialEq, Eq, Structural, Debug)]
pub struct Coord {
    /// Latitude in micro-degrees; 35_500_000 is 35.5 degrees north.
    pub lat_micro: i64,
    /// Longitude in micro-degrees; -500_000 is 0.5 degrees west.
    pub lon_micro: i64,
}

/// Identifies one tile by the whole-degree coordinates of its
/// southwest corner.
#[derive(Clone, Copy, PartialEq, Eq, Structural, Debug, Hash)]
pub struct TileKey {
    /// Whole-degree latitude of the southwest corner.
    pub lat: i32,
    /// Whole-degree longitude of the southwest corner.
    pub lon: i32,
}

/// Floor of a micro-degree value to whole degrees.  Spec-level `/` is
/// Euclidean division, which is floor division for a positive divisor.
pub open spec fn floor_deg(m: int) -> int {
    m / 1_000_000
}

/// The fractional part of a micro-degree value, in micro-degrees:
/// `m - 1_000_000 * floor_deg(m)`, always in `[0, 1_000_000)`.
pub open spec fn frac_micro(m: int) -> int {
    m % 1_000_000
}

/// The dataset covers latitudes -60..=60 and longitudes -180..=180
/// degrees.
pub open spec fn spec_valid_coord(c: Coord) -> bool {
    &&& -60 * 1_000_000 <= c.lat_micro <= 60 * 1_000_000
    &&& -180 * 1_000_000 <= c.lon_micro <= 180 * 1_000_000
}

impl Coord {
    /// Build a coordinate from micro-degree components.
    pub fn new(lat_micro: i64, lon_micro: i64) -> (c: Coord)
        ensures
            c.lat_micro == lat_micro,
            c.lon_micro == lon_micro,
    {
        Coord { lat_micro, lon_micro }
    }
}

/// Floor division of micro-degrees to whole degrees, exact for
/// negative values as well: -12.3 degrees floors to -13.
pub fn floor_degrees(m: i64) -> (d: i64)
    requires
        -181 * 1_000_000 <= m <= 181 * 1_000_000,
    ensures
        d == floor_deg(m as int),
{
    if m >= 0 {
        m / 1_000_000
    } else {
        let neg: i64 = -m;
        let q: i64 = neg / 1_000_000;
        let r: i64 = neg % 1_000_000;
        if r == 0 {
            -q
        } else {
            proof {
                vstd::arithmetic::div_mod::lemma_fundamental_div_mod(neg as int, 1_000_000int);
                vstd::arithmetic::div_mod::lemma_fundamental_div_mod(m as int, 1_000_000int);
                vstd::arithmetic::div_mod::lemma_div_basics(1_000_000int);
            }
            -q - 1
        }
    }
}

/// Fractional micro-degrees within the degree cell, in `[0, 1_000_000)`.
pub fn frac_degrees(m: i64) -> (f: i64)
    requires
        -181 * 1_000_000 <= m <= 181 * 1_000_000,
    ensures
        f == frac_micro(m as int),
        0 <= f < 1_000_000,
{
    let d: i64 = floor_degrees(m);
    proof {
        vstd::arithmetic::div_mod::lemma_fundamental_div_mod(m as int, 1_000_000int);
    }
    m - d * 1_000_000
}

/// True iff the coordinate lies inside the dataset's coverage envelope:
/// latitude in [-60, 60] and longitude in [-180, 180] degrees.
pub fn is_valid_srtm_coord(c: Coord) -> (r: bool)
    ensures
        r == spec_valid_coord(c),
{
    -60 * MICRO_PER_DEG <= c.lat_micro && c.lat_micro <= 60 * MICRO_PER_DEG
        && -180 * MICRO_PER_DEG <= c.lon_micro && c.lon_micro <= 180 * MICRO_PER_DEG
}

/// The tile key for a coordinate: the floor of each component.
pub fn to_tile_key(c: Coord) -> (k: TileKey)
    requires
        spec_valid_coord(c),
    ensures
        k.lat == floor_deg(c.lat_micro as int),
        k.lon == floor_deg(c.lon_micro as int),
{
    let lat: i64 = floor_degrees(c.lat_micro);
    let lon: i64 = floor_degrees(c.lon_micro);
    TileKey { lat: lat as i32, lon: lon as i32 }
}

} // verus!
