//! One loaded tile: format detection and point sampling.
//!
//! A tile file is a row-major grid of `N x N` big-endian 16-bit signed
//! samples, `N` either 1201 (coarse) or 3601 (fine); sample `(0, 0)` is
//! the northwest corner, rows grow southward, columns grow eastward.
//! The file length alone decides the grid size; any other length is a
//! format error.  Point queries snap the continuous grid position to a
//! sample index by rounding or by flooring, or blend the four
//! surrounding samples bilinearly.

use vstd::prelude::*;
use crate::coord::{Coord, floor_deg, frac_micro, frac_degrees, floor_degrees, spec_valid_coord};
use crate::error::SrtmError;

verus! {

/// Sample value that marks "no data" (void).
pub const VOID_VALUE: i16 = -32768;

/// Byte length of a fine-grid tile: 3601 * 3601 samples, 2 bytes each.
pub const SRTM1_SIZE: usize = 3601 * 3601 * 2;

/// Byte length of a coarse-grid tile: 1201 * 1201 samples, 2 bytes each.
pub const SRTM3_SIZE: usize = 1201 * 1201 * 2;

/// Samples per row and column of a fine-grid tile.
pub const SRTM1_SAMPLES: usize = 3601;

/// Samples per row and column of a coarse-grid tile.
pub const SRTM3_SAMPLES: usize = 1201;

/// Fixed-point scale of interpolated elevations: the two blend weights
/// each carry a denominator of 1,000,000.
pub const INTERP_SCALE: i64 = 1_000_000_000_000;

/// Grid resolution of a tile.
#[derive(Debug, Clone, Copy, PartialEq, Eq, Structural)]
pub enum SrtmResolution {
    /// Fine grid: 3601 x 3601 samples, about 30 m spacing.
    Srtm1,
    /// Coarse grid: 1201 x 1201 samples, about 90 m spacing.
    Srtm3,
}

impl SrtmResolution {
    /// Samples per row and column for this resolution.
    pub fn samples(&self) -> (n: usize)
        ensures
            n == (if self is Srtm1 { 3601int } else { 1201int }),
    {
        match self {
            SrtmResolution::Srtm1 => SRTM1_SAMPLES,
            SrtmResolution::Srtm3 => SRTM3_SAMPLES,
        }
    }

    /// Approximate sample spacing in meters.
    pub fn meters(&self) -> (m: u64)
        ensures
            m == (if self is Srtm1 { 30int } else { 90int }),
    {
        match self {
            SrtmResolution::Srtm1 => 30,
            SrtmResolution::Srtm3 => 90,
        }
    }
}

/// The signed 16-bit value stored big-endian as the byte pair
/// `(hi, lo)`.
pub open spec fn spec_i16_be(hi: u8, lo: u8) -> i16 {
    if 256 * (hi as int) + (lo as int) >= 32768 {
        (256 * (hi as int) + (lo as int) - 65536) as i16
    } else {
        (256 * (hi as int) + (lo as int)) as i16
    }
}

/// The sample at `(row, col)` of an `n x n` grid stored row-major in
/// `data`, two bytes per sample, big-endian.
pub open spec fn spec_sample(data: Seq<u8>, n: int, row: int, col: int) -> i16 {
    spec_i16_be(data[2 * (row * n + col)], data[2 * (row * n + col) + 1])
}

/// Numerator (over 1,000,000) of the continuous row position of a
/// latitude within its tile: row 0 is the north edge, so the position
/// is `(1 - lat_frac) * (n - 1)`.
pub open spec fn spec_row_num(lat_micro: int, n: int) -> int {
    (1_000_000 - frac_micro(lat_micro)) * (n - 1)
}

/// Numerator (over 1,000,000) of the continuous column position of a
/// longitude within its tile: `lon_frac * (n - 1)`.
pub open spec fn spec_col_num(lon_micro: int, n: int) -> int {
    frac_micro(lon_micro) * (n - 1)
}

/// Nearest sample index for a continuous position `num / 1,000,000`,
/// rounding half up.
pub open spec fn spec_round_idx(num: int) -> int {
    (num + 500_000) / 1_000_000
}

/// Southwest-biased sample index for a continuous position
/// `num / 1,000,000`: the floor.
pub open spec fn spec_floor_idx(num: int) -> int {
    num / 1_000_000
}

/// A tile loaded into memory: the raw sample bytes plus the grid size
/// detected from their length and the southwest corner the tile was
/// loaded for.
pub struct SrtmTile {
    /// Raw file bytes: `samples * samples` big-endian 16-bit values.
    pub data: Vec<u8>,
    /// Samples per row and column: 1201 or 3601.
    pub samples: usize,
    /// Grid resolution, matching `samples`.
    pub resolution: SrtmResolution,
    /// Whole-degree latitude of the southwest corner.
    pub base_lat: i32,
    /// Whole-degree longitude of the southwest corner.
    pub base_lon: i32,
}

impl SrtmTile {
    /// The tile's structural invariant: the byte buffer length matches
    /// the grid size exactly, and the resolution tag agrees with it.
    pub open spec fn wf(&self) -> bool {
        &&& (self.samples == 1201 || self.samples == 3601)
        &&& self.data@.len() == self.samples * self.samples * 2
        &&& (self.resolution is Srtm1 <==> self.samples == 3601)
    }

    /// The raw bytes of the tile.
    pub open spec fn spec_data(&self) -> Seq<u8> {
        self.data@
    }

    /// The grid size.
    pub open spec fn spec_samples(&self) -> int {
        self.samples as int
    }

    /// Whether `c` falls in this tile's 1 x 1 degree cell.
    pub open spec fn spec_contains(&self, c: Coord) -> bool {
        floor_deg(c.lat_micro as int) == self.base_lat && floor_deg(c.lon_micro as int)
            == self.base_lon
    }

    /// The sample this tile stores at `(row, col)`.
    pub open spec fn spec_sample_at(&self, row: int, col: int) -> i16 {
        spec_sample(self.data@, self.samples as int, row, col)
    }

    /// The sample a nearest-neighbor query for `c` reads.
    pub open spec fn spec_nearest(&self, c: Coord) -> i16 {
        self.spec_sample_at(
            spec_round_idx(spec_row_num(c.lat_micro as int, self.samples as int)),
            spec_round_idx(spec_col_num(c.lon_micro as int, self.samples as int)),
        )
    }

    /// The sample a floor-rounding query for `c` reads.
    pub open spec fn spec_floor_sample(&self, c: Coord) -> i16 {
        self.spec_sample_at(
            spec_floor_idx(spec_row_num(c.lat_micro as int, self.samples as int)),
            spec_floor_idx(spec_col_num(c.lon_micro as int, self.samples as int)),
        )
    }

    /// The result of a bilinear interpolation query for `c`: `None`
    /// when any of the four surrounding samples is void, else the
    /// blended elevation scaled by `INTERP_SCALE`.
    pub open spec fn spec_interpolated(&self, c: Coord) -> Option<i64> {
        let n = self.samples as int;
        let row_num = spec_row_num(c.lat_micro as int, n);
        let col_num = spec_col_num(c.lon_micro as int, n);
        let r0 = spec_floor_idx(row_num);
        let c0 = spec_floor_idx(col_num);
        let r1 = if r0 + 1 < n { r0 + 1 } else { n - 1 };
        let c1 = if c0 + 1 < n { c0 + 1 } else { n - 1 };
        let rw = row_num % 1_000_000;
        let cw = col_num % 1_000_000;
        let v00 = self.spec_sample_at(r0, c0);
        let v10 = self.spec_sample_at(r0, c1);
        let v01 = self.spec_sample_at(r1, c0);
        let v11 = self.spec_sample_at(r1, c1);
        if v00 == VOID_VALUE || v10 == VOID_VALUE || v01 == VOID_VALUE || v11 == VOID_VALUE {
            None
        } else {
            Some(
                (
                (v00 as int) * ((1_000_000 - rw) * (1_000_000 - cw)) + (v10 as int) * ((1_000_000
                    - rw) * cw) + (v01 as int) * (rw * (1_000_000 - cw)) + (v11 as int) * (rw * cw)
                ) as i64,
            )
        }
    }

    /// Detect the grid size from the byte count and build the tile.
    /// Exactly 25,934,402 bytes is the fine grid, exactly 2,884,802
    /// bytes the coarse grid; any other length is a format error
    /// carrying the observed length.
    pub fn from_bytes(data: Vec<u8>, base_lat: i32, base_lon: i32) -> (r: Result<
        SrtmTile,
        SrtmError,
    >)
        ensures
            r is Ok <==> (data@.len() == 25_934_402 || data@.len() == 2_884_802),
            r matches Ok(t) ==> {
                &&& t.wf()
                &&& t.spec_data() == data@
                &&& t.spec_samples() == (if data@.len() == 25_934_402 { 3601int } else { 1201int })
                &&& t.base_lat == base_lat
                &&& t.base_lon == base_lon
            },
            r matches Err(e) ==> e matches SrtmError::InvalidFileSize { size } && size
                == data@.len(),
    {
        let len: usize = data.len();
        if len == SRTM1_SIZE {
            Ok(SrtmTile {
                data,
                samples: SRTM1_SAMPLES,
                resolution: SrtmResolution::Srtm1,
                base_lat,
                base_lon,
            })
        } else if len == SRTM3_SIZE {
            Ok(SrtmTile {
                data,
                samples: SRTM3_SAMPLES,
                resolution: SrtmResolution::Srtm3,
                base_lat,
                base_lon,
            })
        } else {
            Err(SrtmError::InvalidFileSize { size: len })
        }
    }

    /// Grid resolution of this tile.
    pub fn resolution(&self) -> (r: SrtmResolution)
        requires
            self.wf(),
        ensures
            r is Srtm1 <==> self.spec_samples() == 3601,
            r == self.resolution,
    {
        self.resolution
    }

    /// Samples per row and column.
    pub fn samples(&self) -> (n: usize)
        ensures
            n == self.spec_samples(),
    {
        self.samples
    }

    /// Whole-degree latitude of the southwest corner.
    pub fn base_lat(&self) -> (r: i32)
        ensures
            r == self.base_lat,
    {
        self.base_lat
    }

    /// Whole-degree longitude of the southwest corner.
    pub fn base_lon(&self) -> (r: i32)
        ensures
            r == self.base_lon,
    {
        self.base_lon
    }

    /// Read the sample at `(row, col)`; row 0 is the north edge,
    /// column 0 the west edge.
    pub fn sample_at(&self, row: usize, col: usize) -> (v: i16)
        requires
            self.wf(),
            row < self.spec_samples(),
            col < self.spec_samples(),
        ensures
            v == self.spec_sample_at(row as int, col as int),
    {
        let n: usize = self.samples;
        proof {
            assert(row * n + col < n * n) by (nonlinear_arith)
                requires
                    row < n,
                    col < n,
            ;
            assert(2 * (row * n + col) + 1 < 2 * (n * n));
        }
        let off: usize = 2 * (row * n + col);
        let hi: u8 = self.data[off];
        let lo: u8 = self.data[off + 1];
        let wide: i32 = 256 * (hi as i32) + (lo as i32);
        if wide >= 32768 {
            (wide - 65536) as i16
        } else {
            wide as i16
        }
    }

    /// Nearest-neighbor elevation at `c`, rounding the continuous grid
    /// position half up in both axes.  Errs when `c` lies outside this
    /// tile's cell.
    pub fn get_elevation(&self, c: Coord) -> (r: Result<i16, SrtmError>)
        requires
            self.wf(),
            spec_valid_coord(c),
        ensures
            r is Ok <==> self.spec_contains(c),
            r matches Ok(v) ==> v == self.spec_nearest(c),
    {
        let (row_num, col_num) = match self.grid_position(c) {
            Ok(p) => p,
            Err(e) => {
                return Err(e);
            },
        };
        let row: u64 = (row_num + 500_000) / 1_000_000;
        let col: u64 = (col_num + 500_000) / 1_000_000;
        proof {
            self.lemma_round_idx_in_range(c);
        }
        Ok(self.sample_at(row as usize, col as usize))
    }

    /// Floor-rounding elevation at `c`: both indices are rounded down,
    /// matching reference tools that always truncate toward the
    /// southwest.  Errs when `c` lies outside this tile's cell.
    pub fn get_elevation_floor(&self, c: Coord) -> (r: Result<i16, SrtmError>)
        requires
            self.wf(),
            spec_valid_coord(c),
        ensures
            r is Ok <==> self.spec_contains(c),
            r matches Ok(v) ==> v == self.spec_floor_sample(c),
    {
        let (row_num, col_num) = match self.grid_position(c) {
            Ok(p) => p,
            Err(e) => {
                return Err(e);
            },
        };
        let row: u64 = row_num / 1_000_000;
        let col: u64 = col_num / 1_000_000;
        proof {
            self.lemma_floor_idx_in_range(c);
        }
        Ok(self.sample_at(row as usize, col as usize))
    }

    /// Bilinearly interpolated elevation at `c`, scaled by
    /// `INTERP_SCALE`.  Returns `Ok(None)` when any of the four
    /// surrounding samples is void; errs when `c` lies outside this
    /// tile's cell.
    pub fn get_elevation_interpolated(&self, c: Coord) -> (r: Result<Option<i64>, SrtmError>)
        requires
            self.wf(),
            spec_valid_coord(c),
        ensures
            r is Ok <==> self.spec_contains(c),
            r matches Ok(v) ==> v == self.spec_interpolated(c),
    {
        let (row_num, col_num) = match self.grid_position(c) {
            Ok(p) => p,
            Err(e) => {
                return Err(e);
            },
        };
        let n: usize = self.samples;
        let r0: u64 = row_num / 1_000_000;
        let c0: u64 = col_num / 1_000_000;
        proof {
            self.lemma_floor_idx_in_range(c);
        }
        let r1: u64 = if r0 + 1 < n as u64 { r0 + 1 } else { (n - 1) as u64 };
        let c1: u64 = if c0 + 1 < n as u64 { c0 + 1 } else { (n - 1) as u64 };
        let rw: i64 = (row_num % 1_000_000) as i64;
        let cw: i64 = (col_num % 1_000_000) as i64;
        let v00: i16 = self.sample_at(r0 as usize, c0 as usize);
        let v10: i16 = self.sample_at(r0 as usize, c1 as usize);
        let v01: i16 = self.sample_at(r1 as usize, c0 as usize);
        let v11: i16 = self.sample_at(r1 as usize, c1 as usize);
        if v00 == VOID_VALUE || v10 == VOID_VALUE || v01 == VOID_VALUE || v11 == VOID_VALUE {
            return Ok(None);
        }
        proof {
            lemma_interp_term_bounds(v00 as int, 1_000_000 - rw as int, 1_000_000 - cw as int);
            lemma_interp_term_bounds(v10 as int, 1_000_000 - rw as int, cw as int);
            lemma_interp_term_bounds(v01 as int, rw as int, 1_000_000 - cw as int);
            lemma_interp_term_bounds(v11 as int, rw as int, cw as int);
        }
        let num: i64 = (v00 as i64) * ((1_000_000 - rw) * (1_000_000 - cw)) + (v10 as i64) * ((
        1_000_000 - rw) * cw) + (v01 as i64) * (rw * (1_000_000 - cw)) + (v11 as i64) * (rw * cw);
        Ok(Some(num))
    }

    /// Locate `c` within this tile: the numerators (over 1,000,000) of
    /// the continuous row and column positions.  Errs with
    /// `OutOfBounds` when `c`'s tile key is not this tile's base.
    fn grid_position(&self, c: Coord) -> (r: Result<(u64, u64), SrtmError>)
        requires
            self.wf(),
            spec_valid_coord(c),
        ensures
            r is Ok <==> self.spec_contains(c),
            r matches Ok(p) ==> {
                &&& p.0 == spec_row_num(c.lat_micro as int, self.spec_samples())
                &&& p.1 == spec_col_num(c.lon_micro as int, self.spec_samples())
                &&& p.0 <= 1_000_000 * (self.spec_samples() - 1)
                &&& p.1 < 1_000_000 * (self.spec_samples() - 1)
            },
            r matches Err(e) ==> e matches SrtmError::OutOfBounds { coord } && coord == c,
    {
        let lat_floor: i64 = floor_degrees(c.lat_micro);
        let lon_floor: i64 = floor_degrees(c.lon_micro);
        if lat_floor != self.base_lat as i64 || lon_floor != self.base_lon as i64 {
            return Err(SrtmError::OutOfBounds { coord: c });
        }
        let lat_frac: i64 = frac_degrees(c.lat_micro);
        let lon_frac: i64 = frac_degrees(c.lon_micro);
        let n: u64 = self.samples as u64;
        let row_num: u64 = ((1_000_000 - lat_frac) as u64) * (n - 1);
        let col_num: u64 = (lon_frac as u64) * (n - 1);
        proof {
            assert(row_num <= 1_000_000 * (n - 1)) by (nonlinear_arith)
                requires
                    row_num == (1_000_000 - frac_micro(c.lat_micro as int)) * (n - 1),
                    0 <= frac_micro(c.lat_micro as int) < 1_000_000,
                    n >= 1201,
            ;
            assert(col_num < 1_000_000 * (n - 1)) by (nonlinear_arith)
                requires
                    col_num == frac_micro(c.lon_micro as int) * (n - 1),
                    0 <= frac_micro(c.lon_micro as int) < 1_000_000,
                    n >= 1201,
            ;
        }
        Ok((row_num, col_num))
    }

    /// Rounded indices stay inside the grid.
    proof fn lemma_round_idx_in_range(&self, c: Coord)
        requires
            self.wf(),
        ensures
            0 <= spec_round_idx(spec_row_num(c.lat_micro as int, self.spec_samples()))
                < self.spec_samples(),
            0 <= spec_round_idx(spec_col_num(c.lon_micro as int, self.spec_samples()))
                < self.spec_samples(),
    {
        let n = self.spec_samples();
        let f_lat = frac_micro(c.lat_micro as int);
        let f_lon = frac_micro(c.lon_micro as int);
        assert(0 <= f_lat < 1_000_000 && 0 <= f_lon < 1_000_000) by {
            vstd::arithmetic::div_mod::lemma_mod_bound(c.lat_micro as int, 1_000_000int);
            vstd::arithmetic::div_mod::lemma_mod_bound(c.lon_micro as int, 1_000_000int);
        }
        assert(0 <= spec_row_num(c.lat_micro as int, n) <= 1_000_000 * (n - 1)) by (
        nonlinear_arith)
            requires
                0 <= f_lat < 1_000_000,
                n >= 1201,
                spec_row_num(c.lat_micro as int, n) == (1_000_000 - f_lat) * (n - 1),
        ;
        assert(0 <= spec_col_num(c.lon_micro as int, n) < 1_000_000 * (n - 1)) by (nonlinear_arith)
            requires
                0 <= f_lon < 1_000_000,
                n >= 1201,
                spec_col_num(c.lon_micro as int, n) == f_lon * (n - 1),
        ;
        lemma_round_idx_bound(spec_row_num(c.lat_micro as int, n), n);
        lemma_round_idx_bound(spec_col_num(c.lon_micro as int, n), n);
    }

    /// Floored indices stay inside the grid.
    proof fn lemma_floor_idx_in_range(&self, c: Coord)
        requires
            self.wf(),
        ensures
            0 <= spec_floor_idx(spec_row_num(c.lat_micro as int, self.spec_samples()))
                < self.spec_samples(),
            0 <= spec_floor_idx(spec_col_num(c.lon_micro as int, self.spec_samples()))
                < self.spec_samples(),
    {
        let n = self.spec_samples();
        let f_lat = frac_micro(c.lat_micro as int);
        let f_lon = frac_micro(c.lon_micro as int);
        assert(0 <= f_lat < 1_000_000 && 0 <= f_lon < 1_000_000) by {
            vstd::arithmetic::div_mod::lemma_mod_bound(c.lat_micro as int, 1_000_000int);
            vstd::arithmetic::div_mod::lemma_mod_bound(c.lon_micro as int, 1_000_000int);
        }
        assert(0 <= spec_row_num(c.lat_micro as int, n) <= 1_000_000 * (n - 1)) by (
        nonlinear_arith)
            requires
                0 <= f_lat < 1_000_000,
                n >= 1201,
                spec_row_num(c.lat_micro as int, n) == (1_000_000 - f_lat) * (n - 1),
        ;
        assert(0 <= spec_col_num(c.lon_micro as int, n) < 1_000_000 * (n - 1)) by (nonlinear_arith)
            requires
                0 <= f_lon < 1_000_000,
                n >= 1201,
                spec_col_num(c.lon_micro as int, n) == f_lon * (n - 1),
        ;
        lemma_floor_idx_bound(spec_row_num(c.lat_micro as int, n), n);
        lemma_floor_idx_bound(spec_col_num(c.lon_micro as int, n), n);
    }


    /// A void sample among the four interpolation corners makes the
    /// interpolated result "no data", whatever the other three hold.
    pub proof fn lemma_interpolation_void_propagates(&self, c: Coord)
        requires
            ({
                let n = self.spec_samples();
                let r0 = spec_floor_idx(spec_row_num(c.lat_micro as int, n));
                let c0 = spec_floor_idx(spec_col_num(c.lon_micro as int, n));
                let r1 = if r0 + 1 < n { r0 + 1 } else { n - 1 };
                let c1 = if c0 + 1 < n { c0 + 1 } else { n - 1 };
                self.spec_sample_at(r0, c0) == VOID_VALUE || self.spec_sample_at(r0, c1)
                    == VOID_VALUE || self.spec_sample_at(r1, c0) == VOID_VALUE
                    || self.spec_sample_at(r1, c1) == VOID_VALUE
            }),
        ensures
            self.spec_interpolated(c) is None,
    {
    }

    /// At an exact grid point (both fractional grid offsets zero) with
    /// all four surrounding samples non-void, the interpolated value is
    /// exactly the nearest-neighbor sample, scaled by `INTERP_SCALE`.
    pub proof fn lemma_interpolation_exact_at_grid_point(&self, c: Coord)
        requires
            self.wf(),
            spec_row_num(c.lat_micro as int, self.spec_samples()) % 1_000_000 == 0,
            spec_col_num(c.lon_micro as int, self.spec_samples()) % 1_000_000 == 0,
            self.spec_interpolated(c) is Some,
        ensures
            self.spec_interpolated(c) == Some(
                ((self.spec_nearest(c) as int) * (INTERP_SCALE as int)) as i64,
            ),
    {
        let n = self.spec_samples();
        let row_num = spec_row_num(c.lat_micro as int, n);
        let col_num = spec_col_num(c.lon_micro as int, n);
        vstd::arithmetic::div_mod::lemma_fundamental_div_mod(row_num, 1_000_000int);
        vstd::arithmetic::div_mod::lemma_fundamental_div_mod(col_num, 1_000_000int);
        assert(spec_round_idx(row_num) == spec_floor_idx(row_num)) by {
            lemma_round_of_exact(row_num);
        }
        assert(spec_round_idx(col_num) == spec_floor_idx(col_num)) by {
            lemma_round_of_exact(col_num);
        }
        let r0 = spec_floor_idx(row_num);
        let c0 = spec_floor_idx(col_num);
        let v00 = self.spec_sample_at(r0, c0) as int;
        assert(v00 * ((1_000_000int - 0) * (1_000_000int - 0)) == v00 * 1_000_000_000_000) by (
        nonlinear_arith);
        assert(-32768 * 1_000_000_000_000 <= v00 * 1_000_000_000_000 <= 32767
            * 1_000_000_000_000) by (nonlinear_arith)
            requires
                -32768 <= v00 <= 32767,
        ;
    }
}

/// When the fractional offset of `num / 1,000,000` is zero, rounding
/// and flooring agree.
proof fn lemma_round_of_exact(num: int)
    requires
        num >= 0,
        num % 1_000_000 == 0,
    ensures
        spec_round_idx(num) == spec_floor_idx(num),
{
    vstd::arithmetic::div_mod::lemma_fundamental_div_mod(num, 1_000_000int);
    vstd::arithmetic::div_mod::lemma_div_multiples_vanish_fancy(
        num / 1_000_000,
        500_000int,
        1_000_000int,
    );
}

/// A rounded index of a position no greater than `n - 1` stays below
/// `n`.
proof fn lemma_round_idx_bound(num: int, n: int)
    requires
        0 <= num <= 1_000_000 * (n - 1),
        n >= 2,
    ensures
        0 <= spec_round_idx(num) <= n - 1,
{
    assert(num + 500_000 < 1_000_000 * n);
    assert(spec_round_idx(num) < n) by {
        vstd::arithmetic::div_mod::lemma_multiply_divide_lt(num + 500_000, 1_000_000int, n);
    }
    assert(spec_round_idx(num) >= 0) by {
        vstd::arithmetic::div_mod::lemma_div_pos_is_pos(num + 500_000, 1_000_000int);
    }
}

/// A floored index of a position no greater than `n - 1` stays below
/// `n`.
proof fn lemma_floor_idx_bound(num: int, n: int)
    requires
        0 <= num <= 1_000_000 * (n - 1),
        n >= 2,
    ensures
        0 <= spec_floor_idx(num) <= n - 1,
{
    assert(num < 1_000_000 * n);
    assert(spec_floor_idx(num) < n) by {
        vstd::arithmetic::div_mod::lemma_multiply_divide_lt(num, 1_000_000int, n);
    }
    assert(spec_floor_idx(num) >= 0) by {
        vstd::arithmetic::div_mod::lemma_div_pos_is_pos(num, 1_000_000int);
    }
}

/// Each term of the bilinear blend is bounded by the sample range
/// times the squared weight scale.
proof fn lemma_interp_term_bounds(v: int, a: int, b: int)
    requires
        -32768 <= v <= 32767,
        0 <= a <= 1_000_000,
        0 <= b <= 1_000_000,
    ensures
        -32768 * 1_000_000_000_000 <= v * (a * b) <= 32767 * 1_000_000_000_000,
        0 <= a * b <= 1_000_000_000_000,
    decreases 0int,
{
    assert(0 <= a * b <= 1_000_000_000_000) by (nonlinear_arith)
        requires
            0 <= a <= 1_000_000,
            0 <= b <= 1_000_000,
    ;
    assert(-32768 * 1_000_000_000_000 <= v * (a * b) <= 32767 * 1_000_000_000_000) by (
    nonlinear_arith)
        requires
            -32768 <= v <= 32767,
            0 <= a * b <= 1_000_000_000_000,
    ;
}

} // verus!
