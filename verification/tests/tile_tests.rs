//! Tile format detection, point sampling and interpolation.

use htg::coord::Coord;
use htg::tile::{SrtmResolution, SrtmTile, INTERP_SCALE, SRTM3_SAMPLES, SRTM3_SIZE, VOID_VALUE};
use htg::SrtmError;

fn coord(lat_micro: i64, lon_micro: i64) -> Coord {
    Coord::new(lat_micro, lon_micro)
}

fn set_sample(data: &mut Vec<u8>, row: usize, col: usize, value: i16) {
    let offset = (row * SRTM3_SAMPLES + col) * 2;
    let bytes = value.to_be_bytes();
    data[offset] = bytes[0];
    data[offset + 1] = bytes[1];
}

/// Coarse-grid tile bytes with known samples: 1000 m at the
/// northwest corner, 500 m at the center, 100 m at the southeast
/// corner.
fn create_test_srtm3_bytes() -> Vec<u8> {
    let mut data = vec![0u8; SRTM3_SIZE];
    set_sample(&mut data, 0, 0, 1000);
    set_sample(&mut data, 600, 600, 500);
    set_sample(&mut data, 1200, 1200, 100);
    data
}

#[test]
fn test_load_srtm3_file() {
    let data = create_test_srtm3_bytes();
    let tile = SrtmTile::from_bytes(data, 0, 0).unwrap();

    assert_eq!(tile.resolution(), SrtmResolution::Srtm3);
    assert_eq!(tile.samples(), SRTM3_SAMPLES);
}

#[test]
fn test_invalid_file_size() {
    let result = SrtmTile::from_bytes(vec![0u8; 1000], 0, 0);
    assert!(result.is_err());

    if let Err(SrtmError::InvalidFileSize { size }) = result {
        assert_eq!(size, 1000);
    } else {
        panic!("Expected InvalidFileSize error");
    }
}

#[test]
fn test_get_elevation_corners() {
    let data = create_test_srtm3_bytes();
    let tile = SrtmTile::from_bytes(data, 35, 138).unwrap();

    // Near the northwest corner (lat just under 36, lon just over 138).
    let elev = tile.get_elevation(coord(35_999_900, 138_000_100)).unwrap();
    assert!(elev >= 0, "Elevation should be non-negative");

    // Near the southeast corner (lat just over 35, lon just under 139).
    let elev = tile.get_elevation(coord(35_000_100, 138_999_900)).unwrap();
    assert!(elev >= 0, "Elevation should be non-negative");
}

#[test]
fn test_get_elevation_center() {
    let data = create_test_srtm3_bytes();
    let tile = SrtmTile::from_bytes(data, 35, 138).unwrap();

    // Center of tile (lat 35.5, lon 138.5) is exactly row 600, col 600.
    let elev = tile.get_elevation(coord(35_500_000, 138_500_000)).unwrap();
    assert_eq!(elev, 500);
}

#[test]
fn test_resolution_info() {
    assert_eq!(SrtmResolution::Srtm1.samples(), 3601);
    assert_eq!(SrtmResolution::Srtm3.samples(), 1201);
    assert_eq!(SrtmResolution::Srtm1.meters(), 30);
    assert_eq!(SrtmResolution::Srtm3.meters(), 90);
}

#[test]
fn test_out_of_tile_query_is_rejected() {
    let data = create_test_srtm3_bytes();
    let tile = SrtmTile::from_bytes(data, 35, 138).unwrap();

    let result = tile.get_elevation(coord(36_500_000, 138_500_000));
    assert!(matches!(result, Err(SrtmError::OutOfBounds { .. })));
}

#[test]
fn test_rounding_divergence() {
    // Sample (600, 1008) = 191 and (600, 1009) = 190; a query landing
    // at fractional column position 1008.96 must read 190 under
    // nearest-rounding and 191 under floor-rounding.
    let mut data = create_test_srtm3_bytes();
    set_sample(&mut data, 600, 1008, 191);
    set_sample(&mut data, 600, 1009, 190);
    let tile = SrtmTile::from_bytes(data, 35, 138).unwrap();

    // lon_frac = 0.8408 gives col_pos = 0.8408 * 1200 = 1008.96;
    // lat_frac = 0.5 gives row 600 exactly.
    let c = coord(35_500_000, 138_840_800);
    assert_eq!(tile.get_elevation(c).unwrap(), 190);
    assert_eq!(tile.get_elevation_floor(c).unwrap(), 191);
}

#[test]
fn test_interpolation_exact_at_grid_point() {
    // At an exact grid point the interpolated value equals the
    // nearest-neighbor value at that point.
    let mut data = create_test_srtm3_bytes();
    set_sample(&mut data, 600, 601, 480);
    set_sample(&mut data, 601, 600, 520);
    set_sample(&mut data, 601, 601, 510);
    let tile = SrtmTile::from_bytes(data, 35, 138).unwrap();

    let c = coord(35_500_000, 138_500_000);
    let nearest = tile.get_elevation(c).unwrap();
    let interpolated = tile.get_elevation_interpolated(c).unwrap().unwrap();
    assert_eq!(nearest, 500);
    assert_eq!(interpolated, 500 * INTERP_SCALE);
    assert!((interpolated as f64 / INTERP_SCALE as f64 - nearest as f64).abs() < 1e-9);
}

#[test]
fn test_interpolation_blends_corners() {
    // Halfway between two grid columns the result is the average of
    // the two samples.
    let mut data = vec![0u8; SRTM3_SIZE];
    set_sample(&mut data, 600, 600, 400);
    set_sample(&mut data, 600, 601, 600);
    set_sample(&mut data, 601, 600, 400);
    set_sample(&mut data, 601, 601, 600);
    let tile = SrtmTile::from_bytes(data, 35, 138).unwrap();

    // col_pos = 600.5 needs lon_frac = 600.5 / 1200 = 0.5004166...;
    // use lon_frac 0.500417 - not exact, so check against the exact
    // rational instead: cw = (500417 * 1200) % 1_000_000 = 500_400.
    let c = coord(35_500_000, 138_500_417);
    let v = tile.get_elevation_interpolated(c).unwrap().unwrap();
    let expected = 400.0 + 200.0 * 0.5004;
    assert!((v as f64 / INTERP_SCALE as f64 - expected).abs() < 1e-6);
}

#[test]
fn test_interpolation_void_corner_gives_none() {
    // Any void corner makes the interpolated result "no data",
    // whatever the other three corners hold.
    let mut data = create_test_srtm3_bytes();
    set_sample(&mut data, 600, 601, VOID_VALUE);
    let tile = SrtmTile::from_bytes(data, 35, 138).unwrap();

    // Query strictly between columns 600 and 601 on row 600.
    let c = coord(35_500_000, 138_500_417);
    assert_eq!(tile.get_elevation_interpolated(c).unwrap(), None);
}

#[test]
fn test_sample_at_reads_grid() {
    let data = create_test_srtm3_bytes();
    let tile = SrtmTile::from_bytes(data, 35, 138).unwrap();
    assert_eq!(tile.sample_at(0, 0), 1000);
    assert_eq!(tile.sample_at(600, 600), 500);
    assert_eq!(tile.sample_at(1200, 1200), 100);
    assert_eq!(tile.base_lat(), 35);
    assert_eq!(tile.base_lon(), 138);
}

#[test]
fn test_negative_samples_decode() {
    // Big-endian signed decoding: 0xFF9C is -100.
    let mut data = vec![0u8; SRTM3_SIZE];
    set_sample(&mut data, 10, 10, -100);
    let tile = SrtmTile::from_bytes(data, 0, 0).unwrap();
    assert_eq!(tile.sample_at(10, 10), -100);
}
