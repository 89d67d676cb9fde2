//! Filename conversion and coordinate validity.

use htg::coord::{is_valid_srtm_coord, to_tile_key, Coord};
use htg::filename::{filename_to_lat_lon, lat_lon_to_filename};

fn coord(lat_micro: i64, lon_micro: i64) -> Coord {
    Coord::new(lat_micro, lon_micro)
}

#[test]
fn test_positive_coords() {
    assert_eq!(lat_lon_to_filename(coord(35_500_000, 138_700_000)), "N35E138.hgt");
    assert_eq!(lat_lon_to_filename(coord(500_000, 500_000)), "N00E000.hgt");
    assert_eq!(lat_lon_to_filename(coord(1_000_000, 1_000_000)), "N01E001.hgt");
    assert_eq!(lat_lon_to_filename(coord(59_900_000, 179_900_000)), "N59E179.hgt");
}

#[test]
fn test_negative_coords() {
    // floor(-12.3) = -13, floor(-77.1) = -78
    assert_eq!(lat_lon_to_filename(coord(-12_300_000, -77_100_000)), "S13W078.hgt");
    // floor(-0.5) = -1
    assert_eq!(lat_lon_to_filename(coord(-500_000, -500_000)), "S01W001.hgt");
    assert_eq!(lat_lon_to_filename(coord(-1_000_000, -1_000_000)), "S01W001.hgt");
    // floor(-59.9) = -60, floor(-179.9) = -180
    assert_eq!(lat_lon_to_filename(coord(-59_900_000, -179_900_000)), "S60W180.hgt");
}

#[test]
fn test_mixed_coords() {
    // floor(-122.4) = -123
    assert_eq!(lat_lon_to_filename(coord(35_500_000, -122_400_000)), "N35W123.hgt");
    // floor(-33.9) = -34
    assert_eq!(lat_lon_to_filename(coord(-33_900_000, 151_200_000)), "S34E151.hgt");
    // floor(-99.1) = -100
    assert_eq!(lat_lon_to_filename(coord(19_400_000, -99_100_000)), "N19W100.hgt");
}

#[test]
fn test_boundary_cases() {
    // Exactly on tile boundary
    assert_eq!(lat_lon_to_filename(coord(35_000_000, 138_000_000)), "N35E138.hgt");
    assert_eq!(lat_lon_to_filename(coord(-35_000_000, -138_000_000)), "S35W138.hgt");

    // Equator and prime meridian
    assert_eq!(lat_lon_to_filename(coord(0, 0)), "N00E000.hgt");
    assert_eq!(lat_lon_to_filename(coord(100_000, 100_000)), "N00E000.hgt");
    // floor(-0.1) = -1
    assert_eq!(lat_lon_to_filename(coord(-100_000, -100_000)), "S01W001.hgt");
}

#[test]
fn test_parse_filename() {
    assert_eq!(filename_to_lat_lon("N35E138.hgt"), Some((35, 138)));
    assert_eq!(filename_to_lat_lon("S12W077.hgt"), Some((-12, -77)));
    assert_eq!(filename_to_lat_lon("N00E000.hgt"), Some((0, 0)));
    assert_eq!(filename_to_lat_lon("S00W000.hgt"), Some((0, 0)));
}

#[test]
fn test_parse_filename_with_path() {
    assert_eq!(filename_to_lat_lon("/path/to/data/N35E138.hgt"), Some((35, 138)));
    assert_eq!(filename_to_lat_lon("C:\\data\\S12W077.hgt"), Some((-12, -77)));
}

#[test]
fn test_parse_filename_invalid() {
    assert_eq!(filename_to_lat_lon("invalid"), None);
    assert_eq!(filename_to_lat_lon("N35E13.hgt"), None); // Too short
    assert_eq!(filename_to_lat_lon("X35E138.hgt"), None); // Invalid prefix
    assert_eq!(filename_to_lat_lon("N35X138.hgt"), None); // Invalid prefix
    assert_eq!(filename_to_lat_lon("NAAE138.hgt"), None); // Non-numeric
}

#[test]
fn test_parse_case_insensitive() {
    assert_eq!(filename_to_lat_lon("n35e138.hgt"), Some((35, 138)));
    assert_eq!(filename_to_lat_lon("s12w077.hgt"), Some((-12, -77)));
}

#[test]
fn test_roundtrip() {
    let test_coords = [
        (35_500_000_i64, 138_700_000_i64),
        (-12_300_000, -77_100_000),
        (500_000, -500_000),
        (-500_000, 500_000),
        (59_900_000, 179_900_000),
        (-59_900_000, -179_900_000),
    ];

    for (lat_micro, lon_micro) in test_coords {
        let c = coord(lat_micro, lon_micro);
        let filename = lat_lon_to_filename(c);
        let (parsed_lat, parsed_lon) = filename_to_lat_lon(&filename).unwrap();

        let key = to_tile_key(c);
        assert_eq!(parsed_lat, key.lat);
        assert_eq!(parsed_lon, key.lon);
        assert_eq!(parsed_lat, (lat_micro as f64 / 1e6).floor() as i32);
        assert_eq!(parsed_lon, (lon_micro as f64 / 1e6).floor() as i32);
    }
}

#[test]
fn test_is_valid_srtm_coord() {
    // Valid coordinates
    assert!(is_valid_srtm_coord(coord(0, 0)));
    assert!(is_valid_srtm_coord(coord(60_000_000, 180_000_000)));
    assert!(is_valid_srtm_coord(coord(-60_000_000, -180_000_000)));
    assert!(is_valid_srtm_coord(coord(35_500_000, 138_700_000)));

    // Invalid coordinates
    assert!(!is_valid_srtm_coord(coord(61_000_000, 0))); // Lat too high
    assert!(!is_valid_srtm_coord(coord(-61_000_000, 0))); // Lat too low
    assert!(!is_valid_srtm_coord(coord(0, 181_000_000))); // Lon too high
    assert!(!is_valid_srtm_coord(coord(0, -181_000_000))); // Lon too low
}
