//! The cached elevation service: the query protocol, statistics,
//! batching and eviction.

use htg::coord::{Coord, TileKey};
use htg::service::{QueryOutcome, RoundingMode, SrtmService, SrtmServiceBuilder};
use htg::tile::{SRTM3_SAMPLES, SRTM3_SIZE};
use htg::SrtmError;

fn coord(lat_micro: i64, lon_micro: i64) -> Coord {
    Coord::new(lat_micro, lon_micro)
}

/// Coarse-grid tile bytes with the given elevation at row 600,
/// col 600 (the cell center).
fn tile_bytes_with_center(center_elevation: i16) -> Vec<u8> {
    let mut data = vec![0u8; SRTM3_SIZE];
    let center_offset = (600 * SRTM3_SAMPLES + 600) * 2;
    let bytes = center_elevation.to_be_bytes();
    data[center_offset] = bytes[0];
    data[center_offset + 1] = bytes[1];
    data
}

/// Drive one nearest-neighbor query to completion: when the service
/// asks for a tile, look it up in `tiles` and install it, as the
/// filesystem driver would.
fn query(service: &mut SrtmService, c: Coord, tiles: &[(TileKey, &Vec<u8>)]) -> Result<Option<i16>, SrtmError> {
    match service.get_elevation(c)? {
        QueryOutcome::Ready(v) => Ok(v),
        QueryOutcome::NeedTile(key) => {
            for (k, bytes) in tiles {
                if *k == key {
                    service.install_tile(key, (*bytes).clone()).unwrap();
                    break;
                }
            }
            service.read_elevation(c)
        }
    }
}

#[test]
fn test_service_basic() {
    let bytes = tile_bytes_with_center(500);
    let mut service = SrtmService::new(String::from("/data/srtm"), 10);

    let tiles = [(TileKey { lat: 35, lon: 138 }, &bytes)];
    let elevation = query(&mut service, coord(35_500_000, 138_500_000), &tiles).unwrap();
    assert_eq!(elevation, Some(500));
}

#[test]
fn test_cache_hit() {
    let bytes = tile_bytes_with_center(500);
    let mut service = SrtmService::new(String::from("/data/srtm"), 10);
    let tiles = [(TileKey { lat: 35, lon: 138 }, &bytes)];

    // First query - cache miss
    let _ = query(&mut service, coord(35_500_000, 138_500_000), &tiles).unwrap();
    let stats1 = service.cache_stats();
    assert_eq!(stats1.miss_count, 1);
    assert_eq!(stats1.hit_count, 0);

    // Second query in same tile - cache hit
    let _ = query(&mut service, coord(35_600_000, 138_600_000), &tiles).unwrap();
    let stats2 = service.cache_stats();
    assert_eq!(stats2.miss_count, 1);
    assert_eq!(stats2.hit_count, 1);
}

#[test]
fn test_multiple_tiles() {
    let bytes1 = tile_bytes_with_center(500);
    let bytes2 = tile_bytes_with_center(1000);
    let mut service = SrtmService::new(String::from("/data/srtm"), 10);
    let tiles = [
        (TileKey { lat: 35, lon: 138 }, &bytes1),
        (TileKey { lat: 36, lon: 138 }, &bytes2),
    ];

    let elev1 = query(&mut service, coord(35_500_000, 138_500_000), &tiles).unwrap();
    let elev2 = query(&mut service, coord(36_500_000, 138_500_000), &tiles).unwrap();

    assert_eq!(elev1, Some(500));
    assert_eq!(elev2, Some(1000));

    let stats = service.cache_stats();
    assert_eq!(stats.miss_count, 2);
    assert_eq!(stats.entry_count, 2);
}

#[test]
fn test_invalid_coordinates() {
    let mut service = SrtmService::new(String::from("/data/srtm"), 10);

    // Latitude out of coverage
    assert!(service.get_elevation(coord(70_000_000, 0)).is_err());
    assert!(service.get_elevation(coord(-70_000_000, 0)).is_err());

    // Longitude out of range
    assert!(service.get_elevation(coord(0, 200_000_000)).is_err());
    assert!(service.get_elevation(coord(0, -200_000_000)).is_err());
}

#[test]
fn test_missing_file() {
    let mut service = SrtmService::new(String::from("/data/srtm"), 10);

    // Query a tile for which no bytes exist anywhere: the service
    // names the tile it wants, and with nothing installed the answer
    // is "no data", not an error.
    match service.get_elevation(coord(50_000_000, 50_000_000)).unwrap() {
        QueryOutcome::NeedTile(key) => {
            assert_eq!(key, TileKey { lat: 50, lon: 50 });
            let name = service.tile_filename_for(coord(50_000_000, 50_000_000)).unwrap();
            assert!(name.contains("N50E050"));
        }
        QueryOutcome::Ready(_) => panic!("Expected NeedTile outcome"),
    }
    let result = service.read_elevation(coord(50_000_000, 50_000_000));
    assert_eq!(result.unwrap(), None);
}

#[test]
fn test_clear_cache() {
    let bytes = tile_bytes_with_center(500);
    let mut service = SrtmService::new(String::from("/data/srtm"), 10);
    let tiles = [(TileKey { lat: 35, lon: 138 }, &bytes)];

    // Load a tile
    let _ = query(&mut service, coord(35_500_000, 138_500_000), &tiles).unwrap();
    assert_eq!(service.cache_stats().miss_count, 1);

    // Clear cache
    service.clear_cache();

    // After clearing, the next access is a miss again
    let _ = query(&mut service, coord(35_500_000, 138_500_000), &tiles).unwrap();
    assert_eq!(service.cache_stats().miss_count, 2);
}

#[test]
fn test_cache_capacity() {
    let service = SrtmService::new(String::from("/data/srtm"), 100);
    assert_eq!(service.cache_capacity(), 100);
}

#[test]
fn test_builder_configuration() {
    let builder = SrtmServiceBuilder::new(String::from("/a"))
        .data_dir(String::from("/data/srtm"))
        .cache_size(50);
    assert_eq!(builder.cache_size, 50);
    assert_eq!(builder.data_dir, "/data/srtm");
    let service = builder.build();
    assert_eq!(service.cache_capacity(), 50);
    assert_eq!(service.data_dir().as_str(), "/data/srtm");
}

#[test]
fn test_eviction_keeps_capacity() {
    let bytes = tile_bytes_with_center(7);
    let mut service = SrtmService::new(String::from("/data/srtm"), 2);

    service.install_tile(TileKey { lat: 10, lon: 10 }, bytes.clone()).unwrap();
    service.install_tile(TileKey { lat: 11, lon: 10 }, bytes.clone()).unwrap();
    service.install_tile(TileKey { lat: 12, lon: 10 }, bytes.clone()).unwrap();

    let stats = service.cache_stats();
    assert_eq!(stats.entry_count, 2);

    // The least recently used tile (10, 10) was evicted.
    assert_eq!(service.read_elevation(coord(10_500_000, 10_500_000)).unwrap(), None);
    assert_eq!(service.read_elevation(coord(12_500_000, 10_500_000)).unwrap(), Some(7));
}

#[test]
fn test_invalidate_tile() {
    let bytes = tile_bytes_with_center(500);
    let mut service = SrtmService::new(String::from("/data/srtm"), 10);
    service.install_tile(TileKey { lat: 35, lon: 138 }, bytes).unwrap();
    assert_eq!(service.read_elevation(coord(35_500_000, 138_500_000)).unwrap(), Some(500));

    service.invalidate_tile("N35E138.hgt");
    assert_eq!(service.read_elevation(coord(35_500_000, 138_500_000)).unwrap(), None);
}

#[test]
fn test_batch_grouping_efficiency() {
    // 1,000 coordinates spanning 3 distinct tiles cause exactly 3
    // tile loads, regardless of input order.
    let mut service = SrtmService::new(String::from("/data/srtm"), 10);
    let mut coords: Vec<Coord> = Vec::new();
    for i in 0..1000i64 {
        let lon_base = 138_000_000 + (i % 3) * 1_000_000;
        coords.push(coord(35_000_000 + (i % 997) * 1000, lon_base + (i % 991) * 1000));
    }

    let outcome = service.get_elevations_batch(&coords, -1);
    assert_eq!(outcome.needed.len(), 3);
    assert_eq!(service.cache_stats().miss_count, 3);
    assert_eq!(outcome.values.len(), 1000);
    assert!(outcome.values.iter().all(|v| *v == -1));

    // Install the three tiles and finish the batch.
    for key in &outcome.needed {
        service.install_tile(*key, tile_bytes_with_center(42)).unwrap();
    }
    let values =
        service.complete_elevations_batch(&coords, outcome.values, -1, RoundingMode::Nearest);
    assert_eq!(values.len(), 1000);
    // The first coordinate reads a zero sample of the installed tile,
    // no longer the default.
    assert_eq!(values[0], 0);
    // The tile centers now answer directly.
    assert_eq!(service.read_elevation(coord(35_500_000, 138_500_000)).unwrap(), Some(42));

    // A second batch over the same coordinates hits all three tiles.
    let outcome2 = service.get_elevations_batch(&coords, -1);
    assert_eq!(outcome2.needed.len(), 0);
    assert_eq!(service.cache_stats().miss_count, 3);
    assert_eq!(service.cache_stats().hit_count, 3);
}

#[test]
fn test_batch_invalid_coordinates_keep_default() {
    let mut service = SrtmService::new(String::from("/data/srtm"), 10);
    let coords = vec![coord(70_000_000, 0), coord(35_500_000, 138_500_000)];
    let outcome = service.get_elevations_batch(&coords, -7);
    // The invalid coordinate triggers no tile request and keeps the
    // default; the valid one names its tile.
    assert_eq!(outcome.needed, vec![TileKey { lat: 35, lon: 138 }]);
    assert_eq!(outcome.values, vec![-7, -7]);
}

#[test]
fn test_batch_floor_and_interpolated() {
    let mut service = SrtmService::new(String::from("/data/srtm"), 10);
    service
        .install_tile(TileKey { lat: 35, lon: 138 }, tile_bytes_with_center(500))
        .unwrap();

    let coords = vec![coord(35_500_000, 138_500_000)];
    let floor = service.get_elevations_batch_floor(&coords, 0);
    assert_eq!(floor.values, vec![500]);
    assert!(floor.needed.is_empty());

    let interp = service.get_elevations_batch_interpolated(&coords, 0);
    assert_eq!(interp.values, vec![500 * htg::tile::INTERP_SCALE]);
    assert!(interp.needed.is_empty());
}

#[test]
fn test_end_to_end() {
    // Tile N35E138 with center sample 500: get_elevation(35.5, 138.5)
    // answers 500; a tile absent everywhere answers None; an
    // out-of-coverage coordinate is a hard error.
    let bytes = tile_bytes_with_center(500);
    let mut service = SrtmService::new(String::from("/data/srtm"), 10);
    let tiles = [(TileKey { lat: 35, lon: 138 }, &bytes)];

    let elevation = query(&mut service, coord(35_500_000, 138_500_000), &tiles).unwrap();
    assert_eq!(elevation, Some(500));

    let missing = query(&mut service, coord(50_000_000, 50_000_000), &tiles).unwrap();
    assert_eq!(missing, None);

    let result = service.get_elevation(coord(91_000_000, 0));
    assert!(matches!(result, Err(SrtmError::OutOfBounds { .. })));
}

#[test]
fn test_void_propagation_through_service() {
    // A void corner under the query point makes the interpolated
    // answer "no data" while the query itself succeeds.
    let mut data = tile_bytes_with_center(500);
    let offset = (600 * SRTM3_SAMPLES + 601) * 2;
    let bytes = htg::VOID_VALUE.to_be_bytes();
    data[offset] = bytes[0];
    data[offset + 1] = bytes[1];

    let mut service = SrtmService::new(String::from("/data/srtm"), 10);
    service.install_tile(TileKey { lat: 35, lon: 138 }, data).unwrap();

    // Strictly between columns 600 and 601 on row 600.
    match service.get_elevation_interpolated(coord(35_500_000, 138_500_417)).unwrap() {
        QueryOutcome::Ready(v) => assert_eq!(v, None),
        QueryOutcome::NeedTile(_) => panic!("tile is resident"),
    }
}
