//! Tile discovery, bounding-box filtering and preload planning.

use htg::coord::TileKey;
use htg::preload::{overlaps_tile, preload_stats, scan_tile_files, BoundingBox};
use htg::service::SrtmService;
use htg::tile::SRTM3_SIZE;

fn names(v: &[&str]) -> Vec<String> {
    v.iter().map(|s| s.to_string()).collect()
}

#[test]
fn test_bounding_box_overlap_boundary() {
    // A box from (36.0, 139.0) to (37.0, 140.0) does not overlap tile
    // (35, 138), whose cell is [35, 36) x [138, 139): the upper
    // boundaries are exclusive.
    let b = BoundingBox {
        min_lat_micro: 36_000_000,
        min_lon_micro: 139_000_000,
        max_lat_micro: 37_000_000,
        max_lon_micro: 140_000_000,
    };
    assert!(!overlaps_tile(b, TileKey { lat: 35, lon: 138 }));
    assert!(overlaps_tile(b, TileKey { lat: 36, lon: 139 }));

    // A box reaching strictly past the tile's south-west corner does
    // overlap.
    let b2 = BoundingBox {
        min_lat_micro: 35_900_000,
        min_lon_micro: 138_900_000,
        max_lat_micro: 36_100_000,
        max_lon_micro: 139_100_000,
    };
    assert!(overlaps_tile(b2, TileKey { lat: 35, lon: 138 }));
}

#[test]
fn test_scan_tile_files_dedup_and_sort() {
    let entries = names(&[
        "N35E138.hgt",
        "N35E138.hgt.zip",
        "notes.txt",
        "S01W001.hgt",
        "n35e138.hgt",
        "N34E100.hgt.zip",
    ]);
    let scanned = scan_tile_files(&entries);
    // One canonical name per tile, sorted by tile key.
    assert_eq!(scanned, names(&["S01W001.hgt", "N34E100.hgt", "N35E138.hgt"]));
}

#[test]
fn test_scan_tile_files_ignores_malformed() {
    let entries = names(&["X99Y999.hgt", "deep/path/N10E020.hgt", "N10E020.hgt.gz"]);
    let scanned = scan_tile_files(&entries);
    assert_eq!(scanned, names(&["N10E020.hgt"]));
}

#[test]
fn test_plan_preload_with_bounds() {
    let mut service = SrtmService::new(String::from("/data/srtm"), 10);
    // Tile (36, 139) is already resident.
    service
        .install_tile(TileKey { lat: 36, lon: 139 }, vec![0u8; SRTM3_SIZE])
        .unwrap();

    let files = names(&["N35E138.hgt", "N36E139.hgt", "N50E050.hgt"]);
    let bounds = vec![BoundingBox {
        min_lat_micro: 35_500_000,
        min_lon_micro: 138_500_000,
        max_lat_micro: 36_500_000,
        max_lon_micro: 139_500_000,
    }];

    let plan = service.plan_preload(&files, Some(&bounds));
    // (35,138) and (36,139) overlap the box; (50,50) does not.
    assert_eq!(plan.matched, 2);
    assert_eq!(plan.already_cached, 1);
    assert_eq!(plan.to_load, vec![TileKey { lat: 35, lon: 138 }]);
}

#[test]
fn test_plan_preload_without_bounds() {
    let service = SrtmService::new(String::from("/data/srtm"), 10);
    let files = names(&["N35E138.hgt", "N50E050.hgt"]);
    let plan = service.plan_preload(&files, None);
    assert_eq!(plan.matched, 2);
    assert_eq!(plan.already_cached, 0);
    assert_eq!(plan.to_load.len(), 2);
}

#[test]
fn test_preload_stats_counts() {
    let service = SrtmService::new(String::from("/data/srtm"), 10);
    let files = names(&["N35E138.hgt", "N36E138.hgt", "N37E138.hgt"]);
    let plan = service.plan_preload(&files, None);
    assert_eq!(plan.to_load.len(), 3);

    let results = vec![true, false, true];
    let stats = preload_stats(&plan, &results, 250);
    assert_eq!(stats.matched, 3);
    assert_eq!(stats.loaded, 2);
    assert_eq!(stats.failed, 1);
    assert_eq!(stats.already_cached, 0);
    assert_eq!(stats.elapsed_ms, 250);
}
