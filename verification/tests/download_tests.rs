//! Download configuration, URL construction and payload
//! decompression.

use std::io::{Cursor, Write};

use htg::download::{
    coords_to_continent, decompress_payload, extract_hgt_from_zip, parse_coord_from_components,
    parse_filename_components, Compression, DownloadConfig, SrtmSource,
};

#[test]
fn test_parse_filename_components() {
    let (lat_p, lat, lon_p, lon) = parse_filename_components("N35E138").unwrap();
    assert_eq!(lat_p, "N");
    assert_eq!(lat, "35");
    assert_eq!(lon_p, "E");
    assert_eq!(lon, "138");

    let (lat_p, lat, lon_p, lon) = parse_filename_components("S12W077").unwrap();
    assert_eq!(lat_p, "S");
    assert_eq!(lat, "12");
    assert_eq!(lon_p, "W");
    assert_eq!(lon, "077");
}

#[test]
fn test_parse_filename_components_invalid() {
    assert!(parse_filename_components("N35E13").is_err());
    assert!(parse_filename_components("N35E1380").is_err());
}

#[test]
fn test_build_url_custom() {
    let config =
        DownloadConfig::with_url_template("https://example.com/srtm/{lat_prefix}{lat}/{filename}.hgt.gz");
    let url = config.build_url("N35E138").unwrap();
    assert_eq!(url, "https://example.com/srtm/N35/N35E138.hgt.gz");
}

#[test]
fn test_empty_url_template() {
    let config = DownloadConfig::default();
    let result = config.build_url("N35E138");
    assert!(result.is_err());
}

#[test]
fn test_download_config_builder() {
    let config = DownloadConfig::with_url_template("https://example.com/{filename}.hgt")
        .with_timeout(60)
        .with_max_retries(5);

    assert_eq!(config.timeout_secs, 60);
    assert_eq!(config.max_retries, 5);
}

#[test]
fn test_compression_from_url() {
    assert_eq!(Compression::from_url("file.hgt"), Compression::Uncompressed);
    assert_eq!(Compression::from_url("file.hgt.gz"), Compression::Gzip);
    assert_eq!(Compression::from_url("file.hgt.zip"), Compression::Zip);
    assert_eq!(Compression::from_url("FILE.HGT.GZ"), Compression::Gzip);
    assert_eq!(Compression::from_url("FILE.HGT.ZIP"), Compression::Zip);
    assert_eq!(
        Compression::from_url("https://example.com/srtm/N35E138.hgt.zip"),
        Compression::Zip
    );
}

#[test]
fn test_compression_auto_detect() {
    let config = DownloadConfig::with_url_template("https://example.com/{filename}.hgt.gz");
    if let SrtmSource::Custom { compression, .. } = config.source {
        assert_eq!(compression, Compression::Gzip);
    } else {
        panic!("Expected Custom source");
    }

    let config = DownloadConfig::with_url_template("https://example.com/{filename}.hgt.zip");
    if let SrtmSource::Custom { compression, .. } = config.source {
        assert_eq!(compression, Compression::Zip);
    } else {
        panic!("Expected Custom source");
    }

    let config = DownloadConfig::with_url_template("https://example.com/{filename}.hgt");
    if let SrtmSource::Custom { compression, .. } = config.source {
        assert_eq!(compression, Compression::Uncompressed);
    } else {
        panic!("Expected Custom source");
    }
}

#[test]
fn test_extract_hgt_from_zip() {
    // A minimal ZIP archive holding one .hgt entry.
    let mut zip_buffer = Vec::new();
    {
        let mut zip = zip::ZipWriter::new(Cursor::new(&mut zip_buffer));
        let options = zip::write::SimpleFileOptions::default()
            .compression_method(zip::CompressionMethod::Stored);
        zip.start_file("N35E138.hgt", options).unwrap();
        zip.write_all(&[0u8; 100]).unwrap();
        zip.finish().unwrap();
    }

    let result = extract_hgt_from_zip(&zip_buffer, "test.hgt");
    assert!(result.is_ok());
    assert_eq!(result.unwrap().len(), 100);
}

#[test]
fn test_extract_hgt_from_zip_no_hgt_file() {
    // A ZIP archive without any .hgt entry.
    let mut zip_buffer = Vec::new();
    {
        let mut zip = zip::ZipWriter::new(Cursor::new(&mut zip_buffer));
        let options = zip::write::SimpleFileOptions::default();
        zip.start_file("readme.txt", options).unwrap();
        zip.write_all(b"Not an HGT file").unwrap();
        zip.finish().unwrap();
    }

    let result = extract_hgt_from_zip(&zip_buffer, "test.hgt");
    assert!(result.is_err());
}

#[test]
fn test_decompress_gzip_round_trip() {
    let payload: Vec<u8> = (0u8..200).cycle().take(5000).collect();
    let mut encoder =
        flate2::write::GzEncoder::new(Vec::new(), flate2::Compression::default());
    encoder.write_all(&payload).unwrap();
    let compressed = encoder.finish().unwrap();
    assert_ne!(compressed, payload);

    let decompressed =
        decompress_payload(compressed, Compression::Gzip, "N35E138.hgt").unwrap();
    assert_eq!(decompressed, payload);
}

#[test]
fn test_decompress_uncompressed_passthrough() {
    let payload = vec![1u8, 2, 3, 4];
    let out = decompress_payload(payload.clone(), Compression::Uncompressed, "x.hgt").unwrap();
    assert_eq!(out, payload);
}

#[test]
fn test_coords_to_continent() {
    // North America
    assert_eq!(coords_to_continent(40, -100), Some("North_America"));
    assert_eq!(coords_to_continent(36, -117), Some("North_America")); // Death Valley

    // South America
    assert_eq!(coords_to_continent(-4, -61), Some("South_America")); // Amazon
    assert_eq!(coords_to_continent(-34, -58), Some("South_America")); // Buenos Aires

    // Australia
    assert_eq!(coords_to_continent(-34, 151), Some("Australia")); // Sydney
    assert_eq!(coords_to_continent(-25, 133), Some("Australia")); // Central Australia

    // Africa
    assert_eq!(coords_to_continent(30, 31), Some("Africa")); // Cairo
    assert_eq!(coords_to_continent(-34, 18), Some("Africa")); // Cape Town

    // Eurasia
    assert_eq!(coords_to_continent(35, 138), Some("Eurasia")); // Mount Fuji
    assert_eq!(coords_to_continent(51, 0), Some("Eurasia")); // London
    assert_eq!(coords_to_continent(55, 37), Some("Eurasia")); // Moscow
}

#[test]
fn test_coords_to_continent_edge_cases() {
    // Boundaries
    assert_eq!(coords_to_continent(15, -170), Some("North_America")); // Edge of NA
    assert_eq!(coords_to_continent(60, -50), Some("North_America")); // NE corner

    // Areas outside defined continents
    assert_eq!(coords_to_continent(-70, 0), None); // Antarctica
    assert_eq!(coords_to_continent(0, -150), None); // Pacific Ocean
}

#[test]
fn test_ardupilot_config() {
    // Default ardupilot() uses the fine grid
    let config = DownloadConfig::ardupilot();
    assert!(matches!(config.source, SrtmSource::ArduPilotSrtm1));
    assert_eq!(config.timeout_secs, 300);
    assert_eq!(config.max_retries, 3);

    // Explicit fine grid
    let config = DownloadConfig::ardupilot_srtm1();
    assert!(matches!(config.source, SrtmSource::ArduPilotSrtm1));

    // Explicit coarse grid
    let config = DownloadConfig::ardupilot_srtm3();
    assert!(matches!(config.source, SrtmSource::ArduPilotSrtm3));
}

#[test]
fn test_build_url_ardupilot_srtm1() {
    let config = DownloadConfig::ardupilot_srtm1();

    // Flat structure, no continent subdirectories.

    // Mount Fuji
    let url = config.build_url("N35E138").unwrap();
    assert_eq!(url, "https://terrain.ardupilot.org/SRTM1/N35E138.hgt.zip");

    // Death Valley
    let url = config.build_url("N36W117").unwrap();
    assert_eq!(url, "https://terrain.ardupilot.org/SRTM1/N36W117.hgt.zip");

    // Antarctica works here: no continent lookup is involved.
    let url = config.build_url("S70E000").unwrap();
    assert_eq!(url, "https://terrain.ardupilot.org/SRTM1/S70E000.hgt.zip");
}

#[test]
fn test_build_url_ardupilot_srtm3() {
    let config = DownloadConfig::ardupilot_srtm3();

    // Sydney (Australia)
    let url = config.build_url("S34E151").unwrap();
    assert_eq!(url, "https://terrain.ardupilot.org/SRTM3/Australia/S34E151.hgt.zip");

    // Cape Town (Africa)
    let url = config.build_url("S34E018").unwrap();
    assert_eq!(url, "https://terrain.ardupilot.org/SRTM3/Africa/S34E018.hgt.zip");

    // Amazon (South America)
    let url = config.build_url("S04W061").unwrap();
    assert_eq!(url, "https://terrain.ardupilot.org/SRTM3/South_America/S04W061.hgt.zip");
}

#[test]
fn test_build_url_ardupilot_srtm3_unknown_continent() {
    let config = DownloadConfig::ardupilot_srtm3();

    // Antarctica needs a continent directory and has none.
    let result = config.build_url("S70E000");
    assert!(result.is_err());
}

#[test]
fn test_build_url_custom_with_continent() {
    let config =
        DownloadConfig::with_url_template("https://example.com/{continent}/{filename}.hgt.zip");

    let url = config.build_url("N35E138").unwrap();
    assert_eq!(url, "https://example.com/Eurasia/N35E138.hgt.zip");

    let url = config.build_url("N36W117").unwrap();
    assert_eq!(url, "https://example.com/North_America/N36W117.hgt.zip");
}

#[test]
fn test_build_url_nasa() {
    let config = DownloadConfig::nasa_earthdata("user", "SECRET-REDACTED");
    let url = config.build_url("N35E138").unwrap();
    assert_eq!(
        url,
        "https://e4ftl01.cr.usgs.gov/MEASURES/SRTMGL1.003/2000.02.11/N35E138.SRTMGL1.hgt.zip"
    );
}

#[test]
fn test_parse_coord_from_components() {
    assert_eq!(parse_coord_from_components("N", "35"), 35);
    assert_eq!(parse_coord_from_components("S", "35"), -35);
    assert_eq!(parse_coord_from_components("E", "138"), 138);
    assert_eq!(parse_coord_from_components("W", "117"), -117);
}
