//! The tile loaders: gzip detection and decompression, vector-tile
//! decoding, the flat-cache consultation and the error taxonomy.

use flate2::write::GzEncoder;
use flate2::Compression;
use galileo_tiles::loader::{
    classify_archive_tile, classify_fetch_failure, decode_vector_tile, decompress_tile_payload,
    raw_load_decision, tile_to_archive_coord, PersistentCacheController, RawLoadDecision,
    PmtilesTileLoader, TileLoadError, UrlSource, WebVtLoader,
};
use galileo_tiles::tile_schema::TileIndex;
use std::collections::HashMap;
use std::io::Write;

fn gzip(data: &[u8]) -> Vec<u8> {
    let mut enc = GzEncoder::new(Vec::new(), Compression::default());
    enc.write_all(data).expect("compress");
    enc.finish().expect("finish gzip stream")
}

#[test]
fn gzip_payload_is_inflated() {
    let packed = gzip(b"vector tile bytes");
    assert_eq!(packed[0], 0x1f);
    assert_eq!(packed[1], 0x8b);
    assert_eq!(
        decompress_tile_payload(packed),
        Ok(b"vector tile bytes".to_vec())
    );
}

#[test]
fn plain_payload_passes_through() {
    let raw = vec![9u8, 8, 7, 6];
    assert_eq!(decompress_tile_payload(raw.clone()), Ok(raw));
    assert_eq!(decompress_tile_payload(Vec::new()), Ok(Vec::new()));
    // a single magic byte is not a gzip prefix
    assert_eq!(decompress_tile_payload(vec![0x1f]), Ok(vec![0x1f]));
}

#[test]
fn corrupt_gzip_payload_is_a_decoding_error() {
    let corrupt = vec![0x1f, 0x8b, 0xff, 0x00, 0x01];
    assert_eq!(decompress_tile_payload(corrupt), Err(TileLoadError::Decoding));
    // the bare magic bytes are a truncated stream, not a tile
    assert_eq!(
        decompress_tile_payload(vec![0x1f, 0x8b]),
        Err(TileLoadError::Decoding)
    );
    let mut truncated = gzip(b"some content that will be cut short");
    truncated.truncate(6);
    assert_eq!(decompress_tile_payload(truncated), Err(TileLoadError::Decoding));
}

/// A minimal valid vector tile: one layer named "a", version 2, nothing in
/// it, in its protobuf wire form.
fn minimal_tile() -> Vec<u8> {
    vec![0x1a, 0x05, 0x0a, 0x01, 0x61, 0x78, 0x02]
}

#[test]
fn vector_tile_decode_accepts_both_framings() {
    assert!(decode_vector_tile(minimal_tile()).is_ok());
    assert!(decode_vector_tile(gzip(&minimal_tile())).is_ok());
    // a tile without layers is rejected
    assert_eq!(
        decode_vector_tile(Vec::new()).unwrap_err(),
        TileLoadError::Decoding
    );
    // bytes that parse as neither gzip nor a tile
    assert_eq!(
        decode_vector_tile(vec![0xff, 0xff, 0xff]).unwrap_err(),
        TileLoadError::Decoding
    );
    // a well-formed gzip stream around a broken tile
    assert_eq!(
        decode_vector_tile(gzip(&[0xff, 0xff, 0xff])).unwrap_err(),
        TileLoadError::Decoding
    );
}

#[test]
fn fetch_failures_map_to_taxonomy() {
    assert_eq!(classify_fetch_failure(true), TileLoadError::DoesNotExist);
    assert_eq!(classify_fetch_failure(false), TileLoadError::Network);
    assert_eq!(classify_archive_tile(Some(vec![1, 2])), Ok(vec![1, 2]));
    assert_eq!(
        classify_archive_tile(None),
        Err(TileLoadError::DoesNotExist)
    );
}

#[test]
fn archive_coordinates_reject_out_of_range_addresses() {
    assert_eq!(
        tile_to_archive_coord(TileIndex { x: 3, y: 5, z: 7 }),
        Some((7, 3, 5))
    );
    assert_eq!(tile_to_archive_coord(TileIndex { x: -1, y: 0, z: 0 }), None);
    assert_eq!(tile_to_archive_coord(TileIndex { x: 0, y: -2, z: 0 }), None);
    assert_eq!(tile_to_archive_coord(TileIndex { x: 0, y: 0, z: 256 }), None);
    assert_eq!(
        tile_to_archive_coord(TileIndex { x: u32::MAX as i64 + 1, y: 0, z: 1 }),
        None
    );
}

struct MapCache {
    entries: HashMap<String, Vec<u8>>,
}

impl PersistentCacheController for MapCache {
    fn get(&self, key: &str) -> Option<Vec<u8>> {
        self.entries.get(key).cloned()
    }

    fn insert(&mut self, key: &str, value: &[u8]) -> bool {
        self.entries.insert(key.to_string(), value.to_vec());
        true
    }
}

struct TemplateSource;

impl UrlSource for TemplateSource {
    fn url(&self, index: &TileIndex) -> String {
        format!("https://tiles.example.com/{}/{}/{}.mvt", index.z, index.x, index.y)
    }
}

#[test]
fn raw_decision_hit_returns_cached_bytes() {
    match raw_load_decision(Some(vec![4, 5, 6]), true) {
        RawLoadDecision::Hit(bytes) => assert_eq!(bytes, vec![4, 5, 6]),
        other => panic!("a cached answer must be a hit, got {other:?}"),
    }
    assert!(matches!(raw_load_decision(None, true), RawLoadDecision::MissOffline));
    assert!(matches!(raw_load_decision(None, false), RawLoadDecision::FetchNeeded));
}

#[test]
fn web_loader_consults_cache_then_network() {
    let cache = MapCache { entries: HashMap::new() };
    let mut loader = WebVtLoader::new(Some(cache), TemplateSource, false);
    let url = loader.url_for(&TileIndex { x: 1, y: 2, z: 3 });
    assert_eq!(url, "https://tiles.example.com/3/1/2.mvt");

    assert!(matches!(loader.load_raw_local(&url), RawLoadDecision::FetchNeeded));
    let fetched = loader.finish_fetch(&url, Ok(b"payload".to_vec()));
    assert_eq!(fetched, Ok(b"payload".to_vec()));
    // the fetched bytes were written through to the cache
    match loader.load_raw_local(&url) {
        RawLoadDecision::Hit(bytes) => assert_eq!(bytes, b"payload".to_vec()),
        other => panic!("expected a cache hit, got {other:?}"),
    }
}

#[test]
fn web_loader_offline_misses_never_fetch() {
    let cache = MapCache { entries: HashMap::new() };
    let loader: WebVtLoader<MapCache, TemplateSource> =
        WebVtLoader::new(Some(cache), TemplateSource, true);
    assert!(matches!(
        loader.load_raw_local("https://tiles.example.com/0/0/0.mvt"),
        RawLoadDecision::MissOffline
    ));
    let no_cache: WebVtLoader<MapCache, TemplateSource> =
        WebVtLoader::new(None, TemplateSource, true);
    assert!(matches!(
        no_cache.load_raw_local("anything"),
        RawLoadDecision::MissOffline
    ));
}

#[test]
fn web_loader_failure_passes_through() {
    let mut loader: WebVtLoader<MapCache, TemplateSource> =
        WebVtLoader::new(None, TemplateSource, false);
    assert_eq!(
        loader.finish_fetch("u", Err(TileLoadError::Network)),
        Err(TileLoadError::Network)
    );
    assert_eq!(
        loader.finish_fetch("u", Err(TileLoadError::DoesNotExist)),
        Err(TileLoadError::DoesNotExist)
    );
}

#[test]
fn archive_loader_wraps_its_reader() {
    let loader = PmtilesTileLoader::new("a reader stand-in");
    assert_eq!(*loader.reader(), "a reader stand-in");
}
