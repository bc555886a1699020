//! The byte-range cache against a simulated remote source: a temporary sled
//! tree for the index, an in-memory table standing in for the span files,
//! and a driver loop that performs the steps the cache decides.

use galileo_tiles::range_cache::{
    decode_len, decode_u64, encode_len, encode_u64, range_end_inclusive, sanitize_for_fs,
    stale_fallback_step, check_range_response, CacheError, RangeCache, RangeRead, ReadStep,
};
use std::collections::HashMap;

/// A simulated origin: the true bytes, the span files on disk, and a count
/// of network fetches.
struct SimSource {
    bytes: Vec<u8>,
    files: HashMap<(u64, u64), Vec<u8>>,
    fetches: u64,
}

impl SimSource {
    fn new(len: u64) -> SimSource {
        let bytes = (0..len).map(|i| (i * 7 + 3) as u8).collect();
        SimSource { bytes, files: HashMap::new(), fetches: 0 }
    }

    fn fetch(&mut self, offset: u64, length: u64) -> Vec<u8> {
        self.fetches += 1;
        self.bytes[offset as usize..(offset + length) as usize].to_vec()
    }
}

fn fresh_cache() -> (RangeCache, sled::Db) {
    let db = sled::Config::new()
        .temporary(true)
        .open()
        .expect("temporary index store");
    let tree = db.open_tree("spans").expect("index tree");
    (RangeCache::new(tree), db)
}

/// Serves one read request, doing the file and network work the cache's
/// steps ask for.
fn read(cache: &mut RangeCache, src: &mut SimSource, offset: u64, length: u64) -> Vec<u8> {
    let mut rr = RangeRead::begin(offset, length);
    loop {
        let step = cache.next_step(&rr).expect("index must answer");
        match step {
            ReadStep::Done => break,
            ReadStep::Fetch { offset, length } => {
                let data = src.fetch(offset, length);
                src.files.insert((offset, length), data.clone());
                cache.record_range(offset, length).expect("record span");
                rr.apply_chunk(data);
            },
            ReadStep::ReadSpan { span_offset, span_length, skip, take } => {
                match src.files.get(&(span_offset, span_length)) {
                    Some(file) => {
                        let piece =
                            file[skip as usize..(skip + take) as usize].to_vec();
                        rr.apply_chunk(piece);
                    },
                    None => {
                        // stale index entry: heal by refetching the piece
                        cache.remove_stale(span_offset).expect("drop stale entry");
                        let fallback = stale_fallback_step(step);
                        if let ReadStep::Fetch { offset, length } = fallback {
                            let data = src.fetch(offset, length);
                            src.files.insert((offset, length), data.clone());
                            cache.record_range(offset, length).expect("record span");
                            rr.apply_chunk(data);
                        } else {
                            unreachable!();
                        }
                    },
                }
            },
        }
    }
    rr.finish()
}

#[test]
fn read_returns_exact_source_bytes() {
    let (mut cache, _db) = fresh_cache();
    let mut src = SimSource::new(4096);
    let reads: [(u64, u64); 6] =
        [(100, 50), (0, 10), (90, 100), (120, 5), (4000, 96), (0, 4096)];
    for (offset, length) in reads {
        let got = read(&mut cache, &mut src, offset, length);
        assert_eq!(
            got,
            src.bytes[offset as usize..(offset + length) as usize].to_vec(),
            "read at {offset}+{length} must return the source bytes"
        );
    }
}

#[test]
fn repeated_read_fetches_nothing() {
    let (mut cache, _db) = fresh_cache();
    let mut src = SimSource::new(1024);
    let first = read(&mut cache, &mut src, 200, 100);
    let fetched_once = src.fetches;
    assert!(fetched_once >= 1);
    let second = read(&mut cache, &mut src, 200, 100);
    assert_eq!(first, second);
    assert_eq!(src.fetches, fetched_once, "the identical read must not fetch again");
}

#[test]
fn overlapping_reads_reuse_cached_spans() {
    let (mut cache, _db) = fresh_cache();
    let mut src = SimSource::new(1024);
    read(&mut cache, &mut src, 0, 100);
    read(&mut cache, &mut src, 200, 100);
    let before = src.fetches;
    // the gap at 100..200 is the only missing piece
    let got = read(&mut cache, &mut src, 0, 300);
    assert_eq!(got, src.bytes[0..300].to_vec());
    assert_eq!(src.fetches, before + 1, "only the gap may be fetched");
}

#[test]
fn stale_index_entry_heals_itself() {
    let (mut cache, _db) = fresh_cache();
    let mut src = SimSource::new(512);
    let first = read(&mut cache, &mut src, 64, 128);
    // lose the backing file behind the cache's back
    src.files.remove(&(64, 128)).expect("span file was written");
    let again = read(&mut cache, &mut src, 64, 128);
    assert_eq!(first, again, "the healed read must return the same bytes");
    // and the entry is usable again afterwards
    let fetches = src.fetches;
    let third = read(&mut cache, &mut src, 64, 128);
    assert_eq!(first, third);
    assert_eq!(src.fetches, fetches);
}

#[test]
fn zero_length_read_is_immediately_done() {
    let (mut cache, _db) = fresh_cache();
    let mut src = SimSource::new(16);
    let got = read(&mut cache, &mut src, 5, 0);
    assert_eq!(got, Vec::<u8>::new());
    assert_eq!(src.fetches, 0);
}

#[test]
fn big_endian_codec_round_trips() {
    for v in [0u64, 1, 255, 256, 0xdead_beef, u64::MAX] {
        let k = encode_u64(v);
        assert_eq!(decode_u64(&k), v);
        let l = encode_len(v);
        assert_eq!(decode_len(&l), v);
    }
    assert_eq!(encode_u64(42), [0, 0, 0, 0, 0, 0, 0, 42]);
    assert_eq!(encode_len(0x0102).as_slice(), &[0, 0, 0, 0, 0, 0, 1, 2]);
}

#[test]
fn big_endian_keys_preserve_numeric_order() {
    let mut keys: Vec<[u8; 8]> = [300u64, 5, 70_000, 2, u64::MAX, 255, 256]
        .iter()
        .map(|v| encode_u64(*v))
        .collect();
    keys.sort();
    let decoded: Vec<u64> = keys.iter().map(|k| decode_u64(k)).collect();
    assert_eq!(decoded, vec![2, 5, 255, 256, 300, 70_000, u64::MAX]);
}

#[test]
fn range_response_validation() {
    assert_eq!(
        check_range_response(200, vec![1, 2, 3], 3),
        Err(CacheError::RangeRequestsUnsupported)
    );
    assert_eq!(
        check_range_response(206, vec![1, 2, 3, 4], 3),
        Err(CacheError::ResponseBodyTooLong { actual: 4, expected: 3 })
    );
    assert_eq!(check_range_response(206, vec![1, 2, 3], 3), Ok(vec![1, 2, 3]));
    assert_eq!(check_range_response(206, vec![1, 2], 3), Ok(vec![1, 2]));
}

#[test]
fn sanitize_replaces_non_alphanumerics() {
    let name = sanitize_for_fs("https://tiles.example.com/v4.pmtiles");
    assert_eq!(name, b"https___tiles_example_com_v4_pmtiles".to_vec());
    assert_eq!(sanitize_for_fs("AZaz09"), b"AZaz09".to_vec());
    assert_eq!(sanitize_for_fs(""), Vec::<u8>::new());
}

#[test]
fn sanitize_maps_each_character_once() {
    // one output byte per character, also for multi-byte characters
    let name = sanitize_for_fs("caf\u{e9}/\u{1F5FA}");
    assert_eq!(name, b"caf___".to_vec());
    assert_eq!(name.len(), "caf\u{e9}/\u{1F5FA}".chars().count());
}

#[test]
fn inclusive_range_end() {
    assert_eq!(range_end_inclusive(100, 50), Some(149));
    assert_eq!(range_end_inclusive(0, 1), Some(0));
    assert_eq!(range_end_inclusive(7, 0), None);
    assert_eq!(range_end_inclusive(u64::MAX, 2), None);
    assert_eq!(range_end_inclusive(u64::MAX, 1), Some(u64::MAX));
}
