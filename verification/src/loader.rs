//! Tile loaders: the decisions behind producing decoded tile content for one
//! tile index, from an archive reader or from a per-tile URL with a flat
//! persistent cache.
//!
//! Network and file transfer happen in the embedding shell; this module
//! holds the cache consultation, the offline rule, gzip detection and
//! decompression, the vector-tile decode, and the error taxonomy.

use crate::tile_schema::TileIndex;
use std::io::Read;
use vstd::prelude::*;

verus! {

/// Error that can occur when trying to load a tile.
#[derive(Clone, Copy, PartialEq, Eq, Structural, Debug)]
pub enum TileLoadError {
    /// Could not connect to the remote server.
    Network,
    /// Tile with the given index does not exist.
    DoesNotExist,
    /// Failed to decode the tile from the binary data.
    Decoding,
}

/// Name for what inflating a gzip stream yields: a function of the input
/// bytes alone, with nothing for a corrupt stream.
pub uninterp spec fn gunzip_of(data: Seq<u8>) -> Option<Seq<u8>>;

/// Relies on flate2::read::GzDecoder with Read::read_to_end: what a gzip
/// stream inflates to — and whether it inflates at all — depends on the
/// input bytes alone.
#[verifier::external_body]
fn gunzip(data: &[u8]) -> (r: Option<Vec<u8>>)
    ensures
        r is Some <==> gunzip_of(data@) is Some,
        r matches Some(v) ==> gunzip_of(data@) == Some(v@),
{
    let mut out = Vec::new();
    match flate2::read::GzDecoder::new(data).read_to_end(&mut out) {
        Ok(_) => Some(out),
        Err(_) => None,
    }
}

/// Whether the payload starts with the gzip magic bytes `0x1F 0x8B`.
pub open spec fn spec_is_gzip(data: Seq<u8>) -> bool {
    data.len() >= 2 && data[0] == 0x1f && data[1] == 0x8b
}

/// What decompression makes of a payload: a gzip-prefixed payload is
/// inflated (or rejected when corrupt), anything else passes through.
pub open spec fn spec_decompressed(data: Seq<u8>) -> Option<Seq<u8>> {
    if spec_is_gzip(data) {
        gunzip_of(data)
    } else {
        Some(data)
    }
}

/// Inflates the payload when it carries the gzip magic prefix, passes it
/// through unchanged otherwise; a corrupt gzip stream is a decoding error.
pub fn decompress_tile_payload(data: Vec<u8>) -> (r: Result<Vec<u8>, TileLoadError>)
    ensures
        r matches Ok(v) ==> Some(v@) == spec_decompressed(data@),
        r is Err ==> r == Err::<Vec<u8>, TileLoadError>(TileLoadError::Decoding)
            && spec_decompressed(data@) is None,
{
    if data.len() >= 2 && data[0] == 0x1f && data[1] == 0x8b {
        match gunzip(data.as_slice()) {
            Some(v) => Ok(v),
            None => Err(TileLoadError::Decoding),
        }
    } else {
        Ok(data)
    }
}

#[verifier::external_type_specification]
#[verifier::external_body]
pub struct ExMvtTile(galileo_mvt::MvtTile);

/// Name for whether bytes parse as a vector tile under strict decoding: a
/// function of the bytes alone.
pub uninterp spec fn mvt_decodes(data: Seq<u8>) -> bool;

/// Relies on galileo_mvt::MvtTile::decode in strict mode: whether the bytes
/// parse as a vector tile depends on the bytes alone.
#[verifier::external_body]
fn decode_mvt(data: &[u8]) -> (r: Option<galileo_mvt::MvtTile>)
    ensures
        r is Some <==> mvt_decodes(data@),
{
    match galileo_mvt::MvtTile::decode(data, false) {
        Ok(t) => Some(t),
        Err(_) => None,
    }
}

/// Decodes a fetched payload into a vector tile: gzip-prefixed bytes are
/// inflated first, then the (possibly inflated) bytes are parsed.  Both a
/// corrupt gzip stream and an unparsable tile yield the same decoding
/// error.
pub fn decode_vector_tile(data: Vec<u8>) -> (r: Result<galileo_mvt::MvtTile, TileLoadError>)
    ensures
        r is Ok <==> (spec_decompressed(data@) matches Some(d) && mvt_decodes(d)),
        r is Err ==> r == Err::<galileo_mvt::MvtTile, TileLoadError>(TileLoadError::Decoding),
{
    let decompressed = match decompress_tile_payload(data) {
        Ok(v) => v,
        Err(e) => {
            return Err(e);
        },
    };
    match decode_mvt(decompressed.as_slice()) {
        Some(t) => Ok(t),
        None => Err(TileLoadError::Decoding),
    }
}

/// An external pluggable flat cache keyed by URL; the library only calls it.
/// Implementations persist raw tile bytes between runs.
pub trait PersistentCacheController {
    /// Looks up the bytes stored under the key.
    fn get(&self, key: &str) -> Option<Vec<u8>>;

    /// Stores bytes under the key; says whether the write took.
    fn insert(&mut self, key: &str, value: &[u8]) -> bool;
}

/// Builds the URL one tile is fetched from; implemented by the embedding.
pub trait UrlSource {
    /// The URL for this tile index.
    fn url(&self, index: &TileIndex) -> String;
}

/// How a cache consultation for one tile URL ends.
#[derive(Debug)]
pub enum RawLoadDecision {
    /// The cache held the bytes.
    Hit(Vec<u8>),
    /// Not cached and the loader is offline: the tile does not exist here.
    MissOffline,
    /// Not cached; the bytes must be fetched from the network.
    FetchNeeded,
}

/// What the consultation of the flat cache decides, over its answer taken
/// as a plain value: a hit returns exactly the cached bytes, an offline
/// miss is final, and only an online miss goes on to the network.
pub fn raw_load_decision(cached: Option<Vec<u8>>, offline: bool) -> (r: RawLoadDecision)
    ensures
        cached matches Some(d) ==> r == RawLoadDecision::Hit(d),
        cached is None && offline ==> r == RawLoadDecision::MissOffline,
        cached is None && !offline ==> r == RawLoadDecision::FetchNeeded,
{
    match cached {
        Some(d) => RawLoadDecision::Hit(d),
        None => {
            if offline {
                RawLoadDecision::MissOffline
            } else {
                RawLoadDecision::FetchNeeded
            }
        },
    }
}

/// Loader for tiles addressed by a per-tile URL, with a flat persistent
/// cache and an offline mode.
pub struct WebVtLoader<C, U> {
    /// The flat cache, when one is configured.
    pub cache: Option<C>,
    /// Turns a tile index into its URL.
    pub url_source: U,
    /// In offline mode a cache miss never touches the network.
    pub offline_mode: bool,
}

impl<C: PersistentCacheController, U: UrlSource> WebVtLoader<C, U> {
    /// Creates a new instance.
    pub fn new(cache: Option<C>, url_source: U, offline_mode: bool) -> (r: WebVtLoader<C, U>)
        ensures
            r == (WebVtLoader { cache, url_source, offline_mode }),
    {
        WebVtLoader { cache, url_source, offline_mode }
    }

    /// The URL for this tile index.
    pub fn url_for(&self, index: &TileIndex) -> String {
        self.url_source.url(index)
    }

    /// Consults the flat cache for the URL and decides how the load goes
    /// on, by [`raw_load_decision`]: a hit hands back exactly what the
    /// cache answered; in offline mode a miss is final and the network is
    /// never asked.
    pub fn load_raw_local(&self, url: &str) -> (r: RawLoadDecision)
        ensures
            r is FetchNeeded ==> !self.offline_mode,
            r is MissOffline ==> self.offline_mode,
            r is Hit ==> self.cache is Some,
            self.cache is None ==> !(r is Hit),
            self.cache is None && self.offline_mode ==> r is MissOffline,
            self.cache is None && !self.offline_mode ==> r is FetchNeeded,
    {
        let cached = match &self.cache {
            Some(cache) => cache.get(url),
            None => None,
        };
        raw_load_decision(cached, self.offline_mode)
    }

    /// Takes the network outcome for a URL: a success is stored in the flat
    /// cache (a failed write is not fatal — the bytes still serve this
    /// frame) and handed back; a failure propagates unchanged.
    pub fn finish_fetch(&mut self, url: &str, fetched: Result<Vec<u8>, TileLoadError>) -> (r:
        Result<Vec<u8>, TileLoadError>)
        ensures
            fetched matches Ok(b) ==> (r matches Ok(v) && v@ == b@),
            fetched is Err ==> r == fetched,
            final(self).offline_mode == old(self).offline_mode,
    {
        match fetched {
            Ok(bytes) => {
                if let Some(cache) = &mut self.cache {
                    let _stored = cache.insert(url, bytes.as_slice());
                }
                Ok(bytes)
            },
            Err(e) => Err(e),
        }
    }
}

/// Maps a transport failure to the loader's taxonomy: a confirmed absence
/// is a missing tile, everything else a network failure.
pub fn classify_fetch_failure(not_found: bool) -> (r: TileLoadError)
    ensures
        r == if not_found {
            TileLoadError::DoesNotExist
        } else {
            TileLoadError::Network
        },
{
    if not_found {
        TileLoadError::DoesNotExist
    } else {
        TileLoadError::Network
    }
}

/// Tile loader over an archive reader that maps tile coordinates to byte
/// ranges; the reader itself runs on a byte-range backend in the embedding.
pub struct PmtilesTileLoader<R> {
    /// The archive reader the loads go through.
    pub reader: R,
}

impl<R> PmtilesTileLoader<R> {
    /// Creates a new archive-backed tile loader with the given reader.
    pub fn new(reader: R) -> (r: PmtilesTileLoader<R>)
        ensures
            r == (PmtilesTileLoader { reader }),
    {
        PmtilesTileLoader { reader }
    }

    /// Borrows the archive reader for the embedding to drive.
    pub fn reader(&self) -> (r: &R)
        ensures
            r == &self.reader,
    {
        &self.reader
    }
}

/// Translates a tile index into the archive's coordinate form: level as one
/// byte, column and row as 32-bit values.  An address outside those ranges
/// maps to no archive tile.
pub fn tile_to_archive_coord(index: TileIndex) -> (r: Option<(u8, u32, u32)>)
    ensures
        r is Some <==> (index.z <= 255 && 0 <= index.x <= u32::MAX && 0 <= index.y <= u32::MAX),
        r matches Some((z, x, y)) ==> z == index.z && x == index.x && y == index.y,
{
    if index.z <= 255 && index.x >= 0 && index.x <= u32::MAX as i64 && index.y >= 0 && index.y
        <= u32::MAX as i64 {
        Some((index.z as u8, index.x as u32, index.y as u32))
    } else {
        None
    }
}

/// Maps the archive reader's outcome for one tile: an unmapped tile is a
/// confirmed miss, never a transport failure.
pub fn classify_archive_tile(found: Option<Vec<u8>>) -> (r: Result<Vec<u8>, TileLoadError>)
    ensures
        found matches Some(b) ==> (r matches Ok(v) && v@ == b@),
        found is None ==> r == Err::<Vec<u8>, TileLoadError>(TileLoadError::DoesNotExist),
{
    match found {
        Some(b) => Ok(b),
        None => Err(TileLoadError::DoesNotExist),
    }
}

} // verus!
