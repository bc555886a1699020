//! Verified core of a map-tile delivery layer.
//!
//! The crate covers the tile-grid geometry (coordinates to tile indices and
//! back), a persistent byte-range cache over a remote archive, the decisions
//! of the tile loaders (cache consultation, gzip detection, decoding),
//! background prefetch planning, the displayed-tile lifecycle with fade-in
//! and substitution, and the session and render-loop state machines that an
//! embedding shell drives.

pub mod loader;
pub mod prefetch;
pub mod range_cache;
pub mod render_loop;
pub mod session;
pub mod texture;
pub mod tile_schema;
pub mod tiles;
