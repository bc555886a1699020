//! Background prefetch planning: which tiles a warm-up pass over a zoom
//! range and bounding box should fetch, and how wide its concurrency may
//! run.  The embedding spawns the fetch tasks; failures there are swallowed,
//! as the warm-up is best effort.

use crate::tile_schema::{Rect, TileIndex, TileSchema};
use vstd::prelude::*;

verus! {

/// Configuration for background tile prefetch.
pub struct PrefetchConfig {
    /// Zoom levels to prefetch.
    pub zoom_levels: Vec<u8>,
    /// Bounding box to limit the prefetch area; the schema's full bounds
    /// when absent.
    pub bbox: Option<Rect>,
    /// Maximum number of concurrent tile requests.
    pub concurrency: usize,
}

impl Default for PrefetchConfig {
    /// The default warm-up: the first six zoom levels over the full bounds,
    /// sixteen requests at a time.
    fn default() -> (r: PrefetchConfig)
        ensures
            r.zoom_levels@ =~= seq![0u8, 1u8, 2u8, 3u8, 4u8, 5u8],
            r.bbox is None,
            r.concurrency == 16,
    {
        PrefetchConfig { zoom_levels: vec![0, 1, 2, 3, 4, 5], bbox: None, concurrency: 16 }
    }
}

/// The area a prefetch covers: the configured box, or the schema's bounds.
pub open spec fn spec_prefetch_bbox(schema: TileSchema, config: PrefetchConfig) -> Rect {
    match config.bbox {
        Some(b) => b,
        None => schema.bounds,
    }
}

/// The number of fetch permits a prefetch runs with: at least one.
pub fn effective_concurrency(configured: usize) -> (r: usize)
    ensures
        r == if configured < 1 {
            1usize
        } else {
            configured
        },
{
    if configured < 1 {
        1
    } else {
        configured
    }
}

/// Plans a warm-up pass: for every requested zoom level that the schema's
/// pyramid holds, every tile covering the configured area at that level.
/// Requested levels missing from the pyramid are skipped.
pub fn prefetch_plan(schema: &TileSchema, config: &PrefetchConfig) -> (r: Vec<TileIndex>)
    requires
        schema.wf(),
        config.bbox matches Some(b) ==> b.bounded(),
    ensures
        forall|t: TileIndex|
            #[trigger] r@.contains(t) <==> exists|i: int|
                0 <= i < config.zoom_levels@.len() && schema.spec_has_lod(
                    (#[trigger] config.zoom_levels@[i]) as u32,
                ) && schema.covering_contains(
                    spec_prefetch_bbox(*schema, *config),
                    config.zoom_levels@[i] as u32,
                    t,
                ),
{
    let bbox = match &config.bbox {
        Some(b) => *b,
        None => schema.bounds,
    };
    let ghost sbox = spec_prefetch_bbox(*schema, *config);
    let mut out: Vec<TileIndex> = Vec::new();
    let mut i: usize = 0;
    while i < config.zoom_levels.len()
        invariant
            schema.wf(),
            bbox == spec_prefetch_bbox(*schema, *config),
            bbox.bounded(),
            sbox == bbox,
            0 <= i <= config.zoom_levels@.len(),
            forall|t: TileIndex|
                #[trigger] out@.contains(t) <==> exists|j: int|
                    0 <= j < i && schema.spec_has_lod((#[trigger] config.zoom_levels@[j]) as u32)
                        && schema.covering_contains(sbox, config.zoom_levels@[j] as u32, t),
        decreases config.zoom_levels@.len() - i,
    {
        let z = config.zoom_levels[i] as u32;
        let ghost out_before = out@;
        match schema.tiles_covering(&bbox, z) {
            Ok(mut tiles) => {
                let ghost tiles_seq = tiles@;
                out.append(&mut tiles);
                proof {
                    assert forall|t: TileIndex| #[trigger]
                        out@.contains(t) <==> exists|j: int|
                            0 <= j < i + 1 && schema.spec_has_lod(
                                (#[trigger] config.zoom_levels@[j]) as u32,
                            ) && schema.covering_contains(
                                sbox,
                                config.zoom_levels@[j] as u32,
                                t,
                            ) by {
                        if out@.contains(t) {
                            let w = choose|w: int| 0 <= w < out@.len() && out@[w] == t;
                            if w < out_before.len() {
                                assert(out_before.contains(t));
                            } else {
                                assert(tiles_seq[w - out_before.len()] == t);
                                assert(tiles_seq.contains(t));
                                assert(schema.covering_contains(sbox, z, t));
                                assert(schema.spec_has_lod((config.zoom_levels@[i as int]) as u32)
                                    && schema.covering_contains(
                                    sbox,
                                    config.zoom_levels@[i as int] as u32,
                                    t,
                                ));
                            }
                        } else {
                            if exists|j: int|
                                0 <= j < i + 1 && schema.spec_has_lod(
                                    (#[trigger] config.zoom_levels@[j]) as u32,
                                ) && schema.covering_contains(
                                    sbox,
                                    config.zoom_levels@[j] as u32,
                                    t,
                                ) {
                                let j = choose|j: int|
                                    0 <= j < i + 1 && schema.spec_has_lod(
                                        (#[trigger] config.zoom_levels@[j]) as u32,
                                    ) && schema.covering_contains(
                                        sbox,
                                        config.zoom_levels@[j] as u32,
                                        t,
                                    );
                                if j < i {
                                    assert(out_before.contains(t));
                                    let w = choose|w: int|
                                        0 <= w < out_before.len() && out_before[w] == t;
                                    assert(out@[w] == t);
                                    assert(out@.contains(t));
                                } else {
                                    assert(tiles_seq.contains(t));
                                    let w = choose|w: int|
                                        0 <= w < tiles_seq.len() && tiles_seq[w] == t;
                                    assert(out@[out_before.len() + w] == t);
                                    assert(out@.contains(t));
                                }
                            }
                        }
                    }
                }
            },
            Err(_) => {
                proof {
                    assert forall|t: TileIndex| #[trigger]
                        out@.contains(t) <==> exists|j: int|
                            0 <= j < i + 1 && schema.spec_has_lod(
                                (#[trigger] config.zoom_levels@[j]) as u32,
                            ) && schema.covering_contains(
                                sbox,
                                config.zoom_levels@[j] as u32,
                                t,
                            ) by {}
                }
            },
        }
        i += 1;
    }
    out
}

} // verus!
