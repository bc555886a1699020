//! The displayed-tile lifecycle: fade-in arithmetic, admission, and the
//! substitution policy that keeps old imagery under still-loading tiles.

use galileo_tiles::tile_schema::{
    Lod, Point, Rect, TileIndex, TileSchema, VerticalDirection, WrappingTileIndex,
};
use galileo_tiles::tiles::{
    opacity_at, DisplayedTile, TileProvider, TilesContainer, DEFAULT_FADE_IN_DURATION_MS,
    OPACITY_SCALE,
};
use std::collections::HashSet;

fn small_schema() -> TileSchema {
    // a 4096-unit world, one tile of 256 pixels at resolution 16 on level 0,
    // four tiles at resolution 8 on level 1
    TileSchema {
        origin: Point { x: 0, y: 4096 },
        bounds: Rect { x_min: 0, y_min: 0, x_max: 4096, y_max: 4096 },
        lods: vec![Lod::new(16, 0).unwrap(), Lod::new(8, 1).unwrap()],
        tile_width: 256,
        tile_height: 256,
        y_direction: VerticalDirection::TopToBottom,
        bounds_tolerance: 1,
    }
}

/// Provider with a fixed set of available tiles; the bundle is the index
/// echoed back as a string.
struct SetProvider {
    available: HashSet<(i64, i64, u32)>,
}

impl TileProvider<String> for SetProvider {
    fn get_tile(&self, index: TileIndex, style_id: u64) -> Option<String> {
        if self.available.contains(&(index.x, index.y, index.z)) {
            Some(format!("bundle-{}-{}-{}-{}", index.x, index.y, index.z, style_id))
        } else {
            None
        }
    }
}

fn w(x: i64, y: i64, z: u32) -> WrappingTileIndex {
    WrappingTileIndex { x, y, z }
}

#[test]
fn fade_opacity_is_elapsed_share_of_duration() {
    assert_eq!(opacity_at(1000, 1000, 300), 0);
    assert_eq!(opacity_at(1000, 1150, 300), 500);
    assert_eq!(opacity_at(1000, 1300, 300), OPACITY_SCALE);
    assert_eq!(opacity_at(1000, 9999, 300), OPACITY_SCALE);
    // a clock that went backwards counts as no elapsed time
    assert_eq!(opacity_at(1000, 900, 300), 0);
    // a disabled fade is immediately opaque
    assert_eq!(opacity_at(1000, 1000, 0), OPACITY_SCALE);
    assert_eq!(opacity_at(1000, 1000, 1), OPACITY_SCALE);
}

#[test]
fn fade_opacity_never_decreases() {
    let mut last = 0;
    for t in (0..600).step_by(37) {
        let o = opacity_at(0, t, 300);
        assert!(o >= last, "opacity fell from {last} to {o} at {t}");
        last = o;
    }
    assert_eq!(last, OPACITY_SCALE);
}

#[test]
fn admitted_tile_fades_in_and_reaches_opaque() {
    let provider = SetProvider { available: [(0, 0, 0)].into_iter().collect() };
    let mut tc: TilesContainer<String, SetProvider> =
        TilesContainer::new(small_schema(), provider);
    assert_eq!(tc.fade_in_duration(), DEFAULT_FADE_IN_DURATION_MS);
    assert!(tc.requires_animation());

    let needed = vec![w(0, 0, 0)];
    let redraw = tc.update_displayed_tiles(&needed, 7, 10_000);
    assert!(redraw, "admitting a tile requires a redraw");
    assert_eq!(tc.tiles.len(), 1);
    assert_eq!(tc.tiles[0].opacity, 0);
    assert_eq!(tc.tiles[0].style_id, 7);
    assert!(!tc.tiles[0].is_opaque());

    let redraw = tc.update_displayed_tiles(&needed, 7, 10_150);
    assert!(redraw, "a fading tile requires a redraw");
    assert_eq!(tc.tiles[0].opacity, 500);

    let redraw = tc.update_displayed_tiles(&needed, 7, 10_300);
    assert!(redraw);
    assert_eq!(tc.tiles[0].opacity, OPACITY_SCALE);
    assert!(tc.tiles[0].is_opaque());

    // fully opaque and still needed: nothing changes, no redraw
    let redraw = tc.update_displayed_tiles(&needed, 7, 10_400);
    assert!(!redraw);
    assert_eq!(tc.tiles[0].opacity, OPACITY_SCALE);
}

#[test]
fn disabled_fade_admits_opaque_tiles() {
    let provider = SetProvider { available: [(0, 0, 0)].into_iter().collect() };
    let mut tc: TilesContainer<String, SetProvider> =
        TilesContainer::new(small_schema(), provider);
    tc.set_fade_in_duration(0);
    assert!(!tc.requires_animation());
    let redraw = tc.update_displayed_tiles(&vec![w(0, 0, 0)], 1, 5);
    assert!(redraw);
    assert_eq!(tc.tiles[0].opacity, OPACITY_SCALE);
}

#[test]
fn stale_tile_retained_under_missing_needed_tile() {
    // level-0 tile (0,0) is on screen; the view moves to level 1 where only
    // (1,1) is available: the old tile overlaps the three missing level-1
    // tiles and must stay
    let provider = SetProvider { available: [(0, 0, 0), (1, 1, 1)].into_iter().collect() };
    let mut tc: TilesContainer<String, SetProvider> =
        TilesContainer::new(small_schema(), provider);
    tc.update_displayed_tiles(&vec![w(0, 0, 0)], 1, 0);
    assert_eq!(tc.tiles.len(), 1);

    let needed = vec![w(0, 0, 1), w(1, 0, 1), w(0, 1, 1), w(1, 1, 1)];
    let redraw = tc.update_displayed_tiles(&needed, 1, 100);
    assert!(redraw, "the available level-1 tile is admitted");
    let kept_old = tc.tiles.iter().any(|t| t.index == w(0, 0, 0));
    assert!(kept_old, "the old tile must be retained as a substitute");
    let admitted = tc.tiles.iter().any(|t| t.index == w(1, 1, 1));
    assert!(admitted);
    assert_eq!(tc.tiles.len(), 2);
}

#[test]
fn unneeded_tile_without_missing_overlap_is_dropped() {
    // both level-1 tiles of the new view are available, so the old level-0
    // tile has nothing to substitute for and goes away
    let provider = SetProvider {
        available: [(0, 0, 0), (0, 0, 1), (1, 0, 1), (0, 1, 1), (1, 1, 1)]
            .into_iter()
            .collect(),
    };
    let mut tc: TilesContainer<String, SetProvider> =
        TilesContainer::new(small_schema(), provider);
    tc.update_displayed_tiles(&vec![w(0, 0, 0)], 1, 0);

    let needed = vec![w(0, 0, 1), w(1, 0, 1), w(0, 1, 1), w(1, 1, 1)];
    tc.update_displayed_tiles(&needed, 1, 50);
    assert_eq!(tc.tiles.len(), 4);
    assert!(tc.tiles.iter().all(|t| t.index.z == 1));
}

#[test]
fn unavailable_needed_tiles_leave_no_entries() {
    let provider = SetProvider { available: HashSet::new() };
    let mut tc: TilesContainer<String, SetProvider> =
        TilesContainer::new(small_schema(), provider);
    let redraw = tc.update_displayed_tiles(&vec![w(0, 0, 0)], 1, 0);
    assert!(!redraw, "nothing admitted, nothing faded: no redraw");
    assert!(tc.tiles.is_empty());
}

#[test]
fn style_change_reloads_tiles() {
    let provider = SetProvider { available: [(0, 0, 0)].into_iter().collect() };
    let mut tc: TilesContainer<String, SetProvider> =
        TilesContainer::new(small_schema(), provider);
    tc.set_fade_in_duration(0);
    tc.update_displayed_tiles(&vec![w(0, 0, 0)], 1, 0);
    assert_eq!(tc.tiles.len(), 1);
    // same index, new style: the old-style tile is replaced by a new-style
    // bundle; the old one overlaps nothing missing and is dropped
    tc.update_displayed_tiles(&vec![w(0, 0, 0)], 2, 10);
    assert_eq!(tc.tiles.len(), 1);
    assert_eq!(tc.tiles[0].style_id, 2);
    assert_eq!(tc.tiles[0].bundle, "bundle-0-0-0-2");
}

#[test]
fn displayed_tile_opacity_threshold() {
    let t = DisplayedTile { index: w(0, 0, 0), bundle: 0u8, style_id: 0, opacity: 998, displayed_at: 0 };
    assert!(!t.is_opaque());
    let t = DisplayedTile { index: w(0, 0, 0), bundle: 0u8, style_id: 0, opacity: 999, displayed_at: 0 };
    assert!(t.is_opaque());
}
