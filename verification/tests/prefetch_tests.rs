//! Prefetch planning over a small pyramid.

use galileo_tiles::prefetch::{effective_concurrency, prefetch_plan, PrefetchConfig};
use galileo_tiles::tile_schema::{Lod, Point, Rect, TileSchema, VerticalDirection};

fn small_schema() -> TileSchema {
    TileSchema {
        origin: Point { x: 0, y: 4096 },
        bounds: Rect { x_min: 0, y_min: 0, x_max: 4096, y_max: 4096 },
        lods: vec![Lod::new(16, 0).unwrap(), Lod::new(8, 1).unwrap()],
        tile_width: 256,
        tile_height: 256,
        y_direction: VerticalDirection::TopToBottom,
        bounds_tolerance: 1,
    }
}

#[test]
fn default_config_warms_low_levels() {
    let config = PrefetchConfig::default();
    assert_eq!(config.zoom_levels, vec![0, 1, 2, 3, 4, 5]);
    assert!(config.bbox.is_none());
    assert_eq!(config.concurrency, 16);
}

#[test]
fn concurrency_is_at_least_one() {
    assert_eq!(effective_concurrency(0), 1);
    assert_eq!(effective_concurrency(1), 1);
    assert_eq!(effective_concurrency(16), 16);
}

#[test]
fn plan_covers_each_present_level_and_skips_absent_ones() {
    let schema = small_schema();
    let config = PrefetchConfig { zoom_levels: vec![0, 1, 9], bbox: None, concurrency: 4 };
    let plan = prefetch_plan(&schema, &config);
    // the full bounds: one tile on level 0, a 2-by-2 grid on level 1,
    // nothing for the absent level 9
    assert_eq!(plan.len(), 5);
    assert_eq!(plan.iter().filter(|t| t.z == 0).count(), 1);
    assert_eq!(plan.iter().filter(|t| t.z == 1).count(), 4);
    assert!(plan.iter().all(|t| 0 <= t.x && t.x <= 1 && 0 <= t.y && t.y <= 1));
}

#[test]
fn plan_respects_a_configured_box() {
    let schema = small_schema();
    // a box inside the lower-left quarter: one level-1 tile, row 1 because
    // rows grow downwards from the top
    let config = PrefetchConfig {
        zoom_levels: vec![1],
        bbox: Some(Rect { x_min: 100, y_min: 100, x_max: 1900, y_max: 1900 }),
        concurrency: 1,
    };
    let plan = prefetch_plan(&schema, &config);
    assert_eq!(plan.len(), 1);
    assert_eq!((plan[0].x, plan[0].y, plan[0].z), (0, 1, 1));
}
