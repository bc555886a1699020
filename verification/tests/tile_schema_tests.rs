//! Grid geometry against the web-mercator schema the map uses, in micro
//! map-units: one unit here is a millionth of a projected metre.

use galileo_tiles::tile_schema::{
    Lod, Point, Rect, TileIndex, TileSchema, TileSchemaError, VerticalDirection, WrappingTileIndex,
};

const MERCATOR_EDGE: i64 = 20_037_508_342_787;
const TOP_RESOLUTION: u64 = 39_135_758_482;

fn web_mercator_schema(levels: u32) -> TileSchema {
    let mut lods = Vec::new();
    let mut res = TOP_RESOLUTION;
    for level in 0..levels {
        lods.push(Lod::new(res, level).expect("resolution must be positive"));
        res /= 2;
    }
    TileSchema {
        origin: Point { x: -MERCATOR_EDGE, y: MERCATOR_EDGE },
        bounds: Rect {
            x_min: -MERCATOR_EDGE,
            y_min: -MERCATOR_EDGE,
            x_max: MERCATOR_EDGE,
            y_max: MERCATOR_EDGE,
        },
        lods,
        tile_width: 1024,
        tile_height: 1024,
        y_direction: VerticalDirection::TopToBottom,
        bounds_tolerance: 1000,
    }
}

#[test]
fn full_bounds_level_zero_is_one_tile() {
    let schema = web_mercator_schema(8);
    let bounds = schema.bounds;
    let tiles = schema.tiles_covering(&bounds, 0).expect("level 0 exists");
    assert_eq!(tiles.len(), 1);
    assert_eq!(tiles[0], TileIndex { x: 0, y: 0, z: 0 });
}

#[test]
fn full_bounds_level_one_is_two_by_two() {
    let schema = web_mercator_schema(8);
    let bounds = schema.bounds;
    let mut tiles = schema.tiles_covering(&bounds, 1).expect("level 1 exists");
    tiles.sort_by_key(|t| (t.x, t.y));
    let expected = vec![
        TileIndex { x: 0, y: 0, z: 1 },
        TileIndex { x: 0, y: 1, z: 1 },
        TileIndex { x: 1, y: 0, z: 1 },
        TileIndex { x: 1, y: 1, z: 1 },
    ];
    assert_eq!(tiles, expected);
}

#[test]
fn missing_level_is_not_found() {
    let schema = web_mercator_schema(4);
    let bounds = schema.bounds;
    assert_eq!(
        schema.tiles_covering(&bounds, 9).unwrap_err(),
        TileSchemaError::NotFound
    );
    assert_eq!(schema.lod_resolution(2), Some(TOP_RESOLUTION / 4));
    assert_eq!(schema.lod_resolution(9), None);
}

#[test]
fn inverted_bbox_is_empty() {
    let schema = web_mercator_schema(4);
    let inverted = Rect { x_min: 5_000_000, y_min: 0, x_max: -5_000_000, y_max: 1 };
    let tiles = schema.tiles_covering(&inverted, 0).expect("level 0 exists");
    assert!(tiles.is_empty());
}

#[test]
fn covering_tiles_all_intersect_query() {
    let schema = web_mercator_schema(8);
    let query = Rect {
        x_min: -1_234_567_000_000,
        y_min: 2_000_000_000,
        x_max: 987_654_000_000,
        y_max: 1_500_000_000_000,
    };
    for z in 0..6 {
        let tiles = schema.tiles_covering(&query, z).expect("level exists");
        assert!(!tiles.is_empty());
        for t in &tiles {
            let bbox = schema.tile_bbox(*t).expect("tile rectangle fits");
            assert!(bbox.intersects(&query), "tile {t:?} must meet the query box");
        }
    }
}

#[test]
fn covering_contains_every_sample_point() {
    let schema = web_mercator_schema(8);
    let query = Rect {
        x_min: -3_000_000_000_000,
        y_min: -1_000_000_000_000,
        x_max: 2_500_000_000_000,
        y_max: 4_000_000_000_000,
    };
    let z = 4;
    let tiles = schema.tiles_covering(&query, z).expect("level exists");
    let samples = [
        (query.x_min, query.y_min),
        (query.x_max, query.y_max),
        (query.x_min, query.y_max),
        (query.x_max, query.y_min),
        (0, 0),
        (1_000_000_000, -500_000_000_000),
    ];
    for (px, py) in samples {
        let covered = tiles.iter().any(|t| {
            let bbox = schema.tile_bbox(*t).expect("tile rectangle fits");
            bbox.contains(px, py)
        });
        assert!(covered, "point ({px}, {py}) must lie in a covering tile");
    }
}

#[test]
fn tile_bbox_level_zero_exact() {
    let schema = web_mercator_schema(2);
    let bbox = schema.tile_bbox(TileIndex { x: 0, y: 0, z: 0 }).expect("fits");
    let span = (TOP_RESOLUTION * 1024) as i64;
    assert_eq!(bbox.x_min, -MERCATOR_EDGE);
    assert_eq!(bbox.x_max, -MERCATOR_EDGE + span);
    assert_eq!(bbox.y_max, MERCATOR_EDGE);
    assert_eq!(bbox.y_min, MERCATOR_EDGE - span);
}

#[test]
fn boundary_aligned_bbox_is_single_tile() {
    // a box that is exactly one level-one tile: the far edges land on grid
    // lines and must not pull in a spurious extra row or column
    let schema = web_mercator_schema(4);
    let tile = TileIndex { x: 1, y: 1, z: 1 };
    let bbox = schema.tile_bbox(tile).expect("fits");
    let tiles = schema.tiles_covering(&bbox, 1).expect("level exists");
    assert_eq!(tiles.len(), 1);
    assert_eq!(tiles[0], tile);
}

#[test]
fn negative_tiles_left_of_origin() {
    let schema = web_mercator_schema(4);
    let query = Rect {
        x_min: -MERCATOR_EDGE - 40_000_000_000_000,
        y_min: MERCATOR_EDGE - 1_000_000,
        x_max: -MERCATOR_EDGE - 1_000_000,
        y_max: MERCATOR_EDGE - 1,
    };
    let tiles = schema.tiles_covering(&query, 0).expect("level exists");
    assert!(!tiles.is_empty());
    assert!(tiles.iter().all(|t| t.x < 0 && t.y == 0));
}

#[test]
fn wrapping_index_normalises_across_antimeridian() {
    let a = WrappingTileIndex::new(-1, 3, 2);
    assert_eq!(a.wrapped_x(4), 3);
    let b = WrappingTileIndex::new(7, 3, 2);
    assert_eq!(b.wrapped_x(4), 3);
    assert_eq!(a.unwrapped(), TileIndex { x: -1, y: 3, z: 2 });
}

#[test]
fn lod_rejects_zero_resolution() {
    assert!(Lod::new(0, 3).is_none());
    let lod = Lod::new(10, 3).unwrap();
    assert_eq!(lod.resolution, 10);
    assert_eq!(lod.level, 3);
}
