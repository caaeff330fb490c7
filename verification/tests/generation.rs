use dungeon_gen::grid::{Grid, TileType, MAP_HEIGHT, MAP_WIDTH, TILE_COUNT};
use dungeon_gen::map_builders::bsp_map::BspMapBuilder;
use dungeon_gen::map_builders::common::{
    apply_horizontal_tunnel, apply_room_to_map, apply_vertical_tunnel,
};
use dungeon_gen::map_builders::simple_map::SimpleMapBuilder;
use dungeon_gen::map_builders::{bsp_builder, random_builder, simple_builder, MapBuilder};
use dungeon_gen::rect::{Point, Rectangle};

fn small_grid(width: usize, height: usize) -> Grid {
    Grid {
        tiles: vec![TileType::Wall; width * height],
        width,
        height,
    }
}

#[test]
fn fresh_grid_is_all_wall() {
    let g = Grid::new();
    assert_eq!(g.width, MAP_WIDTH);
    assert_eq!(g.height, MAP_HEIGHT);
    assert_eq!(g.tiles.len(), MAP_WIDTH * MAP_HEIGHT);
    assert_eq!(g.tiles.len(), TILE_COUNT);
    assert!(g.tiles.iter().all(|t| *t == TileType::Wall));
}

#[test]
fn xy_idx_is_row_major() {
    let g = Grid::new();
    assert_eq!(g.xy_idx(0, 0), 0);
    assert_eq!(g.xy_idx(3, 2), 2 * 80 + 3);
    assert_eq!(g.xy_idx(79, 49), 49 * 80 + 79);
}

#[test]
fn rectangle_create_and_queries() {
    let r = Rectangle::create(1, 2, 4, 6);
    assert_eq!(r.lower, Point::create(1, 2));
    assert_eq!(r.upper, Point::create(5, 8));
    assert_eq!(r.width(), 4);
    assert_eq!(r.height(), 6);
    assert_eq!(r.center(), Point::create(3, 5));
}

#[test]
fn rectangle_center_truncates_toward_zero() {
    let r = Rectangle::create(-3, -3, 3, 3);
    assert_eq!(r.center(), Point::create(-1, -1));
}

#[test]
fn rectangle_intersection_cases() {
    let a = Rectangle::create(0, 0, 4, 4);
    let b = Rectangle::create(2, 2, 4, 4);
    let c = Rectangle::create(10, 10, 2, 2);
    assert!(a.intersect(&b));
    assert!(!c.intersect(&a));
    // the comparison chains x before y, so a rectangle far above still
    // "intersects" one whose y-range ends before it starts
    let d = Rectangle::create(2, 10, 1, 1);
    assert!(a.intersect(&d));
}

#[test]
fn rectangle_intersection_is_symmetric() {
    let samples = [
        Rectangle::create(0, 0, 4, 4),
        Rectangle::create(2, 2, 4, 4),
        Rectangle::create(10, 10, 2, 2),
        Rectangle::create(-5, 3, 2, 9),
        Rectangle::create(5, 0, 1, 1),
        Rectangle::create(0, 7, 3, 1),
    ];
    for a in samples.iter() {
        for b in samples.iter() {
            assert_eq!(a.intersect(b), b.intersect(a));
        }
    }
}

#[test]
fn stamp_room_fills_interior_only() {
    let mut g = small_grid(4, 4);
    let room = Rectangle::create(0, 0, 2, 2);
    apply_room_to_map(&mut g, &room);
    for y in 0..4i32 {
        for x in 0..4i32 {
            let expect = (1..=2).contains(&x) && (1..=2).contains(&y);
            let got = g.tiles[(y * 4 + x) as usize] == TileType::Room;
            assert_eq!(got, expect, "tile ({x},{y})");
        }
    }
}

#[test]
fn stamp_room_overwrites_tunnel() {
    let mut g = small_grid(4, 4);
    g.tiles[5] = TileType::Tunnel;
    apply_room_to_map(&mut g, &Rectangle::create(0, 0, 2, 2));
    assert_eq!(g.tiles[5], TileType::Room);
}

#[test]
fn horizontal_tunnel_carves_inclusive_range() {
    let mut g = small_grid(10, 10);
    apply_horizontal_tunnel(&mut g, 2, 5, 3);
    for y in 0..10i32 {
        for x in 0..10i32 {
            let expect = y == 3 && (2..=5).contains(&x);
            let got = g.tiles[(y * 10 + x) as usize] == TileType::Tunnel;
            assert_eq!(got, expect, "tile ({x},{y})");
        }
    }
}

#[test]
fn horizontal_tunnel_swapped_endpoints() {
    let mut g = small_grid(10, 10);
    apply_horizontal_tunnel(&mut g, 5, 2, 3);
    for x in 2..=5i32 {
        assert_eq!(g.tiles[(3 * 10 + x) as usize], TileType::Tunnel);
    }
}

#[test]
fn vertical_tunnel_carves_inclusive_range() {
    let mut g = small_grid(10, 10);
    apply_vertical_tunnel(&mut g, 1, 3, 2);
    for y in 0..10i32 {
        for x in 0..10i32 {
            let expect = x == 2 && (1..=3).contains(&y);
            let got = g.tiles[(y * 10 + x) as usize] == TileType::Tunnel;
            assert_eq!(got, expect, "tile ({x},{y})");
        }
    }
}

#[test]
fn tunnel_never_downgrades_room() {
    let mut g = small_grid(10, 10);
    g.tiles[3 * 10 + 4] = TileType::Room;
    apply_horizontal_tunnel(&mut g, 2, 7, 3);
    assert_eq!(g.tiles[3 * 10 + 4], TileType::Room);
    assert_eq!(g.tiles[3 * 10 + 3], TileType::Tunnel);
    assert_eq!(g.tiles[3 * 10 + 5], TileType::Tunnel);
    g.tiles[5 * 10 + 2] = TileType::Room;
    apply_vertical_tunnel(&mut g, 3, 8, 2);
    assert_eq!(g.tiles[5 * 10 + 2], TileType::Room);
}

#[test]
fn tunnel_skips_index_zero_and_out_of_bounds() {
    let mut g = small_grid(10, 10);
    // row 0 from column 0: index 0 stays Wall by the strict lower guard
    apply_horizontal_tunnel(&mut g, 0, 2, 0);
    assert_eq!(g.tiles[0], TileType::Wall);
    assert_eq!(g.tiles[1], TileType::Tunnel);
    assert_eq!(g.tiles[2], TileType::Tunnel);
    // a row beyond the grid computes only out-of-range indices: no change
    let before = g.tiles.clone();
    apply_horizontal_tunnel(&mut g, 0, 9, 40);
    assert_eq!(g.tiles, before);
}

#[test]
fn simple_build_history_and_final_map() {
    let mut b = SimpleMapBuilder::with_seed(7);
    b.build();
    let history = b.get_snapshot_history();
    assert!(!history.is_empty());
    // the first snapshot is the all-Wall grid as constructed
    assert!(history[0].tiles.iter().all(|t| *t == TileType::Wall));
    for snap in history.iter() {
        assert_eq!(snap.tiles.len(), snap.width * snap.height);
    }
    // the first sampled room is always accepted, so at least three snapshots;
    // one initial snapshot plus two per accepted room, thirty attempts at most
    assert!(history.len() >= 3);
    assert!(history.len() % 2 == 1);
    assert!(history.len() <= 61);
    let final_map = b.get_map();
    assert_eq!(history.last().unwrap(), &final_map);
    assert!(final_map.tiles.iter().any(|t| *t == TileType::Room));
}

#[test]
fn bsp_build_history_and_final_map() {
    let mut b = BspMapBuilder::with_seed(11);
    b.build();
    let history = b.get_snapshot_history();
    assert!(!history.is_empty());
    assert!(history[0].tiles.iter().all(|t| *t == TileType::Wall));
    for snap in history.iter() {
        assert_eq!(snap.tiles.len(), snap.width * snap.height);
    }
    let final_map = b.get_map();
    assert_eq!(history.last().unwrap(), &final_map);
}

#[test]
fn simple_build_is_deterministic_under_a_seed() {
    let mut a = SimpleMapBuilder::with_seed(42);
    let mut b = SimpleMapBuilder::with_seed(42);
    a.build();
    b.build();
    assert_eq!(a.get_snapshot_history(), b.get_snapshot_history());
    assert_eq!(a.get_map(), b.get_map());
}

#[test]
fn bsp_build_is_deterministic_under_a_seed() {
    let mut a = BspMapBuilder::with_seed(42);
    let mut b = BspMapBuilder::with_seed(42);
    a.build();
    b.build();
    assert_eq!(a.get_snapshot_history(), b.get_snapshot_history());
    assert_eq!(a.get_map(), b.get_map());
}

#[test]
fn connect_rooms_without_pairs_changes_nothing() {
    let mut b = BspMapBuilder::with_seed(3);
    b.take_snapshot();
    let map_before = b.get_map();
    let history_before = b.get_snapshot_history();
    // a fresh builder has no accepted rooms: no corridor step may run
    b.connect_rooms();
    assert_eq!(b.get_map(), map_before);
    assert_eq!(b.get_snapshot_history(), history_before);
}

#[test]
fn draw_corridor_carves_l_path() {
    let mut b = BspMapBuilder::with_seed(5);
    b.draw_corridor(Point::create(4, 9), Point::create(7, 6));
    let map = b.get_map();
    // first leg runs along the start's row toward the finish column
    for x in 5..=7i32 {
        assert_eq!(map.tiles[(9 * 80 + x) as usize], TileType::Tunnel);
    }
    // second leg climbs the finish column from the start row to the finish row
    for y in 6..=8i32 {
        assert_eq!(map.tiles[(y * 80 + 7) as usize], TileType::Tunnel);
    }
    let carved = map
        .tiles
        .iter()
        .filter(|t| **t == TileType::Tunnel)
        .count();
    assert_eq!(carved, 6);
}

#[test]
fn history_room_tiles_never_revert() {
    let mut s = SimpleMapBuilder::with_seed(9);
    s.build();
    let mut b = BspMapBuilder::with_seed(9);
    b.build();
    for history in [s.get_snapshot_history(), b.get_snapshot_history()] {
        for pair in history.windows(2) {
            for i in 0..pair[0].tiles.len() {
                if pair[0].tiles[i] == TileType::Room {
                    assert_eq!(pair[1].tiles[i], TileType::Room);
                }
                if pair[1].tiles[i] == TileType::Wall {
                    assert_eq!(pair[0].tiles[i], TileType::Wall);
                }
            }
        }
    }
}

#[test]
fn draw_corridor_preserves_rooms() {
    let mut b = BspMapBuilder::with_seed(1);
    b.build();
    let before = b.get_map();
    b.draw_corridor(Point::create(1, 1), Point::create(78, 48));
    let after = b.get_map();
    assert_ne!(before.tiles, after.tiles);
    for i in 0..before.tiles.len() {
        if before.tiles[i] == TileType::Room {
            assert_eq!(after.tiles[i], TileType::Room);
        }
    }
}

#[test]
fn builder_names_are_fixed() {
    let mut s = simple_builder();
    let mut b = bsp_builder();
    assert_eq!(s.name(), "Simple");
    assert_eq!(b.name(), "Binary Space Partition");
    s.build();
    b.build();
    assert!(!s.get_snapshot_history().is_empty());
    assert!(!b.get_snapshot_history().is_empty());
}

#[test]
fn random_builder_yields_a_working_strategy() {
    let mut b = random_builder();
    let label = b.name().to_string();
    assert!(label == "Simple" || label == "Binary Space Partition");
    b.build();
    let history = b.get_snapshot_history();
    assert!(!history.is_empty());
    assert!(history[0].tiles.iter().all(|t| *t == TileType::Wall));
}

#[test]
fn take_snapshot_appends_a_copy() {
    let mut b = simple_builder();
    b.take_snapshot();
    b.take_snapshot();
    let history = b.get_snapshot_history();
    assert_eq!(history.len(), 2);
    assert_eq!(history[0], history[1]);
    assert_eq!(history[0], b.get_map());
}
