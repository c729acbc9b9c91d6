//! The floor generator's invariant, checked cell by cell on generated
//! floors, and the tile grid underneath it.

use dungeon::grid::TileGrid;
use dungeon::{Floor, Position, RandomSource, Tile};

/// Scan every cell of `floor` and check the generated-floor invariant at
/// run time: walls exactly on the border, one ladder down, a ladder up
/// exactly below the entry floor, ladders on distinct interior cells.
fn check_floor_invariant(floor: &Floor, depth: usize) {
    assert!(floor.width >= 20 && floor.width <= 100);
    assert!(floor.height >= 10 && floor.height <= 50);

    let mut ladder_down = Vec::new();
    let mut ladder_up = Vec::new();
    for x in 0..floor.width {
        for y in 0..floor.height {
            let pos = Position { x, y };
            let tile = floor.tile_at(&pos);
            let border = x == 0 || x == floor.width - 1 || y == 0 || y == floor.height - 1;
            if border {
                assert_eq!(tile, Tile::Wall);
            } else {
                assert_ne!(tile, Tile::Wall);
            }
            match tile {
                Tile::LadderDown => ladder_down.push(pos),
                Tile::LadderUp => ladder_up.push(pos),
                _ => {}
            }
        }
    }
    assert_eq!(ladder_down.len(), 1);
    assert_eq!(ladder_up.len(), if depth > 0 { 1 } else { 0 });
    if depth > 0 {
        assert_ne!(ladder_down[0], ladder_up[0]);
    }
    assert_eq!(floor.find_tile(Tile::LadderDown), Some(ladder_down[0]));
}

#[test]
fn generated_entry_floor_upholds_invariant() {
    let mut source = RandomSource::system();
    for _ in 0..5 {
        let floor = Floor::new(0, &mut source);
        check_floor_invariant(&floor, 0);
        assert_eq!(floor.find_tile(Tile::LadderUp), None);
    }
}

#[test]
fn generated_deep_floor_upholds_invariant() {
    let mut source = RandomSource::system();
    for depth in 1..6 {
        let floor = Floor::new(depth, &mut source);
        check_floor_invariant(&floor, depth);
    }
}

#[test]
fn scripted_floor_has_the_scripted_layout() {
    // Draws fold into the requested range: width 20 + 0, height 10 + 0,
    // ladder down at (5, 5).
    let mut source = RandomSource::scripted(vec![0, 0, 5, 5]);
    let floor = Floor::new(0, &mut source);
    assert_eq!(floor.width, 20);
    assert_eq!(floor.height, 10);
    assert_eq!(floor.find_tile(Tile::LadderDown), Some(Position { x: 5, y: 5 }));
    assert_eq!(floor.tile_at(&Position { x: 5, y: 5 }), Tile::LadderDown);
    assert_eq!(floor.tile_at(&Position { x: 1, y: 1 }), Tile::Ground);
}

#[test]
fn random_placement_lands_on_a_free_cell() {
    let mut source = RandomSource::system();
    let floor = Floor::new(3, &mut source);
    for _ in 0..20 {
        let pos = floor.random_unocuppied_position(&mut source);
        assert!(pos.x < floor.width && pos.y < floor.height);
        assert_eq!(floor.tile_at(&pos), Tile::Ground);
    }
}

#[test]
fn grid_lookup_reports_empty_until_insert() {
    let mut grid = TileGrid::new();
    let pos = Position { x: 3, y: 4 };
    assert_eq!(grid.tile_at(&pos), Tile::Empty);
    grid.insert(pos, Tile::Ground);
    assert_eq!(grid.tile_at(&pos), Tile::Ground);
    assert_eq!(grid.tile_at(&Position { x: 4, y: 3 }), Tile::Empty);
}

#[test]
fn grid_insert_overwrites_in_place() {
    let mut grid = TileGrid::new();
    let pos = Position { x: 2, y: 2 };
    grid.insert(pos, Tile::Ground);
    grid.insert(pos, Tile::LadderDown);
    assert_eq!(grid.tile_at(&pos), Tile::LadderDown);
    assert_eq!(grid.to_entries().len(), 1);
}

#[test]
fn grid_find_tile_sees_only_stored_kinds() {
    let mut grid = TileGrid::new();
    assert_eq!(grid.find_tile(Tile::Wall), None);
    grid.insert(Position { x: 0, y: 0 }, Tile::Wall);
    grid.insert(Position { x: 1, y: 1 }, Tile::LadderUp);
    assert_eq!(grid.find_tile(Tile::LadderUp), Some(Position { x: 1, y: 1 }));
    assert_eq!(grid.find_tile(Tile::LadderDown), None);
}

#[test]
fn tile_text_is_one_symbol_each() {
    assert_eq!(Tile::Wall.to_string(), "#");
    assert_eq!(Tile::Ground.to_string(), ".");
    assert_eq!(Tile::Character.to_string(), "@");
    assert_eq!(Tile::LadderUp.to_string(), "↑");
    assert_eq!(Tile::LadderDown.to_string(), "↓");
    assert_eq!(Tile::Empty.to_string(), " ");
}

#[test]
fn scripted_source_folds_draws_into_range() {
    let mut source = RandomSource::scripted(vec![0, 9, 10, 25]);
    assert_eq!(source.gen_range(10, 19), 10);
    assert_eq!(source.gen_range(10, 19), 19);
    assert_eq!(source.gen_range(10, 19), 10);
    assert_eq!(source.gen_range(10, 19), 15);
    // Exhausted scripts fall back to the thread-local generator.
    let drawn = source.gen_range(0, 5);
    assert!(drawn <= 5);
}
