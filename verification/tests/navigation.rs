//! The navigation state machine: wall checks, floor transitions, lazy floor
//! creation, and the stability of visited floors.

use dungeon::{Game, Position, RandomSource, Tile};

/// A game whose entry floor is 20 by 10 with the ladder down at (5, 5) and
/// the player at `player`; `extra` scripts any draws made later.
fn scripted_game(player: Position, extra: &[u16]) -> Game {
    let mut script = vec![0, 0, 5, 5, player.x, player.y];
    script.extend_from_slice(extra);
    Game::new_with_source(RandomSource::scripted(script))
}

// Scripted draws for one deeper floor: 20 by 10, ladder down at (3, 3),
// ladder up at (7, 7).
const DEEPER_FLOOR: [u16; 6] = [0, 0, 3, 3, 7, 7];

#[test]
fn fresh_game_starts_on_a_free_cell_of_the_entry_floor() {
    let game = Game::new();
    assert_eq!(game.floor, 0);
    assert_eq!(game.maps.len(), 1);
    let pos = game.character_position;
    let map = game.map();
    assert!(pos.x < map.width && pos.y < map.height);
    assert_eq!(map.tile_at(&pos), Tile::Ground);
}

#[test]
fn moving_into_a_wall_is_rejected_and_moving_away_succeeds() {
    // The player stands at (1, 1), a walkable cell adjacent to the border
    // wall at (0, 1).
    let mut game = scripted_game(Position { x: 1, y: 1 }, &[]);
    assert_eq!(game.map().tile_at(&Position { x: 0, y: 1 }), Tile::Wall);

    game.move_left();
    assert_eq!(game.character_position, Position { x: 1, y: 1 });
    assert_eq!(game.floor, 0);

    game.move_up();
    assert_eq!(game.character_position, Position { x: 1, y: 1 });

    game.move_right();
    assert_eq!(game.character_position, Position { x: 2, y: 1 });

    game.move_down();
    assert_eq!(game.character_position, Position { x: 2, y: 2 });
}

#[test]
fn stepping_on_the_ladder_down_creates_and_enters_the_next_floor() {
    // The player stands at (4, 5), one step left of the ladder down.
    let mut game = scripted_game(Position { x: 4, y: 5 }, &DEEPER_FLOOR);
    assert_eq!(game.maps.len(), 1);

    game.move_right();

    assert_eq!(game.floor, 1);
    assert_eq!(game.maps.len(), 2);
    let ladder_up = game.maps[1].find_tile(Tile::LadderUp).unwrap();
    assert_eq!(game.character_position, ladder_up);
    assert_eq!(ladder_up, Position { x: 7, y: 7 });
}

#[test]
fn descending_then_ascending_returns_to_the_ladder_down() {
    let mut game = scripted_game(Position { x: 4, y: 5 }, &DEEPER_FLOOR);

    game.move_right();
    assert_eq!(game.floor, 1);

    // Step off the ladder up and back onto it.
    game.move_left();
    assert_eq!(game.character_position, Position { x: 6, y: 7 });
    game.move_right();

    assert_eq!(game.floor, 0);
    assert_eq!(game.character_position, Position { x: 5, y: 5 });
    assert_eq!(
        game.maps[0].find_tile(Tile::LadderDown),
        Some(Position { x: 5, y: 5 })
    );
}

#[test]
fn revisiting_a_floor_does_not_regenerate_it() {
    let mut game = scripted_game(Position { x: 4, y: 5 }, &DEEPER_FLOOR);

    // Down, up, and down again.
    game.move_right();
    game.move_left();
    game.move_right();
    game.move_left();
    game.move_right();

    assert_eq!(game.floor, 1);
    assert_eq!(game.maps.len(), 2);
    // The revisited floor kept its layout: same size, same ladder cells.
    assert_eq!(game.maps[1].width, 20);
    assert_eq!(game.maps[1].height, 10);
    assert_eq!(
        game.maps[1].find_tile(Tile::LadderDown),
        Some(Position { x: 3, y: 3 })
    );
    assert_eq!(
        game.maps[1].find_tile(Tile::LadderUp),
        Some(Position { x: 7, y: 7 })
    );
    assert_eq!(game.character_position, Position { x: 7, y: 7 });
}

#[test]
fn moves_never_leave_the_player_on_a_wall_or_off_the_floor() {
    let mut game = Game::new();
    for round in 0..50 {
        for step in 0..4 {
            match (round + step) % 4 {
                0 => game.move_up(),
                1 => game.move_left(),
                2 => game.move_down(),
                _ => game.move_right(),
            }
            let pos = game.character_position;
            let map = game.map();
            assert!(pos.x < map.width && pos.y < map.height);
            assert_ne!(map.tile_at(&pos), Tile::Wall);
        }
    }
}

#[test]
fn tiles_query_overlays_the_character_last() {
    let game = scripted_game(Position { x: 1, y: 1 }, &[]);
    let tiles = game.tiles();
    // A 20 by 10 floor stores one tile per cell; the overlay adds one.
    assert_eq!(tiles.len(), 201);
    assert_eq!(
        tiles.last().copied(),
        Some((Position { x: 1, y: 1 }, Tile::Character))
    );
    assert!(tiles.contains(&(Position { x: 5, y: 5 }, Tile::LadderDown)));
    assert!(tiles.contains(&(Position { x: 0, y: 0 }, Tile::Wall)));
    assert!(tiles.contains(&(Position { x: 2, y: 2 }, Tile::Ground)));
}
