//! The render query: one text row per visible line, with centering padding
//! and the character overlay.

use dungeon::{map_as_strings, Game, Position, RandomSource};

/// A game whose entry floor is 20 by 10 with the ladder down at (5, 5) and
/// the player at (1, 1).
fn scripted_game() -> Game {
    Game::new_with_source(RandomSource::scripted(vec![0, 0, 5, 5, 1, 1]))
}

#[test]
fn view_matching_the_map_renders_it_cell_for_cell() {
    let game = scripted_game();
    let rows = map_as_strings(&game, 20, 10);
    assert_eq!(rows.len(), 10);
    for row in &rows {
        assert_eq!(row.chars().count(), 20);
    }
    assert_eq!(rows[0], "####################");
    assert_eq!(rows[1], "#@.................#");
    assert_eq!(rows[5], "#....↓.............#");
    assert_eq!(rows[9], "####################");
}

#[test]
fn character_and_ladder_overlay_their_cells() {
    let game = scripted_game();
    let rows = map_as_strings(&game, 20, 10);
    let row1: Vec<char> = rows[1].chars().collect();
    assert_eq!(row1[0], '#');
    assert_eq!(row1[1], '@');
    assert_eq!(row1[2], '.');
    assert_eq!(row1[19], '#');
    let row5: Vec<char> = rows[5].chars().collect();
    assert_eq!(row5[5], '↓');
    assert_eq!(row5[4], '.');
}

#[test]
fn larger_view_pads_the_centered_map_with_blanks() {
    let game = scripted_game();
    let rows = map_as_strings(&game, 24, 12);
    assert_eq!(rows.len(), 12);
    // One line of vertical padding above, two columns of horizontal padding
    // on the left.
    assert_eq!(rows[0], " ".repeat(24));
    assert_eq!(rows[11], " ".repeat(24));
    assert_eq!(rows[1], format!("  {}  ", "#".repeat(20)));
    let row2: Vec<char> = rows[2].chars().collect();
    assert_eq!(row2[0], ' ');
    assert_eq!(row2[1], ' ');
    assert_eq!(row2[2], '#');
    assert_eq!(row2[3], '@');
}
