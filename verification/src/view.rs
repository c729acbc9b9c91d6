//! The coordinate mapper between viewport cells and world cells, and the
//! render query that turns the current floor into one text row per visible
//! line.

use vstd::prelude::*;
use vstd::string::StringExecFns;

use crate::game::Game;
use crate::tile::{Position, Tile};

verus! {

/// Where the viewport cell `view_x` lands in the world, on one axis, with
/// camera-follow and clamped scrolling; `None` is "off-map". In precedence
/// order:
/// 1. the map fits the viewport: the map is centered, and viewport cells in
///    the outer padding are off-map;
/// 2. the player is near the start edge: the map's origin is pinned to the
///    viewport's origin;
/// 3. the player is near the end edge: the map's far edge is pinned to the
///    viewport's far edge;
/// 4. otherwise the camera is centered on the player.
pub open spec fn spec_world_coord(view_x: int, player_x: int, view_width: int, map_width: int) -> Option<int> {
    if map_width <= view_width {
        if view_x + map_width / 2 >= view_width / 2 {
            Some(view_x + map_width / 2 - view_width / 2)
        } else {
            None
        }
    } else if player_x <= view_width / 2 {
        Some(view_x)
    } else if player_x >= map_width - view_width / 2 {
        Some(view_x + map_width - view_width)
    } else {
        Some(view_x + player_x - view_width / 2)
    }
}

/// Convert a view coordinate to a world coordinate, with different
/// strategies depending on the view and map relative sizes as well as the
/// player position; `None` is "off-map".
pub fn to_world_coords(view_x: u16, player_x: u16, view_width: u16, map_width: u16) -> (r: Option<
    u16,
>)
    requires
        view_x < view_width,
    ensures
        ({
            let w = spec_world_coord(
                view_x as int,
                player_x as int,
                view_width as int,
                map_width as int,
            );
            match r {
                Some(v) => w == Some(v as int),
                None => w is None,
            }
        }),
{
    if map_width <= view_width {
        // When the map fits in the view, padding is added so the map is
        // centered on the screen; view points in the starting padding are
        // off-map.
        let shifted: u32 = view_x as u32 + (map_width / 2) as u32;
        let half_view: u32 = (view_width / 2) as u32;
        if shifted >= half_view {
            proof {
                assert((map_width / 2) as int == map_width as int / 2);
                assert((view_width / 2) as int == view_width as int / 2);
                assert(map_width as int / 2 <= view_width as int / 2);
            }
            Some((shifted - half_view) as u16)
        } else {
            None
        }
    } else if player_x <= view_width / 2 {
        // The player is close to the starting edge: the map is fixed at
        // that edge and the player moves.
        Some(view_x)
    } else if player_x >= map_width - view_width / 2 {
        // The player is close to the final edge: the map is fixed at that
        // edge and the player moves.
        Some(view_x + (map_width - view_width))
    } else {
        // The player is not close to either edge: the player is fixed at
        // the center and the map scrolls.
        Some(view_x + (player_x - view_width / 2))
    }
}

/// The tile shown at viewport cell (`vx`, `vy`): the character overlay where
/// the cell maps to the player's world position, the stored tile where it
/// maps to another world cell, and `Empty` where it is off-map on either
/// axis.
pub open spec fn view_cell_tile(g: Game, vx: int, vy: int, view_width: int, view_height: int) -> Tile {
    let mx = spec_world_coord(vx, g.character_position.x as int, view_width, g.current().width as int);
    let my = spec_world_coord(vy, g.character_position.y as int, view_height, g.current().height as int);
    if mx is Some && my is Some {
        if mx->0 == g.character_position.x as int && my->0 == g.character_position.y as int {
            Tile::Character
        } else {
            g.current().spec_tile_at(Position { x: mx->0 as u16, y: my->0 as u16 })
        }
    } else {
        Tile::Empty
    }
}

/// One text row per visible line, each one character per visible column:
/// the current map state around the player, with the character overlaid on
/// top of whatever tile shares its cell.
pub fn map_as_strings(game: &Game, view_width: u16, view_height: u16) -> (rows: Vec<String>)
    requires
        game.wf(),
    ensures
        rows@.len() == view_height as int,
        forall|vy: int|
            0 <= vy < view_height as int ==> (#[trigger] rows@[vy])@ == Seq::new(
                view_width as nat,
                |vx: int|
                    view_cell_tile(*game, vx, vy, view_width as int, view_height as int).spec_char(),
            ),
{
    let char_x = game.character_position.x;
    let char_y = game.character_position.y;

    let mut rows: Vec<String> = Vec::new();
    let mut vy: u16 = 0;
    while vy < view_height
        invariant
            game.wf(),
            vy <= view_height,
            rows@.len() == vy as int,
            char_x == game.character_position.x,
            char_y == game.character_position.y,
            forall|j: int|
                0 <= j < vy as int ==> (#[trigger] rows@[j])@ == Seq::new(
                    view_width as nat,
                    |vx: int|
                        view_cell_tile(
                            *game,
                            vx,
                            j,
                            view_width as int,
                            view_height as int,
                        ).spec_char(),
                ),
        decreases view_height - vy,
    {
        let mut row = String::new();
        let mut vx: u16 = 0;
        while vx < view_width
            invariant
                game.wf(),
                vy < view_height,
                vx <= view_width,
                char_x == game.character_position.x,
                char_y == game.character_position.y,
                row@.len() == vx as int,
                forall|i: int|
                    0 <= i < vx as int ==> row@[i] == view_cell_tile(
                        *game,
                        i,
                        vy as int,
                        view_width as int,
                        view_height as int,
                    ).spec_char(),
            decreases view_width - vx,
        {
            let mx = to_world_coords(vx, char_x, view_width, game.map().width);
            let my = to_world_coords(vy, char_y, view_height, game.map().height);

            // If there is a tile at this position, its single-character
            // representation joins the row; off-map cells stay blank.
            let tile = match (mx, my) {
                (Some(x), Some(y)) => {
                    if x == char_x && y == char_y {
                        Tile::Character
                    } else {
                        game.map().tile_at(&Position { x, y })
                    }
                },
                _ => Tile::Empty,
            };

            row.append(tile.to_string());
            vx = vx + 1;
        }
        proof {
            assert(row@ =~= Seq::new(
                view_width as nat,
                |vx: int|
                    view_cell_tile(
                        *game,
                        vx,
                        vy as int,
                        view_width as int,
                        view_height as int,
                    ).spec_char(),
            ));
        }
        rows.push(row);
        vy = vy + 1;
    }
    rows
}

} // verus!
