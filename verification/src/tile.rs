//! Positions on a floor and the kinds of tile a cell can hold.

use vstd::prelude::*;

verus! {

/// A world coordinate on one floor: non-negative by construction (`u16`),
/// bounded by the owning floor's width and height.
#[derive(Clone, Copy, PartialEq, Eq, Structural, Hash, Debug)]
pub struct Position {
    pub x: u16,
    pub y: u16,
}

/// What one cell of the tile grid holds. `Character` is never stored in a
/// grid: it is the overlay for the player's current position at render time.
/// `Empty` is never stored either: it is what a lookup returns for a cell
/// with no stored tile, a state distinct from `Ground`.
#[derive(Clone, Copy, PartialEq, Eq, Structural, Debug)]
pub enum Tile {
    Wall,
    Ground,
    Character,
    LadderUp,
    LadderDown,
    Empty,
}

impl Tile {
    /// The single character that stands for this tile on screen.
    pub open spec fn spec_char(self) -> char {
        match self {
            Tile::Wall => '#',
            Tile::Ground => '.',
            Tile::Character => '@',
            Tile::LadderUp => '↑',
            Tile::LadderDown => '↓',
            Tile::Empty => ' ',
        }
    }

    /// The on-screen text for this tile: exactly one character, `spec_char`.
    pub fn to_string(&self) -> (r: &'static str)
        ensures
            r@ =~= seq![self.spec_char()],
    {
        match self {
            Tile::Wall => {
                proof { reveal_strlit("#"); }
                "#"
            },
            Tile::Ground => {
                proof { reveal_strlit("."); }
                "."
            },
            Tile::Character => {
                proof { reveal_strlit("@"); }
                "@"
            },
            Tile::LadderUp => {
                proof { reveal_strlit("↑"); }
                "↑"
            },
            Tile::LadderDown => {
                proof { reveal_strlit("↓"); }
                "↓"
            },
            Tile::Empty => {
                proof { reveal_strlit(" "); }
                " "
            },
        }
    }
}

} // verus!
