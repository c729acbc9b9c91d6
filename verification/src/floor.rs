//! One floor of the dungeon: a rectangular room whose border cells are
//! walls, with one ladder down and — below the entry floor — one ladder up,
//! both placed on free interior cells.

use vstd::prelude::*;

use crate::grid::TileGrid;
use crate::rng::RandomSource;
use crate::tile::{Position, Tile};

verus! {

/// The tile the generator lays down at `p` before the ladders are placed:
/// `Wall` on the border of a `width` by `height` room, `Ground` inside.
pub open spec fn base_tile(width: u16, height: u16, p: Position) -> Tile {
    if p.x == 0 || p.x == width - 1 || p.y == 0 || p.y == height - 1 {
        Tile::Wall
    } else {
        Tile::Ground
    }
}

/// One generated level: its size and its tile grid.
pub struct Floor {
    pub width: u16,
    pub height: u16,
    pub tiles: TileGrid,
}

impl Floor {
    pub const MIN_WIDTH: u16 = 20;

    pub const MAX_WIDTH: u16 = 100;

    pub const MIN_HEIGHT: u16 = 10;

    pub const MAX_HEIGHT: u16 = 50;

    /// Whether `p` lies on this floor at all.
    pub open spec fn in_bounds(self, p: Position) -> bool {
        p.x < self.width && p.y < self.height
    }

    /// Whether `p` lies on the floor's outer edge.
    pub open spec fn is_border(self, p: Position) -> bool {
        p.x == 0 || p.x == self.width - 1 || p.y == 0 || p.y == self.height - 1
    }

    /// The tile a lookup at `p` reports (`Empty` when nothing is stored).
    pub open spec fn spec_tile_at(self, p: Position) -> Tile {
        self.tiles.spec_tile_at(p)
    }

    /// Whether a tile of kind `t` is stored at `p`.
    pub open spec fn tile_is(self, p: Position, t: Tile) -> bool {
        self.tiles.as_map().dom().contains(p) && self.tiles.as_map()[p] == t
    }

    /// Whether `p` is free for placing an object: nothing stored, or open
    /// ground. Both states behave identically under lookup.
    pub open spec fn unoccupied(self, p: Position) -> bool {
        self.spec_tile_at(p) == Tile::Ground || self.spec_tile_at(p) == Tile::Empty
    }

    /// Whether some cell stores a tile of kind `t`.
    pub open spec fn has_tile(self, t: Tile) -> bool {
        exists|p: Position| self.tile_is(p, t)
    }

    /// Whether at most one cell stores a tile of kind `t`.
    pub open spec fn tile_unique(self, t: Tile) -> bool {
        forall|p: Position, q: Position|
            self.tile_is(p, t) && self.tile_is(q, t) ==> p == q
    }

    /// The cell storing the tile of kind `t`; meaningful when `has_tile(t)`
    /// and `tile_unique(t)` hold, as they do for ladders on a generated
    /// floor.
    pub open spec fn the_tile(self, t: Tile) -> Position {
        choose|p: Position| self.tile_is(p, t)
    }

    /// Every stored tile lies on the floor and is a kind the generator
    /// places; `Character` and `Empty` are never stored.
    pub open spec fn tiles_ok(self) -> bool {
        &&& self.tiles.wf()
        &&& forall|p: Position|
            #[trigger] self.tiles.as_map().dom().contains(p) ==> self.in_bounds(p) && (
            self.tiles.as_map()[p] == Tile::Wall || self.tiles.as_map()[p] == Tile::Ground
                || self.tiles.as_map()[p] == Tile::LadderUp || self.tiles.as_map()[p]
                == Tile::LadderDown)
    }

    /// The invariant of a generated floor at the given depth: every border
    /// cell is `Wall` and every non-border cell is walkable (open ground, a
    /// ladder, or absent); exactly one `LadderDown` exists; a `LadderUp`
    /// exists if and only if the floor lies below the entry floor, and is
    /// then unique too. Since a cell stores one tile, the ladders stand on
    /// distinct cells, and never on a `Wall` cell.
    pub open spec fn wf(self, depth: int) -> bool {
        &&& 3 <= self.width
        &&& 3 <= self.height
        &&& self.tiles_ok()
        &&& forall|p: Position|
            #[trigger] self.in_bounds(p) && self.is_border(p) ==> self.tile_is(p, Tile::Wall)
        &&& forall|p: Position|
            #[trigger] self.in_bounds(p) && !self.is_border(p) ==> !self.tile_is(p, Tile::Wall)
        &&& self.has_tile(Tile::LadderDown)
        &&& self.tile_unique(Tile::LadderDown)
        &&& (depth > 0 ==> self.has_tile(Tile::LadderUp))
        &&& (depth == 0 ==> !self.has_tile(Tile::LadderUp))
        &&& self.tile_unique(Tile::LadderUp)
    }

    /// Look the tile at `position` up on this floor.
    pub fn tile_at(&self, position: &Position) -> (t: Tile)
        requires
            self.tiles.wf(),
        ensures
            t == self.spec_tile_at(*position),
    {
        self.tiles.tile_at(position)
    }

    /// The position of a stored tile of kind `expected`, or `None` when the
    /// floor has none. For kinds the generator keeps unique this is the one
    /// cell of that kind.
    pub fn find_tile(&self, expected: Tile) -> (r: Option<Position>)
        requires
            self.tiles.wf(),
        ensures
            match r {
                Some(p) => self.tile_is(p, expected),
                None => forall|p: Position| !self.tile_is(p, expected),
            },
    {
        self.tiles.find_tile(expected)
    }

    /// A position where an object can be placed: nothing stored there, or
    /// open ground. Random draws are tried first; if none of them lands on a
    /// free cell, a sweep settles on the first free cell, which the
    /// precondition guarantees to exist.
    pub fn random_unocuppied_position(&self, rng: &mut RandomSource) -> (r: Position)
        requires
            self.tiles.wf(),
            1 <= self.width,
            1 <= self.height,
            exists|p: Position| self.in_bounds(p) && self.unoccupied(p),
        ensures
            self.in_bounds(r),
            self.unoccupied(r),
    {
        let mut tries: u16 = 0;
        while tries < 64
            invariant
                self.tiles.wf(),
                1 <= self.width,
                1 <= self.height,
            decreases 64 - tries,
        {
            let x = rng.gen_range(0, self.width - 1);
            let y = rng.gen_range(0, self.height - 1);
            let pos = Position { x, y };
            let tile = self.tiles.tile_at(&pos);
            if tile == Tile::Ground || tile == Tile::Empty {
                return pos;
            }
            tries = tries + 1;
        }
        let mut y: u16 = 0;
        while y < self.height
            invariant
                self.tiles.wf(),
                1 <= self.width,
                1 <= self.height,
                y <= self.height,
                exists|p: Position| self.in_bounds(p) && self.unoccupied(p),
                forall|p: Position|
                    p.y < y && #[trigger] self.in_bounds(p) ==> !self.unoccupied(p),
            decreases self.height - y,
        {
            let mut x: u16 = 0;
            while x < self.width
                invariant
                    self.tiles.wf(),
                    1 <= self.width,
                    1 <= self.height,
                    y < self.height,
                    x <= self.width,
                    forall|p: Position|
                        (p.y < y || (p.y == y && p.x < x)) && #[trigger] self.in_bounds(p)
                            ==> !self.unoccupied(p),
                decreases self.width - x,
            {
                let pos = Position { x, y };
                let tile = self.tiles.tile_at(&pos);
                if tile == Tile::Ground || tile == Tile::Empty {
                    return pos;
                }
                x = x + 1;
            }
            y = y + 1;
        }
        proof {
            let w = choose|p: Position| self.in_bounds(p) && self.unoccupied(p);
            assert(!self.unoccupied(w));
            assert(false);
        }
        Position { x: 0, y: 0 }
    }

    /// Generate the floor at `depth`: a room of random size within the
    /// configured bounds, walls along the border, open ground inside, a
    /// `LadderDown` on a random free cell, and — when `depth > 0` — a
    /// `LadderUp` on another random free cell.
    pub fn new(depth: usize, rng: &mut RandomSource) -> (f: Floor)
        ensures
            f.wf(depth as int),
            Floor::MIN_WIDTH <= f.width <= Floor::MAX_WIDTH,
            Floor::MIN_HEIGHT <= f.height <= Floor::MAX_HEIGHT,
    {
        let width = rng.gen_range(Floor::MIN_WIDTH, Floor::MAX_WIDTH);
        let height = rng.gen_range(Floor::MIN_HEIGHT, Floor::MAX_HEIGHT);

        let mut tiles = TileGrid::new();
        let mut x: u16 = 0;
        while x < width
            invariant
                Floor::MIN_WIDTH <= width <= Floor::MAX_WIDTH,
                Floor::MIN_HEIGHT <= height <= Floor::MAX_HEIGHT,
                x <= width,
                tiles.wf(),
                forall|p: Position|
                    #[trigger] tiles.as_map().dom().contains(p) <==> (p.x < x && p.y < height),
                forall|p: Position|
                    #[trigger] tiles.as_map().dom().contains(p) ==> tiles.as_map()[p] == base_tile(
                        width,
                        height,
                        p,
                    ),
            decreases width - x,
        {
            let mut y: u16 = 0;
            while y < height
                invariant
                    Floor::MIN_WIDTH <= width <= Floor::MAX_WIDTH,
                    Floor::MIN_HEIGHT <= height <= Floor::MAX_HEIGHT,
                    x < width,
                    y <= height,
                    tiles.wf(),
                    forall|p: Position|
                        #[trigger] tiles.as_map().dom().contains(p) <==> ((p.x < x && p.y < height)
                            || (p.x == x && p.y < y)),
                    forall|p: Position|
                        #[trigger] tiles.as_map().dom().contains(p) ==> tiles.as_map()[p]
                            == base_tile(width, height, p),
                decreases height - y,
            {
                let tile = if x == 0 || x == width - 1 || y == 0 || y == height - 1 {
                    Tile::Wall
                } else {
                    Tile::Ground
                };
                tiles.insert(Position { x, y }, tile);
                y = y + 1;
            }
            x = x + 1;
        }

        let mut floor = Floor { width, height, tiles };
        let ghost base = floor;
        proof {
            let w = Position { x: 1, y: 1 };
            assert(base.tiles.as_map().dom().contains(w));
            assert(base.in_bounds(w) && base.unoccupied(w));
        }

        let down = floor.random_unocuppied_position(rng);
        proof {
            // A free cell of the freshly laid room is open ground, hence
            // interior.
            assert(base.tiles.as_map()[down] == Tile::Ground);
            assert(base_tile(width, height, down) == Tile::Ground);
        }
        floor.tiles.insert(down, Tile::LadderDown);

        if depth > 0 {
            proof {
                // Two distinct interior cells cannot both hold the ladder.
                let w1 = Position { x: 1, y: 1 };
                let w2 = Position { x: 1, y: 2 };
                if down != w1 {
                    assert(floor.in_bounds(w1) && floor.unoccupied(w1));
                } else {
                    assert(floor.in_bounds(w2) && floor.unoccupied(w2));
                }
            }
            let up = floor.random_unocuppied_position(rng);
            proof {
                assert(up != down);
                assert(base.tiles.as_map()[up] == Tile::Ground);
                assert(base_tile(width, height, up) == Tile::Ground);
            }
            floor.tiles.insert(up, Tile::LadderUp);
            proof {
                lemma_ladders_wf(base, floor, depth as int, down, Some(up));
            }
        } else {
            proof {
                lemma_ladders_wf(base, floor, depth as int, down, None);
            }
        }
        floor
    }
}

/// On a well-formed floor, an interior cell that holds neither ladder is
/// free: it stores open ground or nothing at all.
pub proof fn lemma_interior_free(f: Floor, depth: int, c: Position)
    requires
        f.wf(depth),
        f.in_bounds(c),
        !f.is_border(c),
        !f.tile_is(c, Tile::LadderDown),
        !f.tile_is(c, Tile::LadderUp),
    ensures
        f.unoccupied(c),
{
    if f.tiles.as_map().dom().contains(c) {
        assert(!f.tile_is(c, Tile::Wall));
    }
}

/// Placing the ladders on distinct free interior cells of a densely laid
/// room yields a well-formed floor.
proof fn lemma_ladders_wf(base: Floor, f: Floor, depth: int, down: Position, up: Option<Position>)
    requires
        3 <= base.width,
        3 <= base.height,
        f.width == base.width,
        f.height == base.height,
        f.tiles.wf(),
        forall|p: Position|
            #[trigger] base.tiles.as_map().dom().contains(p) <==> base.in_bounds(p),
        forall|p: Position|
            #[trigger] base.tiles.as_map().dom().contains(p) ==> base.tiles.as_map()[p]
                == base_tile(base.width, base.height, p),
        base.in_bounds(down),
        base_tile(base.width, base.height, down) == Tile::Ground,
        match up {
            Some(u) => depth > 0 && base.in_bounds(u) && u != down && base_tile(
                base.width,
                base.height,
                u,
            ) == Tile::Ground && f.tiles.as_map() == base.tiles.as_map().insert(
                down,
                Tile::LadderDown,
            ).insert(u, Tile::LadderUp),
            None => depth == 0 && f.tiles.as_map() == base.tiles.as_map().insert(
                down,
                Tile::LadderDown,
            ),
        },
    ensures
        f.wf(depth),
{
    let m = f.tiles.as_map();
    assert forall|p: Position| #[trigger] m.dom().contains(p) implies f.in_bounds(p) && (m[p]
        == Tile::Wall || m[p] == Tile::Ground || m[p] == Tile::LadderUp || m[p]
        == Tile::LadderDown) by {
        if p != down && (up is None || p != up->0) {
            assert(base.tiles.as_map().dom().contains(p));
        }
    }
    assert forall|p: Position| #[trigger] f.in_bounds(p) && f.is_border(p) implies f.tile_is(
        p,
        Tile::Wall,
    ) by {
        assert(base.tiles.as_map().dom().contains(p));
        assert(base_tile(base.width, base.height, p) == Tile::Wall);
        assert(p != down);
        if up is Some {
            assert(p != up->0);
        }
    }
    assert forall|p: Position| #[trigger] f.in_bounds(p) && !f.is_border(p) implies !f.tile_is(
        p,
        Tile::Wall,
    ) by {
        if p != down && (up is None || p != up->0) {
            assert(base.tiles.as_map().dom().contains(p));
            assert(base_tile(base.width, base.height, p) == Tile::Ground);
        }
    }
    assert(f.tile_is(down, Tile::LadderDown)) by {
        if up is Some {
            assert(up->0 != down);
        }
    }
    assert forall|p: Position, q: Position|
        f.tile_is(p, Tile::LadderDown) && f.tile_is(q, Tile::LadderDown) implies p == q by {
        lemma_only_at(base, f, down, up, p, Tile::LadderDown);
        lemma_only_at(base, f, down, up, q, Tile::LadderDown);
    }
    if up is Some {
        assert(f.tile_is(up->0, Tile::LadderUp));
    }
    assert forall|p: Position, q: Position|
        f.tile_is(p, Tile::LadderUp) && f.tile_is(q, Tile::LadderUp) implies p == q by {
        lemma_only_at(base, f, down, up, p, Tile::LadderUp);
        lemma_only_at(base, f, down, up, q, Tile::LadderUp);
    }
    if depth == 0 {
        assert(!f.has_tile(Tile::LadderUp)) by {
            assert forall|p: Position| !f.tile_is(p, Tile::LadderUp) by {
                lemma_only_at(base, f, down, up, p, Tile::LadderUp);
            }
        }
    }
}

/// In the map of `lemma_ladders_wf`, a ladder tile can only sit at the cell
/// it was inserted on: the base room stores walls and ground alone.
proof fn lemma_only_at(base: Floor, f: Floor, down: Position, up: Option<Position>, p: Position, t: Tile)
    requires
        forall|p: Position|
            #[trigger] base.tiles.as_map().dom().contains(p) ==> base.tiles.as_map()[p]
                == base_tile(base.width, base.height, p),
        match up {
            Some(u) => u != down && f.tiles.as_map() == base.tiles.as_map().insert(
                down,
                Tile::LadderDown,
            ).insert(u, Tile::LadderUp),
            None => f.tiles.as_map() == base.tiles.as_map().insert(down, Tile::LadderDown),
        },
        t == Tile::LadderDown || t == Tile::LadderUp,
    ensures
        f.tile_is(p, t) ==> (t == Tile::LadderDown && p == down) || (t == Tile::LadderUp && up
            == Some(p)),
{
    if f.tile_is(p, t) {
        if p != down && (up is None || p != up->0) {
            assert(base.tiles.as_map().dom().contains(p));
            assert(f.tiles.as_map()[p] == base_tile(base.width, base.height, p));
        }
    }
}

} // verus!
