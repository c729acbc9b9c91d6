//! The navigation state machine: the append-only stack of floors, the
//! player's current depth and position, and the move operation with its
//! wall checks and floor transitions.

use vstd::prelude::*;

use crate::floor::{lemma_interior_free, Floor};
use crate::rng::RandomSource;
use crate::tile::{Position, Tile};

verus! {

/// The whole navigation state. `floor` indexes `maps`; floors are appended
/// on first descent and never removed or regenerated.
pub struct Game {
    pub floor: usize,
    pub maps: Vec<Floor>,
    pub character_position: Position,
    pub rng: RandomSource,
}

impl Game {
    /// The floor the player currently stands on.
    pub open spec fn current(self) -> Floor {
        self.maps@[self.floor as int]
    }

    /// The navigation invariant: the current depth indexes a generated
    /// floor, every generated floor satisfies the floor invariant for its
    /// depth, and the player stands on a cell of the current floor that is
    /// not a `Wall`.
    pub open spec fn wf(self) -> bool {
        &&& self.floor < self.maps@.len()
        &&& forall|i: int| 0 <= i < self.maps@.len() ==> (#[trigger] self.maps@[i]).wf(i)
        &&& self.current().in_bounds(self.character_position)
        &&& self.current().spec_tile_at(self.character_position) != Tile::Wall
    }

    /// How one call of the move operation with destination `dest` relates
    /// the state before (`pre`) to the state after (`post`), by the tile
    /// stored at `dest` on the current floor:
    /// - `Wall`: no state change;
    /// - `LadderDown`: the depth grows by one; a floor is appended only when
    ///   that depth was never visited, so revisiting regenerates nothing;
    ///   the player lands on the deeper floor's own `LadderUp` cell;
    /// - `LadderUp`: the depth shrinks by one, no floor changes, and the
    ///   player lands on the shallower floor's own `LadderDown` cell;
    /// - anything else (open ground or an empty cell): the player moves to
    ///   `dest` and nothing else changes.
    pub open spec fn step(pre: Game, dest: Position, post: Game) -> bool {
        let t = pre.current().spec_tile_at(dest);
        if t == Tile::Wall {
            &&& post.floor == pre.floor
            &&& post.maps@ == pre.maps@
            &&& post.character_position == pre.character_position
        } else if t == Tile::LadderDown {
            &&& post.floor == pre.floor + 1
            &&& (pre.floor + 1 < pre.maps@.len() ==> post.maps@ == pre.maps@)
            &&& (pre.floor + 1 == pre.maps@.len() ==> post.maps@.len() == pre.maps@.len() + 1
                && post.maps@.subrange(0, pre.maps@.len() as int) == pre.maps@
                && post.maps@.last().wf(pre.floor + 1))
            &&& post.character_position == post.current().the_tile(Tile::LadderUp)
        } else if t == Tile::LadderUp {
            &&& pre.floor > 0
            &&& post.floor == pre.floor - 1
            &&& post.maps@ == pre.maps@
            &&& post.character_position == post.current().the_tile(Tile::LadderDown)
        } else {
            &&& post.floor == pre.floor
            &&& post.maps@ == pre.maps@
            &&& post.character_position == dest
        }
    }

    /// Start a game with the entry floor generated and the player on a
    /// random free cell of it — open ground or an empty cell, never a wall
    /// or a ladder — drawing from the thread-local generator.
    pub fn new() -> (g: Game)
        ensures
            g.wf(),
            g.floor == 0,
            g.maps@.len() == 1,
            g.current().unoccupied(g.character_position),
    {
        Game::new_with_source(RandomSource::system())
    }

    /// Start a game drawing every random value from the given source; a
    /// scripted source reproduces a layout exactly. The player starts on a
    /// free cell of the entry floor.
    pub fn new_with_source(source: RandomSource) -> (g: Game)
        ensures
            g.wf(),
            g.floor == 0,
            g.maps@.len() == 1,
            g.current().unoccupied(g.character_position),
    {
        let mut source = source;
        let first_map = Floor::new(0, &mut source);
        proof {
            lemma_floor_has_free_cell(first_map, 0);
        }
        let character_position = first_map.random_unocuppied_position(&mut source);
        let mut maps: Vec<Floor> = Vec::new();
        maps.push(first_map);
        Game { floor: 0, character_position, maps, rng: source }
    }

    /// The floor the player is currently on.
    pub fn map(&self) -> (m: &Floor)
        requires
            self.floor < self.maps@.len(),
        ensures
            *m == self.current(),
    {
        &self.maps[self.floor]
    }

    /// Every stored tile of the current floor, in unspecified order, with
    /// the character overlaid as the last entry. The character is state of
    /// the navigation machine, never a stored tile.
    pub fn tiles(&self) -> (r: Vec<(Position, Tile)>)
        requires
            self.wf(),
        ensures
            r@.len() == self.current().tiles.entries_seq().len() + 1,
            r@.last() == (self.character_position, Tile::Character),
            forall|k1: int, k2: int|
                0 <= k1 < k2 < r@.len() - 1 ==> (#[trigger] r@[k1]).0 != (#[trigger] r@[k2]).0,
            forall|k: int|
                0 <= k < r@.len() - 1 ==> self.current().tile_is((#[trigger] r@[k]).0, r@[k].1),
            forall|p: Position|
                self.current().tiles.as_map().dom().contains(p) ==> exists|k: int|
                    0 <= k < r@.len() - 1 && #[trigger] r@[k] == (
                    p,
                    self.current().tiles.as_map()[p],
                    ),
    {
        let mut entries = self.maps[self.floor].tiles.to_entries();
        let ghost stored = entries@;
        entries.push((self.character_position, Tile::Character));
        proof {
            let m = self.current().tiles.as_map();
            assert forall|p: Position| m.dom().contains(p) implies exists|k: int|
                0 <= k < entries@.len() - 1 && #[trigger] entries@[k] == (p, m[p]) by {
                let k = choose|k: int| 0 <= k < stored.len() && #[trigger] stored[k] == (p, m[p]);
                assert(entries@[k] == (p, m[p]));
            }
        }
        entries
    }

    /// Move one cell towards smaller `y`. Moving off the top edge is
    /// rejected silently, as is moving into a `Wall`; a ladder on the
    /// destination cell completes the floor transition in the same step.
    pub fn move_up(&mut self)
        requires
            old(self).wf(),
        ensures
            final(self).wf(),
            old(self).character_position.y == 0 ==> *final(self) == *old(self),
            old(self).character_position.y > 0 ==> Game::step(
                *old(self),
                (Position {
                    x: old(self).character_position.x,
                    y: (old(self).character_position.y - 1) as u16,
                }),
                *final(self),
            ),
    {
        if self.character_position.y == 0 {
            return;
        }
        let dest_position = Position {
            x: self.character_position.x,
            y: self.character_position.y - 1,
        };
        self.move_to(dest_position);
    }

    /// Move one cell towards larger `y`; see `move_up`.
    pub fn move_down(&mut self)
        requires
            old(self).wf(),
        ensures
            final(self).wf(),
            Game::step(
                *old(self),
                (Position {
                    x: old(self).character_position.x,
                    y: (old(self).character_position.y + 1) as u16,
                }),
                *final(self),
            ),
    {
        proof {
            lemma_player_interior(*self);
        }
        let dest_position = Position {
            x: self.character_position.x,
            y: self.character_position.y + 1,
        };
        self.move_to(dest_position);
    }

    /// Move one cell towards smaller `x`. Moving off the left edge is
    /// rejected silently; see `move_up`.
    pub fn move_left(&mut self)
        requires
            old(self).wf(),
        ensures
            final(self).wf(),
            old(self).character_position.x == 0 ==> *final(self) == *old(self),
            old(self).character_position.x > 0 ==> Game::step(
                *old(self),
                (Position {
                    x: (old(self).character_position.x - 1) as u16,
                    y: old(self).character_position.y,
                }),
                *final(self),
            ),
    {
        if self.character_position.x == 0 {
            return;
        }
        let dest_position = Position {
            x: self.character_position.x - 1,
            y: self.character_position.y,
        };
        self.move_to(dest_position);
    }

    /// Move one cell towards larger `x`; see `move_up`.
    pub fn move_right(&mut self)
        requires
            old(self).wf(),
        ensures
            final(self).wf(),
            Game::step(
                *old(self),
                (Position {
                    x: (old(self).character_position.x + 1) as u16,
                    y: old(self).character_position.y,
                }),
                *final(self),
            ),
    {
        proof {
            lemma_player_interior(*self);
        }
        let dest_position = Position {
            x: self.character_position.x + 1,
            y: self.character_position.y,
        };
        self.move_to(dest_position);
    }

    /// Apply one move to `dest_position`: a wall rejects it, a ladder
    /// triggers the matching floor transition, any other cell receives the
    /// player.
    fn move_to(&mut self, dest_position: Position)
        requires
            old(self).wf(),
            old(self).current().in_bounds(dest_position),
        ensures
            final(self).wf(),
            Game::step(*old(self), dest_position, *final(self)),
    {
        let tile = self.maps[self.floor].tile_at(&dest_position);
        match tile {
            // Stepping on a down ladder moves the player to the floor below,
            // onto its up ladder; the floor is generated on first visit.
            Tile::LadderDown => {
                let visited = self.maps.len();
                self.floor = self.floor + 1;
                if self.floor == visited {
                    let next = Floor::new(self.floor, &mut self.rng);
                    self.maps.push(next);
                    proof {
                        assert(self.maps@.subrange(0, old(self).maps@.len() as int) =~= old(
                            self,
                        ).maps@);
                    }
                }
                let found = self.maps[self.floor].find_tile(Tile::LadderUp);
                match found {
                    Some(p) => {
                        proof {
                            lemma_found_is_the_tile(
                                self.maps@[self.floor as int],
                                self.floor as int,
                                p,
                                Tile::LadderUp,
                            );
                        }
                        self.character_position = p;
                    },
                    None => {
                        proof {
                            // The floor below the entry floor always has its
                            // ladder up; a missing one contradicts the floor
                            // invariant.
                            assert(self.maps@[self.floor as int].has_tile(Tile::LadderUp));
                            assert(false);
                        }
                    },
                }
            },
            // Stepping on an up ladder moves the player to the floor above,
            // onto its down ladder.
            Tile::LadderUp => {
                proof {
                    // The entry floor stores no up ladder, so the depth is
                    // positive here.
                    assert(old(self).current().tile_is(dest_position, Tile::LadderUp));
                    assert(old(self).current().has_tile(Tile::LadderUp));
                    assert(self.floor > 0);
                }
                self.floor = self.floor - 1;
                let found = self.maps[self.floor].find_tile(Tile::LadderDown);
                match found {
                    Some(p) => {
                        proof {
                            lemma_found_is_the_tile(
                                self.maps@[self.floor as int],
                                self.floor as int,
                                p,
                                Tile::LadderDown,
                            );
                        }
                        self.character_position = p;
                    },
                    None => {
                        proof {
                            // Every floor has its ladder down; a missing one
                            // contradicts the floor invariant.
                            assert(self.maps@[self.floor as int].has_tile(Tile::LadderDown));
                            assert(false);
                        }
                    },
                }
            },
            // Attempting to move into a wall does nothing.
            Tile::Wall => {},
            // Otherwise the destination receives the player.
            _ => {
                self.character_position = dest_position;
            },
        }
    }
}

/// On a well-formed state the player stands on an interior cell: border
/// cells hold walls, and the player never stands on a wall.
proof fn lemma_player_interior(g: Game)
    requires
        g.wf(),
    ensures
        0 < g.character_position.x < g.current().width - 1,
        0 < g.character_position.y < g.current().height - 1,
{
    let pos = g.character_position;
    assert(g.current().in_bounds(pos));
    if g.current().is_border(pos) {
        assert(g.current().tile_is(pos, Tile::Wall));
    }
}

/// A well-formed floor keeps each ladder kind unique, so any cell found to
/// hold one is the cell `the_tile` names.
proof fn lemma_found_is_the_tile(f: Floor, depth: int, p: Position, t: Tile)
    requires
        f.wf(depth),
        f.tile_is(p, t),
        t == Tile::LadderUp || t == Tile::LadderDown,
    ensures
        p == f.the_tile(t),
        f.in_bounds(p),
        f.spec_tile_at(p) == t,
{
    assert(f.tile_is(f.the_tile(t), t));
    assert(f.tiles.as_map().dom().contains(p));
}

/// A well-formed entry floor always keeps a free cell: it stores no
/// `LadderUp`, and of the interior cells (1, 1) and (1, 2) at most one can
/// hold the unique `LadderDown`.
proof fn lemma_floor_has_free_cell(f: Floor, depth: int)
    requires
        f.wf(depth),
        4 <= f.height,
        depth == 0,
    ensures
        exists|p: Position| f.in_bounds(p) && f.unoccupied(p),
{
    let w1 = Position { x: 1, y: 1 };
    let w2 = Position { x: 1, y: 2 };
    assert(f.in_bounds(w1) && !f.is_border(w1));
    assert(f.in_bounds(w2) && !f.is_border(w2));
    if f.tile_is(w1, Tile::LadderDown) {
        lemma_interior_free(f, depth, w2);
        assert(f.in_bounds(w2) && f.unoccupied(w2));
    } else {
        lemma_interior_free(f, depth, w1);
        assert(f.in_bounds(w1) && f.unoccupied(w1));
    }
}

/// Law: the floor stack is append-only. Whatever tile a move lands on, every
/// floor generated before the move is still there, unchanged, at its depth;
/// at most one floor is appended.
pub proof fn lemma_step_appends_only(pre: Game, dest: Position, post: Game)
    requires
        pre.floor < pre.maps@.len(),
        Game::step(pre, dest, post),
    ensures
        pre.maps@.len() <= post.maps@.len() <= pre.maps@.len() + 1,
        post.maps@.subrange(0, pre.maps@.len() as int) == pre.maps@,
{
    let t = pre.current().spec_tile_at(dest);
    if t == Tile::LadderDown && pre.floor + 1 == pre.maps@.len() {
    } else {
        assert(post.maps@ == pre.maps@);
        assert(post.maps@.subrange(0, pre.maps@.len() as int) =~= pre.maps@);
    }
}

/// Law: a descent followed by an ascent restores the player's depth, leaves
/// the floor they started on unchanged, and stands them on that floor's own
/// `LadderDown` cell.
pub proof fn lemma_descend_then_ascend(g: Game, d1: Position, m: Game, d2: Position, h: Game)
    requires
        g.wf(),
        g.current().spec_tile_at(d1) == Tile::LadderDown,
        Game::step(g, d1, m),
        m.current().spec_tile_at(d2) == Tile::LadderUp,
        Game::step(m, d2, h),
    ensures
        h.floor == g.floor,
        h.maps@[g.floor as int] == g.maps@[g.floor as int],
        h.character_position == g.maps@[g.floor as int].the_tile(Tile::LadderDown),
{
    if g.floor + 1 == g.maps@.len() {
        assert(m.maps@[g.floor as int] == m.maps@.subrange(0, g.maps@.len() as int)[g.floor as int]);
    }
    assert(m.maps@[g.floor as int] == g.maps@[g.floor as int]);
    assert(h.floor == g.floor);
    assert(h.current() == m.maps@[g.floor as int]);
}

/// Law: an ascent followed by a descent restores the player's depth without
/// generating or changing any floor — the floor below was already visited —
/// and stands the player on the starting floor's own `LadderUp` cell.
pub proof fn lemma_ascend_then_descend(g: Game, d1: Position, m: Game, d2: Position, h: Game)
    requires
        g.wf(),
        g.current().spec_tile_at(d1) == Tile::LadderUp,
        Game::step(g, d1, m),
        m.current().spec_tile_at(d2) == Tile::LadderDown,
        Game::step(m, d2, h),
    ensures
        h.floor == g.floor,
        h.maps@ == g.maps@,
        h.character_position == g.maps@[g.floor as int].the_tile(Tile::LadderUp),
{
    assert(m.floor + 1 == g.floor as int);
    assert(m.floor + 1 < m.maps@.len());
    assert(h.maps@ == m.maps@);
    assert(h.current() == g.maps@[g.floor as int]);
}

} // verus!
