//! A sparse tile grid: an associative container from `Position` to `Tile`
//! with unique keys. Absence of a stored tile is a state of its own, kept
//! apart from `Ground` by the lookup's `Empty` result.

use vstd::prelude::*;

use crate::tile::{Position, Tile};

verus! {

/// Sparse mapping from world position to tile kind, with unique keys.
pub struct TileGrid {
    entries: Vec<(Position, Tile)>,
}

impl TileGrid {
    /// The stored entries, in their (unspecified) iteration order.
    pub closed spec fn entries_seq(self) -> Seq<(Position, Tile)> {
        self.entries@
    }

    /// No two entries share a position.
    pub closed spec fn wf(self) -> bool {
        forall|i: int, j: int|
            0 <= i < j < self.entries@.len() ==> (#[trigger] self.entries@[i]).0 != (
            #[trigger] self.entries@[j]).0
    }

    /// Whether some entry stores a tile at `p`.
    pub closed spec fn contains_key(self, p: Position) -> bool {
        exists|i: int| 0 <= i < self.entries@.len() && (#[trigger] self.entries@[i]).0 == p
    }

    /// The index of the entry at `p`, when one exists.
    pub closed spec fn index_of(self, p: Position) -> int {
        choose|i: int| 0 <= i < self.entries@.len() && (#[trigger] self.entries@[i]).0 == p
    }

    /// The grid as a mathematical map from positions to stored tiles.
    pub closed spec fn as_map(self) -> Map<Position, Tile> {
        Map::new(|p: Position| self.contains_key(p), |p: Position| self.entries@[self.index_of(p)].1)
    }

    /// The stored tile at `p`, or `Empty` when nothing is stored there.
    pub open spec fn spec_tile_at(self, p: Position) -> Tile {
        if self.as_map().dom().contains(p) {
            self.as_map()[p]
        } else {
            Tile::Empty
        }
    }

    /// Every well-formed entry is what the map reports for its key.
    proof fn lemma_entry_value(self, i: int)
        requires
            self.wf(),
            0 <= i < self.entries@.len(),
        ensures
            self.as_map().dom().contains(self.entries@[i].0),
            self.as_map()[self.entries@[i].0] == self.entries@[i].1,
            self.index_of(self.entries@[i].0) == i,
    {
        let p = self.entries@[i].0;
        assert(self.contains_key(p));
        let j = self.index_of(p);
        assert(0 <= j < self.entries@.len() && self.entries@[j].0 == p);
        if i != j {
            assert(self.entries@[i].0 != self.entries@[j].0);
        }
    }

    /// An empty grid.
    pub fn new() -> (g: TileGrid)
        ensures
            g.wf(),
            g.as_map() == Map::<Position, Tile>::empty(),
            g.entries_seq().len() == 0,
    {
        let g = TileGrid { entries: Vec::new() };
        proof {
            assert(g.as_map() =~= Map::<Position, Tile>::empty());
        }
        g
    }

    /// Look the tile at `position` up; `Empty` stands for "nothing stored".
    pub fn tile_at(&self, position: &Position) -> (t: Tile)
        requires
            self.wf(),
        ensures
            t == self.spec_tile_at(*position),
    {
        let n = self.entries.len();
        let mut i: usize = 0;
        while i < n
            invariant
                self.wf(),
                n == self.entries@.len(),
                i <= n,
                forall|j: int| 0 <= j < i ==> (#[trigger] self.entries@[j]).0 != *position,
            decreases n - i,
        {
            if self.entries[i].0 == *position {
                proof {
                    self.lemma_entry_value(i as int);
                }
                return self.entries[i].1;
            }
            i = i + 1;
        }
        proof {
            assert(!self.contains_key(*position));
        }
        Tile::Empty
    }

    /// Store `tile` at `position`, overwriting any tile already there.
    pub fn insert(&mut self, position: Position, tile: Tile)
        requires
            old(self).wf(),
        ensures
            final(self).wf(),
            final(self).as_map() == old(self).as_map().insert(position, tile),
            final(self).entries_seq().len() <= old(self).entries_seq().len() + 1,
    {
        let ghost pre = *self;
        let n = self.entries.len();
        let mut i: usize = 0;
        while i < n
            invariant
                *self == pre,
                pre == *old(self),
                pre.wf(),
                n == pre.entries@.len(),
                i <= n,
                forall|j: int| 0 <= j < i ==> (#[trigger] pre.entries@[j]).0 != position,
            decreases n - i,
        {
            if self.entries[i].0 == position {
                self.entries.swap_remove(i);
                self.entries.push((position, tile));
                proof {
                    lemma_replace_entry(pre, *self, i as int, position, tile);
                }
                return;
            }
            i = i + 1;
        }
        self.entries.push((position, tile));
        proof {
            lemma_append_entry(pre, *self, position, tile);
        }
    }

    /// The position of some stored tile of the given kind, or `None` when no
    /// cell holds one. With kinds the floor generator keeps unique, the
    /// answer is the one cell of that kind.
    pub fn find_tile(&self, expected: Tile) -> (r: Option<Position>)
        requires
            self.wf(),
        ensures
            match r {
                Some(p) => self.as_map().dom().contains(p) && self.as_map()[p] == expected,
                None => forall|p: Position|
                    self.as_map().dom().contains(p) ==> self.as_map()[p] != expected,
            },
    {
        let n = self.entries.len();
        let mut i: usize = 0;
        while i < n
            invariant
                self.wf(),
                n == self.entries@.len(),
                i <= n,
                forall|j: int| 0 <= j < i ==> (#[trigger] self.entries@[j]).1 != expected,
            decreases n - i,
        {
            if self.entries[i].1 == expected {
                proof {
                    self.lemma_entry_value(i as int);
                }
                return Some(self.entries[i].0);
            }
            i = i + 1;
        }
        proof {
            assert forall|p: Position| self.as_map().dom().contains(p) implies self.as_map()[p]
                != expected by {
                let j = self.index_of(p);
                assert(0 <= j < self.entries@.len() && self.entries@[j].0 == p);
                self.lemma_entry_value(j);
            }
        }
        None
    }

    /// A copy of the stored entries, for callers that walk every tile. The
    /// order is unspecified; the entries are exactly the graph of the map.
    pub fn to_entries(&self) -> (r: Vec<(Position, Tile)>)
        requires
            self.wf(),
        ensures
            r@ == self.entries_seq(),
            forall|k1: int, k2: int|
                0 <= k1 < k2 < r@.len() ==> (#[trigger] r@[k1]).0 != (#[trigger] r@[k2]).0,
            forall|k: int|
                0 <= k < r@.len() ==> self.as_map().dom().contains((#[trigger] r@[k]).0)
                    && self.as_map()[r@[k].0] == r@[k].1,
            forall|p: Position|
                self.as_map().dom().contains(p) ==> exists|k: int|
                    0 <= k < r@.len() && #[trigger] r@[k] == (p, self.as_map()[p]),
    {
        let n = self.entries.len();
        let mut r: Vec<(Position, Tile)> = Vec::new();
        let mut i: usize = 0;
        while i < n
            invariant
                self.wf(),
                n == self.entries@.len(),
                i <= n,
                r@ == self.entries@.subrange(0, i as int),
            decreases n - i,
        {
            r.push(self.entries[i]);
            i = i + 1;
        }
        proof {
            assert(r@ =~= self.entries@);
            assert forall|k: int| 0 <= k < r@.len() implies self.as_map().dom().contains(
                (#[trigger] r@[k]).0,
            ) && self.as_map()[r@[k].0] == r@[k].1 by {
                self.lemma_entry_value(k);
            }
            assert forall|p: Position| self.as_map().dom().contains(p) implies exists|k: int|
                0 <= k < r@.len() && #[trigger] r@[k] == (p, self.as_map()[p]) by {
                let j = self.index_of(p);
                assert(0 <= j < self.entries@.len() && self.entries@[j].0 == p);
                self.lemma_entry_value(j);
                assert(r@[j] == (p, self.as_map()[p]));
            }
        }
        r
    }
}

/// After replacing the one entry whose key is `position` (by a swap with the
/// last entry and a push), the grid's map is the old map with `position`
/// bound to `tile`.
proof fn lemma_replace_entry(pre: TileGrid, post: TileGrid, i: int, position: Position, tile: Tile)
    requires
        pre.wf(),
        0 <= i < pre.entries_seq().len(),
        pre.entries_seq()[i].0 == position,
        post.entries_seq() == pre.entries_seq().update(i, pre.entries_seq().last()).drop_last().push(
            (position, tile),
        ),
    ensures
        post.wf(),
        post.as_map() == pre.as_map().insert(position, tile),
        post.entries_seq().len() == pre.entries_seq().len(),
{
    let s = pre.entries_seq();
    let t = post.entries_seq();
    let n = s.len() as int;
    // Each post entry other than the pushed one is an entry of pre away from i.
    assert forall|k: int| 0 <= k < n - 1 implies #[trigger] t[k] == if k == i {
        s[n - 1]
    } else {
        s[k]
    } by {}
    assert(t[n - 1] == (position, tile));
    assert(post.wf()) by {
        assert forall|a: int, b: int| 0 <= a < b < n implies (#[trigger] t[a]).0 != (
        #[trigger] t[b]).0 by {
            if b < n - 1 {
                let a0 = if a == i { n - 1 } else { a };
                let b0 = if b == i { n - 1 } else { b };
                assert(t[a] == s[a0] && t[b] == s[b0]);
            } else {
                // b is the pushed entry with key `position` == s[i].0
                let a0 = if a == i { n - 1 } else { a };
                assert(t[a] == s[a0]);
                if a0 != i {
                    assert(s[a0].0 != s[i].0);
                }
            }
        }
    }
    assert(post.as_map() =~= pre.as_map().insert(position, tile)) by {
        assert forall|p: Position| post.contains_key(p) implies pre.as_map().insert(
            position,
            tile,
        ).dom().contains(p) && post.as_map()[p] == pre.as_map().insert(position, tile)[p] by {
            let k = choose|k: int| 0 <= k < t.len() && (#[trigger] t[k]).0 == p;
            post.lemma_entry_value(k);
            if k == n - 1 {
                assert(p == position);
            } else {
                let k0 = if k == i { n - 1 } else { k };
                assert(t[k] == s[k0]);
                pre.lemma_entry_value(k0);
                assert(p != position) by {
                    if k0 != i {
                        assert(s[k0].0 != s[i].0);
                    } else {
                        // k == i < n - 1 and k0 == i only when i == n - 1
                        assert(k != i || i == n - 1);
                    }
                }
            }
        }
        assert forall|p: Position| pre.as_map().insert(position, tile).dom().contains(
            p,
        ) implies post.contains_key(p) by {
            if p == position {
                assert(t[n - 1].0 == p);
            } else {
                let k = choose|k: int| 0 <= k < s.len() && (#[trigger] s[k]).0 == p;
                assert(0 <= k < n && s[k].0 == p);
                assert(k != i);
                let k1 = if k == n - 1 { i } else { k };
                assert(t[k1].0 == p);
            }
        }
    }
}

/// Appending an entry with a fresh key binds that key and leaves the rest of
/// the map unchanged.
proof fn lemma_append_entry(pre: TileGrid, post: TileGrid, position: Position, tile: Tile)
    requires
        pre.wf(),
        !pre.contains_key(position),
        post.entries_seq() == pre.entries_seq().push((position, tile)),
    ensures
        post.wf(),
        post.as_map() == pre.as_map().insert(position, tile),
        post.entries_seq().len() == pre.entries_seq().len() + 1,
{
    let s = pre.entries_seq();
    let t = post.entries_seq();
    let n = s.len() as int;
    assert(post.wf()) by {
        assert forall|a: int, b: int| 0 <= a < b < t.len() implies (#[trigger] t[a]).0 != (
        #[trigger] t[b]).0 by {
            if b == n {
                assert(t[a] == s[a]);
                assert(s[a].0 != position);
            } else {
                assert(t[a] == s[a] && t[b] == s[b]);
            }
        }
    }
    assert(post.as_map() =~= pre.as_map().insert(position, tile)) by {
        assert forall|p: Position| post.contains_key(p) implies pre.as_map().insert(
            position,
            tile,
        ).dom().contains(p) && post.as_map()[p] == pre.as_map().insert(position, tile)[p] by {
            let k = choose|k: int| 0 <= k < t.len() && (#[trigger] t[k]).0 == p;
            post.lemma_entry_value(k);
            if k == n {
                assert(p == position);
            } else {
                assert(t[k] == s[k]);
                pre.lemma_entry_value(k);
                assert(p != position);
            }
        }
        assert forall|p: Position| pre.as_map().insert(position, tile).dom().contains(
            p,
        ) implies post.contains_key(p) by {
            if p == position {
                assert(t[n].0 == p);
            } else {
                let k = choose|k: int| 0 <= k < s.len() && (#[trigger] s[k]).0 == p;
                assert(t[k].0 == p);
            }
        }
    }
}

} // verus!
