use vstd::prelude::*;
use crate::geometry::TilePos;

verus! {

/// The players standing on a tile, in increasing order of index, given the tile
/// each player stands on.
pub open spec fn occupants(tiles: Seq<TilePos>, t: TilePos) -> Seq<usize>
    decreases tiles.len(),
{
    if tiles.len() == 0 {
        Seq::empty()
    } else {
        let rest = occupants(tiles.drop_last(), t);
        if tiles.last() == t {
            rest.push((tiles.len() - 1) as usize)
        } else {
            rest
        }
    }
}

/// Which players stand on which tile, for one tick.
pub struct PlayersSpatial {
    tiles: Vec<TilePos>,
}

impl View for PlayersSpatial {
    type V = Seq<TilePos>;

    /// The tile of each player, by index.
    closed spec fn view(&self) -> Seq<TilePos> {
        self.tiles@
    }
}

/// A player is listed on a tile exactly when it stands there, and the list
/// holds each player at most once, in increasing order.
pub proof fn lemma_occupants(tiles: Seq<TilePos>, t: TilePos)
    requires
        tiles.len() <= usize::MAX,
    ensures
        forall|i: usize|
            (i < tiles.len() && tiles[i as int] == t) <==> #[trigger] occupants(tiles, t).contains(i),
        forall|j: int, k: int|
            0 <= j < k < occupants(tiles, t).len() ==> occupants(tiles, t)[j] < occupants(tiles, t)[k],
        forall|j: int|
            0 <= j < occupants(tiles, t).len() ==> occupants(tiles, t)[j] < tiles.len(),
    decreases tiles.len(),
{
    if tiles.len() > 0 {
        let pre = tiles.drop_last();
        lemma_occupants(pre, t);
        let rest = occupants(pre, t);
        let n = (tiles.len() - 1) as usize;
        let all = occupants(tiles, t);
        assert forall|i: usize|
            (i < tiles.len() && tiles[i as int] == t) <==> #[trigger] all.contains(i) by {
            if i < n {
                assert(tiles[i as int] == pre[i as int]);
            }
            if tiles.last() == t {
                assert(all == rest.push(n));
                if all.contains(i) && i != n {
                    let k = choose|k: int| 0 <= k < all.len() && all[k] == i;
                    assert(rest[k] == i);
                    assert(rest.contains(i));
                }
                if i < n && tiles[i as int] == t {
                    assert(rest.contains(i));
                    let k = choose|k: int| 0 <= k < rest.len() && rest[k] == i;
                    assert(all[k] == i);
                }
                if i == n {
                    assert(all[rest.len() as int] == i);
                }
            } else {
                assert(all == rest);
            }
        }
    }
}

impl PlayersSpatial {
    /// Every player listed around a tile is one of the players.
    pub proof fn lemma_listed_exist(&self, t: TilePos)
        ensures
            forall|i: int|
                0 <= i < near_players(self@, t).len() ==> (#[trigger] near_players(self@, t)[i]) < self@.len(),
    {
        assert(self.tiles@.len() == self.tiles.len());
        lemma_near_players_exist(self.tiles@, t);
    }

    /// Files each player under its tile; `tiles[i]` is the tile of player `i`.
    pub fn build(tiles: Vec<TilePos>) -> (r: PlayersSpatial)
        ensures
            r@ == tiles@,
    {
        PlayersSpatial { tiles }
    }

    /// Whether any player stands on `t`.
    pub fn contains_key(&self, t: TilePos) -> (r: bool)
        ensures
            r == (occupants(self@, t).len() > 0),
            r == (exists|i: int| 0 <= i < self@.len() && self@[i] == t),
    {
        let mut k: usize = 0;
        while k < self.tiles.len()
            invariant
                k <= self.tiles@.len(),
                forall|i: int| 0 <= i < k ==> self.tiles@[i] != t,
            decreases self.tiles@.len() - k,
        {
            if self.tiles[k].same(&t) {
                proof {
                    lemma_occupants(self.tiles@, t);
                    assert(occupants(self.tiles@, t).contains(k));
                    assert(self@[k as int] == t);
                }
                return true;
            }
            k = k + 1;
        }
        proof {
            lemma_occupants(self.tiles@, t);
            if occupants(self.tiles@, t).len() > 0 {
                let first = occupants(self.tiles@, t)[0];
                assert(occupants(self.tiles@, t).contains(first));
                assert(self.tiles@[first as int] == t);
            }
        }
        false
    }

    /// The players standing on `t`, in increasing order, or `None` when there
    /// are none.
    pub fn get(&self, t: TilePos) -> (r: Option<Vec<usize>>)
        ensures
            match r {
                Some(v) => v@ == occupants(self@, t) && v@.len() > 0,
                None => occupants(self@, t).len() == 0,
            },
    {
        let mut found: Vec<usize> = Vec::new();
        let mut k: usize = 0;
        while k < self.tiles.len()
            invariant
                k <= self.tiles@.len(),
                found@ == occupants(self.tiles@.take(k as int), t),
            decreases self.tiles@.len() - k,
        {
            proof {
                assert(self.tiles@.take(k + 1).drop_last() == self.tiles@.take(k as int));
            }
            if self.tiles[k].same(&t) {
                found.push(k);
            }
            k = k + 1;
        }
        proof {
            assert(self.tiles@.take(k as int) == self.tiles@);
        }
        if found.len() == 0 {
            None
        } else {
            Some(found)
        }
    }

    /// The players near tile `t`, as a bulb on `t` looks for them: those on
    /// the tiles one column left and one row down, one column left, one row
    /// down, and on `t` itself, in that order.
    pub fn around(&self, t: TilePos) -> (r: Vec<usize>)
        requires
            t.x > i32::MIN,
            t.y > i32::MIN,
        ensures
            r@ == near_players(self@, t),
    {
        let mut r: Vec<usize> = Vec::new();
        let mut dx: i32 = -1;
        while dx < 1
            invariant
                -1 <= dx <= 1,
                t.x > i32::MIN,
                t.y > i32::MIN,
                r@ == (if dx == -1 {
                    Seq::empty()
                } else if dx == 0 {
                    column(self@, t, -1)
                } else {
                    column(self@, t, -1) + column(self@, t, 0)
                }),
            decreases 1 - dx,
        {
            let mut dy: i32 = -1;
            let ghost before = r@;
            while dy < 1
                invariant
                    -1 <= dy <= 1,
                    -1 <= dx <= 0,
                    t.x > i32::MIN,
                    t.y > i32::MIN,
                    r@ == before + (if dy == -1 {
                        Seq::empty()
                    } else if dy == 0 {
                        occupants(self@, shifted(t, dx as int, -1))
                    } else {
                        column(self@, t, dx as int)
                    }),
                decreases 1 - dy,
            {
                let cell = t.offset(dx, dy);
                match self.get(cell) {
                    Some(ids) => {
                        let mut k: usize = 0;
                        let ghost mid = r@;
                        while k < ids.len()
                            invariant
                                k <= ids@.len(),
                                r@ == mid + ids@.take(k as int),
                            decreases ids@.len() - k,
                        {
                            r.push(ids[k]);
                            k = k + 1;
                            proof {
                                assert(r@ =~= mid + ids@.take(k as int));
                            }
                        }
                        proof {
                            assert(ids@.take(k as int) =~= ids@);
                        }
                    },
                    None => {},
                }
                proof {
                    assert(cell == shifted(t, dx as int, dy as int));
                    assert(r@ =~= before + (if dy == -1 {
                        occupants(self@, shifted(t, dx as int, -1))
                    } else {
                        column(self@, t, dx as int)
                    }));
                }
                dy = dy + 1;
            }
            proof {
                assert(r@ =~= (if dx == -1 {
                    column(self@, t, -1)
                } else {
                    column(self@, t, -1) + column(self@, t, 0)
                }));
            }
            dx = dx + 1;
        }
        r
    }
}

/// Every player listed around a tile is one of the players.
pub proof fn lemma_near_players_exist(sp: Seq<TilePos>, t: TilePos)
    requires
        sp.len() <= usize::MAX,
    ensures
        forall|i: int| 0 <= i < near_players(sp, t).len() ==> (#[trigger] near_players(sp, t)[i]) < sp.len(),
{
    lemma_occupants(sp, shifted(t, -1, -1));
    lemma_occupants(sp, shifted(t, -1, 0));
    lemma_occupants(sp, shifted(t, 0, -1));
    lemma_occupants(sp, shifted(t, 0, 0));
    let a = occupants(sp, shifted(t, -1, -1));
    let b = occupants(sp, shifted(t, -1, 0));
    let c = occupants(sp, shifted(t, 0, -1));
    let d = occupants(sp, shifted(t, 0, 0));
    let all = near_players(sp, t);
    assert(all =~= a + b + (c + d));
    assert forall|i: int| 0 <= i < all.len() implies (#[trigger] all[i]) < sp.len() by {
        if i < a.len() {
            assert(all[i] == a[i]);
        } else if i < a.len() + b.len() {
            assert(all[i] == b[i - a.len()]);
        } else if i < a.len() + b.len() + c.len() {
            assert(all[i] == c[i - a.len() - b.len()]);
        } else {
            assert(all[i] == d[i - a.len() - b.len() - c.len()]);
        }
    }
}

/// The tile `dx` columns and `dy` rows from `t`.
pub open spec fn shifted(t: TilePos, dx: int, dy: int) -> TilePos {
    TilePos { x: (t.x + dx) as i32, y: (t.y + dy) as i32 }
}

/// The players on the tiles one row down from, and level with, tile `t`
/// shifted by `dx` columns.
pub open spec fn column(sp: Seq<TilePos>, t: TilePos, dx: int) -> Seq<usize> {
    occupants(sp, shifted(t, dx, -1)) + occupants(sp, shifted(t, dx, 0))
}

/// The players a bulb on tile `t` may be picked up by, in the order it looks
/// at them.
pub open spec fn near_players(sp: Seq<TilePos>, t: TilePos) -> Seq<usize> {
    column(sp, t, -1) + column(sp, t, 0)
}

} // verus!
