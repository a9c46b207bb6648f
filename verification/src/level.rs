use vstd::prelude::*;
use crate::geometry::{TilePos, Placed, distinct_places, all_places_distinct};

verus! {

/// What a level tile is made of.
#[derive(Clone, Copy, Debug, PartialEq, Eq, Structural)]
pub enum Tile {
    Floor,
    Wall,
}

/// Which way a door is drawn.
#[derive(Clone, Copy, Debug, PartialEq, Eq, Structural)]
pub enum DoorTile {
    Horizontal,
    Vertical,
}

/// A button in the level and the tiles it is wired to.
pub struct ButtonTile {
    pub position: TilePos,
    pub connections: Vec<TilePos>,
}

/// A door in the level.
#[derive(Clone, Copy, Debug, PartialEq, Eq, Structural)]
pub struct DoorSpot {
    pub position: TilePos,
    pub kind: DoorTile,
}

/// A teleporter in the level and the tile it sends players to, if it has one.
#[derive(Clone, Copy, Debug, PartialEq, Eq, Structural)]
pub struct TeleporterTile {
    pub position: TilePos,
    pub connection: Option<TilePos>,
}

impl Placed for ButtonTile {
    open spec fn place(&self) -> TilePos {
        self.position
    }

    fn tile(&self) -> (r: TilePos) {
        self.position
    }
}

impl Placed for DoorSpot {
    open spec fn place(&self) -> TilePos {
        self.position
    }

    fn tile(&self) -> (r: TilePos) {
        self.position
    }
}

impl Placed for TeleporterTile {
    open spec fn place(&self) -> TilePos {
        self.position
    }

    fn tile(&self) -> (r: TilePos) {
        self.position
    }
}

/// A level: its walls, where players start, its buttons, doors and teleporters,
/// where its bulbs lie, and the machine's tile.
pub struct Level<P> {
    pub walls: Vec<TilePos>,
    pub player_start: P,
    pub buttons: Vec<ButtonTile>,
    pub doors: Vec<DoorSpot>,
    pub teleporters: Vec<TeleporterTile>,
    pub bulbs: Vec<P>,
    pub the_machine: TilePos,
}

/// The tile kind at `t`, for a level with walls `walls`.
pub open spec fn tile_at(walls: Seq<TilePos>, t: TilePos) -> Tile {
    if walls.contains(t) {
        Tile::Wall
    } else {
        Tile::Floor
    }
}

impl<P> Level<P> {
    /// No two buttons, no two doors and no two teleporters share a tile.
    pub open spec fn wf(&self) -> bool {
        &&& distinct_places(self.buttons@)
        &&& distinct_places(self.doors@)
        &&& distinct_places(self.teleporters@)
    }

    /// Whether no two buttons, no two doors and no two teleporters share a tile.
    pub fn has_distinct_tiles(&self) -> (r: bool)
        ensures
            r == self.wf(),
    {
        all_places_distinct(&self.buttons) && all_places_distinct(&self.doors)
            && all_places_distinct(&self.teleporters)
    }

    /// Every teleporter of the level leads somewhere.
    pub open spec fn connected(&self) -> bool {
        forall|i: int|
            0 <= i < self.teleporters@.len() ==> (#[trigger] self.teleporters@[i]).connection.is_some()
    }

    /// Whether every teleporter leads somewhere.
    pub fn all_teleporters_connected(&self) -> (r: bool)
        ensures
            r == self.connected(),
    {
        let mut k: usize = 0;
        while k < self.teleporters.len()
            invariant
                k <= self.teleporters@.len(),
                forall|i: int| 0 <= i < k ==> (#[trigger] self.teleporters@[i]).connection.is_some(),
            decreases self.teleporters@.len() - k,
        {
            if self.teleporters[k].connection.is_none() {
                return false;
            }
            k = k + 1;
        }
        true
    }
}

/// Whether `t` is in `walls`.
pub fn is_wall(walls: &Vec<TilePos>, t: TilePos) -> (r: bool)
    ensures
        r == walls@.contains(t),
{
    let mut k: usize = 0;
    while k < walls.len()
        invariant
            k <= walls@.len(),
            forall|i: int| 0 <= i < k ==> walls@[i] != t,
        decreases walls@.len() - k,
    {
        if walls[k].same(&t) {
            proof {
                assert(walls@[k as int] == t);
            }
            return true;
        }
        k = k + 1;
    }
    false
}

/// A copy of a list of tiles.
pub fn copy_tiles(v: &Vec<TilePos>) -> (r: Vec<TilePos>)
    ensures
        r@ == v@,
{
    let mut r: Vec<TilePos> = Vec::new();
    let mut k: usize = 0;
    while k < v.len()
        invariant
            k <= v@.len(),
            r@ == v@.take(k as int),
        decreases v@.len() - k,
    {
        r.push(v[k]);
        k = k + 1;
        proof {
            assert(r@ == v@.take(k as int));
        }
    }
    proof {
        assert(v@.take(k as int) == v@);
    }
    r
}

} // verus!
