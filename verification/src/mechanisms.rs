use vstd::prelude::*;
use crate::geometry::{TilePos, Placed};
use crate::ghost::position_at;
use crate::level::DoorTile;

verus! {

/// The sounds the game asks to be played.
#[derive(Clone, Copy, Debug, PartialEq, Eq, Structural)]
pub enum Sound {
    Door,
    Drop,
    Pickup,
    Rewind,
    Start,
    Teleport,
}

/// A door on a tile, drawn horizontally or vertically; closed doors block
/// ghosts.
#[derive(Clone, Copy, Debug, PartialEq, Eq, Structural)]
pub struct Door {
    pub position: TilePos,
    pub kind: DoorTile,
    pub open: bool,
}

impl Placed for Door {
    open spec fn place(&self) -> TilePos {
        self.position
    }

    fn tile(&self) -> (r: TilePos) {
        self.position
    }
}

impl Placed for Teleporter {
    open spec fn place(&self) -> TilePos {
        self.position
    }

    fn tile(&self) -> (r: TilePos) {
        self.position
    }
}

impl Door {
    /// A closed door at `position`.
    pub fn new(position: TilePos, kind: DoorTile) -> (d: Door)
        ensures
            d.position == position,
            d.kind == kind,
            !d.open,
    {
        Door { position, kind, open: false }
    }

    pub fn is_open(&self) -> (r: bool)
        ensures
            r == self.open,
    {
        self.open
    }
}

/// A teleporter: ghosts standing on `position` when it fires land on
/// `destination`.
#[derive(Clone, Copy, Debug, PartialEq, Eq, Structural)]
pub struct Teleporter {
    pub position: TilePos,
    pub destination: TilePos,
}

impl Teleporter {
    pub fn new(position: TilePos, destination: TilePos) -> (t: Teleporter)
        ensures
            t.position == position,
            t.destination == destination,
    {
        Teleporter { position, destination }
    }
}

/// The machine that takes the bulbs; the game is won when all its slots are full.
#[derive(Clone, Copy, Debug, PartialEq, Eq, Structural)]
pub struct TheMachine {
    pub slots_occupied: usize,
}

/// The number of slots of the machine.
pub const MACHINE_SLOTS: usize = 6;

impl TheMachine {
    /// An empty machine.
    pub fn new() -> (m: TheMachine)
        ensures
            m.slots_occupied == 0,
    {
        TheMachine { slots_occupied: 0 }
    }

    /// One more bulb in the machine.
    pub fn add_bulb(&mut self)
        requires
            old(self).slots_occupied < usize::MAX,
        ensures
            final(self).slots_occupied == old(self).slots_occupied + 1,
    {
        self.slots_occupied = self.slots_occupied + 1;
    }

    /// Whether every slot holds a bulb.
    pub fn is_full(&self) -> (r: bool)
        ensures
            r == (self.slots_occupied == MACHINE_SLOTS),
    {
        self.slots_occupied == MACHINE_SLOTS
    }
}

/// A bulb: where it was after each tick of the loop (the first entry is where it
/// lies when the loop starts), who picked it up and on which tick, and whether
/// it went into the machine.
pub struct Bulb<P> {
    positions: Vec<P>,
    picked_up: Option<(usize, usize)>,
    inserted: bool,
}

/// What a bulb holds.
pub struct BulbView<P> {
    pub positions: Seq<P>,
    /// The tick and the player of the pick-up.
    pub picked_up: Option<(usize, usize)>,
    pub inserted: bool,
}

impl<P> View for Bulb<P> {
    type V = BulbView<P>;

    closed spec fn view(&self) -> BulbView<P> {
        BulbView { positions: self.positions@, picked_up: self.picked_up, inserted: self.inserted }
    }
}

/// A bulb as it is when a loop starts over: back where it first lay, in nobody's
/// hands.
pub open spec fn reset_bulb<P>(b: BulbView<P>) -> BulbView<P> {
    BulbView { positions: seq![b.positions[0]], picked_up: None, ..b }
}

/// Whether the bulb is in a player's hands at `tick`: picked up on that tick or
/// before.
pub open spec fn carried_at<P>(b: BulbView<P>, tick: int) -> bool {
    match b.picked_up {
        Some((t, _)) => t <= tick,
        None => false,
    }
}

/// What can be done to a bulb: a position recorded after its last, a pick-up
/// on a tick by a player, going into the machine, or a reset.
pub enum BulbOp<P> {
    Push(P),
    PickUp(usize, usize),
    Insert,
    Reset,
}

/// A bulb after one operation.
pub open spec fn apply_bulb_op<P>(b: BulbView<P>, op: BulbOp<P>) -> BulbView<P> {
    match op {
        BulbOp::Push(p) => BulbView { positions: b.positions.push(p), ..b },
        BulbOp::PickUp(t, p) => BulbView { picked_up: Some((t, p)), ..b },
        BulbOp::Insert => BulbView { inserted: true, ..b },
        BulbOp::Reset => reset_bulb(b),
    }
}

/// A bulb after a run of operations, from first to last.
pub open spec fn apply_bulb_ops<P>(b: BulbView<P>, ops: Seq<BulbOp<P>>) -> BulbView<P>
    decreases ops.len(),
{
    if ops.len() == 0 {
        b
    } else {
        apply_bulb_op(apply_bulb_ops(b, ops.drop_last()), ops.last())
    }
}

/// A bulb as it is made: lying at `p`, in nobody's hands, not in the machine.
pub open spec fn new_bulb<P>(p: P) -> BulbView<P> {
    BulbView { positions: seq![p], picked_up: None, inserted: false }
}

/// Whatever is done to a bulb, it keeps where it first lay; a reset puts it
/// back there, in nobody's hands (whether it went into the machine is kept),
/// and a second reset changes nothing.
pub proof fn law_bulb_reset<P>(p: P, ops: Seq<BulbOp<P>>)
    ensures
        apply_bulb_ops(new_bulb(p), ops).positions.len() >= 1,
        apply_bulb_ops(new_bulb(p), ops).positions[0] == p,
        reset_bulb(apply_bulb_ops(new_bulb(p), ops)) == (BulbView {
            positions: seq![p],
            picked_up: None,
            inserted: apply_bulb_ops(new_bulb(p), ops).inserted,
        }),
        reset_bulb(reset_bulb(apply_bulb_ops(new_bulb(p), ops))) == reset_bulb(
            apply_bulb_ops(new_bulb(p), ops),
        ),
    decreases ops.len(),
{
    if ops.len() > 0 {
        law_bulb_reset(p, ops.drop_last());
    }
}

impl<P> Bulb<P> {
    /// A bulb always has a position.
    pub open spec fn wf(&self) -> bool {
        self@.positions.len() >= 1
    }
}

impl<P: Copy> Bulb<P> {
    /// A bulb lying at `position`, not picked up.
    pub fn new(position: P) -> (b: Bulb<P>)
        ensures
            b@ == new_bulb(position),
            b.wf(),
    {
        let mut positions = Vec::new();
        positions.push(position);
        Bulb { positions, picked_up: None, inserted: false }
    }

    /// Where the bulb is at `tick`.
    pub fn position(&self, tick: usize) -> (r: P)
        requires
            self.wf(),
            tick < usize::MAX,
        ensures
            r == position_at(self@.positions, tick as int),
    {
        if tick + 1 < self.positions.len() {
            self.positions[tick + 1]
        } else {
            self.positions[self.positions.len() - 1]
        }
    }

    /// Where the bulb would be at `tick` once `next` is recorded after its
    /// last position.
    pub fn position_after(&self, tick: usize, next: P) -> (r: P)
        requires
            tick < usize::MAX,
        ensures
            r == position_at(self@.positions.push(next), tick as int),
    {
        if tick + 1 < self.positions.len() {
            self.positions[tick + 1]
        } else {
            next
        }
    }

    /// Puts the bulb back where it first lay, in nobody's hands.
    pub fn reset(&mut self)
        requires
            old(self).wf(),
        ensures
            final(self)@ == reset_bulb(old(self)@),
            final(self)@ == apply_bulb_op(old(self)@, BulbOp::Reset),
            final(self)@.positions[0] == old(self)@.positions[0],
            final(self).wf(),
    {
        let first = self.positions[0];
        let mut positions = Vec::new();
        positions.push(first);
        self.positions = positions;
        self.picked_up = None;
    }

    /// Whether the bulb is in a player's hands at `tick`.
    pub fn is_carried(&self, tick: usize) -> (r: bool)
        ensures
            r == carried_at(self@, tick as int),
    {
        match self.picked_up {
            Some((t, _)) => t <= tick,
            None => false,
        }
    }

    /// The player who picked the bulb up, if any.
    pub fn carrier(&self) -> (r: Option<usize>)
        ensures
            r == (match self@.picked_up {
                Some((_, p)) => Some(p),
                None => None::<usize>,
            }),
    {
        match self.picked_up {
            Some((_, p)) => Some(p),
            None => None,
        }
    }

    /// Records where the bulb is after this tick.
    pub fn push_position(&mut self, position: P)
        requires
            old(self).wf(),
        ensures
            final(self)@ == (BulbView { positions: old(self)@.positions.push(position), ..old(self)@ }),
            final(self)@ == apply_bulb_op(old(self)@, BulbOp::Push(position)),
            final(self)@.positions[0] == old(self)@.positions[0],
            final(self).wf(),
    {
        self.positions.push(position);
    }

    /// The bulb is picked up by `player` on `tick`.
    pub fn pick_up(&mut self, tick: usize, player: usize)
        ensures
            final(self)@ == (BulbView { picked_up: Some((tick, player)), ..old(self)@ }),
            final(self)@ == apply_bulb_op(old(self)@, BulbOp::PickUp(tick, player)),
            final(self)@.positions == old(self)@.positions,
            final(self).wf() == old(self).wf(),
    {
        self.picked_up = Some((tick, player));
    }

    /// The bulb goes into the machine.
    pub fn insert(&mut self)
        ensures
            final(self)@ == (BulbView { inserted: true, ..old(self)@ }),
            final(self)@ == apply_bulb_op(old(self)@, BulbOp::Insert),
            final(self)@.positions == old(self)@.positions,
            final(self).wf() == old(self).wf(),
    {
        self.inserted = true;
    }

    pub fn is_inserted(&self) -> (r: bool)
        ensures
            r == self@.inserted,
    {
        self.inserted
    }
}

} // verus!
