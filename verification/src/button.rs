use vstd::prelude::*;
use crate::geometry::{TilePos, Placed, index_at, find_at};
use crate::mechanisms::{Door, Sound, Teleporter};
use crate::spatial::{PlayersSpatial, occupants};

verus! {

/// A button on a tile, wired to the doors and teleporters on the tiles it lists.
pub struct Button {
    pub position: TilePos,
    pub connections: Vec<TilePos>,
    /// Whether a player stood on the button at its last update.
    pub active: bool,
}

/// What the buttons of one update have done besides moving doors: which
/// teleporters may still fire this update, the sounds asked for, the
/// teleporters that fired, and the players to move (with the tile they land on).
pub struct ButtonEffects {
    pub ready: Vec<bool>,
    pub sounds: Vec<Sound>,
    pub activated: Vec<usize>,
    pub teleports: Vec<(usize, TilePos)>,
}

/// The state that pressing buttons works on, as values.
pub struct PressState {
    pub doors: Seq<Door>,
    pub ready: Seq<bool>,
    pub sounds: Seq<Sound>,
    pub activated: Seq<usize>,
    pub teleports: Seq<(usize, TilePos)>,
    /// Whether a door has changed during the button being pressed.
    pub changed: bool,
}

pub open spec fn press_state(doors: Seq<Door>, fx: ButtonEffects) -> PressState {
    PressState {
        doors,
        ready: fx.ready@,
        sounds: fx.sounds@,
        activated: fx.activated@,
        teleports: fx.teleports@,
        changed: false,
    }
}

/// The players on a teleporter's tile, each paired with the tile it lands on.
pub open spec fn teleport_list(sp: Seq<TilePos>, tp: Teleporter) -> Seq<(usize, TilePos)> {
    occupants(sp, tp.position).map_values(|i: usize| (i, tp.destination))
}

/// What one wired tile does when its button is (or is not) stood on: a door
/// there takes the button's state, noting whether it changed; and when the
/// button has just been stepped on, a teleporter there that is ready fires,
/// once, sending the players on its tile to its destination.
pub open spec fn connect(
    st: PressState,
    teles: Seq<Teleporter>,
    sp: Seq<TilePos>,
    c: TilePos,
    pressed: bool,
    was_active: bool,
) -> PressState {
    let di = index_at(st.doors, c);
    let st1 = if di >= 0 {
        PressState {
            doors: st.doors.update(di, Door { open: pressed, ..st.doors[di] }),
            changed: st.changed || st.doors[di].open != pressed,
            ..st
        }
    } else {
        st
    };
    let ti = index_at(teles, c);
    if pressed && !was_active && ti >= 0 && st1.ready[ti] {
        PressState {
            ready: st1.ready.update(ti, false),
            sounds: st1.sounds.push(Sound::Teleport),
            activated: st1.activated.push(ti as usize),
            teleports: st1.teleports + teleport_list(sp, teles[ti]),
            ..st1
        }
    } else {
        st1
    }
}

/// The wired tiles of a button, taken in order.
pub open spec fn connect_all(
    st: PressState,
    teles: Seq<Teleporter>,
    sp: Seq<TilePos>,
    conns: Seq<TilePos>,
    pressed: bool,
    was_active: bool,
) -> PressState
    decreases conns.len(),
{
    if conns.len() == 0 {
        st
    } else {
        connect(
            connect_all(st, teles, sp, conns.drop_last(), pressed, was_active),
            teles,
            sp,
            conns.last(),
            pressed,
            was_active,
        )
    }
}

/// Whether some player stands on the button.
pub open spec fn is_pressed(sp: Seq<TilePos>, position: TilePos) -> bool {
    occupants(sp, position).len() > 0
}

/// One button's update: its wired tiles in order, then a door sound if any door
/// moved.
pub open spec fn press_button(
    st: PressState,
    teles: Seq<Teleporter>,
    sp: Seq<TilePos>,
    position: TilePos,
    conns: Seq<TilePos>,
    was_active: bool,
) -> PressState {
    let st1 = connect_all(
        PressState { changed: false, ..st },
        teles,
        sp,
        conns,
        is_pressed(sp, position),
        was_active,
    );
    PressState {
        sounds: if st1.changed { st1.sounds.push(Sound::Door) } else { st1.sounds },
        changed: false,
        ..st1
    }
}

impl Teleporter {
    /// Sends every player standing on the teleporter to its destination: the
    /// moves are appended to `teleports`, in increasing order of player.
    pub fn activate(&self, sp: &PlayersSpatial, teleports: &mut Vec<(usize, TilePos)>)
        ensures
            final(teleports)@ == old(teleports)@ + teleport_list(sp@, *self),
    {
        match sp.get(self.position) {
            Some(ids) => {
                let mut k: usize = 0;
                while k < ids.len()
                    invariant
                        k <= ids@.len(),
                        ids@ == occupants(sp@, self.position),
                        teleports@ == old(teleports)@ + occupants(sp@, self.position).take(
                            k as int,
                        ).map_values(|i: usize| (i, self.destination)),
                    decreases ids@.len() - k,
                {
                    teleports.push((ids[k], self.destination));
                    k = k + 1;
                    proof {
                        assert(occupants(sp@, self.position).take(k as int).map_values(
                            |i: usize| (i, self.destination),
                        ) == occupants(sp@, self.position).take(k - 1).map_values(
                            |i: usize| (i, self.destination),
                        ).push((ids@[k - 1], self.destination)));
                    }
                }
                proof {
                    assert(occupants(sp@, self.position).take(k as int) == occupants(
                        sp@,
                        self.position,
                    ));
                }
            },
            None => {
                proof {
                    assert(teleport_list(sp@, *self) == Seq::<(usize, TilePos)>::empty());
                }
            },
        }
    }
}

impl Placed for Button {
    open spec fn place(&self) -> TilePos {
        self.position
    }

    fn tile(&self) -> (r: TilePos) {
        self.position
    }
}

impl Button {
    /// A button at `position`, wired to `connections`, not yet stood on.
    pub fn new(position: TilePos, connections: Vec<TilePos>) -> (b: Button)
        ensures
            b.position == position,
            b.connections@ == connections@,
            !b.active,
    {
        Button { position, connections, active: false }
    }

    /// Updates the button for the players' tiles `sp`: wired doors take the
    /// button's state, a wired teleporter fires when the button has just been
    /// stepped on, and a door sound is asked for when a door moved.
    pub fn update(
        &mut self,
        sp: &PlayersSpatial,
        doors: &mut Vec<Door>,
        teleporters: &Vec<Teleporter>,
        fx: &mut ButtonEffects,
    )
        requires
            old(fx).ready@.len() == teleporters@.len(),
        ensures
            press_state(final(doors)@, *final(fx)) == press_button(
                press_state(old(doors)@, *old(fx)),
                teleporters@,
                sp@,
                old(self).position,
                old(self).connections@,
                old(self).active,
            ),
            final(fx).ready@.len() == teleporters@.len(),
            final(self).position == old(self).position,
            final(self).connections@ == old(self).connections@,
            final(self).active == is_pressed(sp@, old(self).position),
    {
        let pressed = sp.contains_key(self.position);
        let was_active = self.active;
        let ghost st0 = PressState { changed: false, ..press_state(doors@, *fx) };
        let mut changed = false;
        let mut k: usize = 0;
        while k < self.connections.len()
            invariant
                k <= self.connections@.len(),
                pressed == is_pressed(sp@, self.position),
                fx.ready@.len() == teleporters@.len(),
                connect_all(
                    st0,
                    teleporters@,
                    sp@,
                    self.connections@.take(k as int),
                    pressed,
                    was_active,
                ) == (PressState { changed, ..press_state(doors@, *fx) }),
            decreases self.connections@.len() - k,
        {
            proof {
                assert(self.connections@.take(k + 1).drop_last() == self.connections@.take(
                    k as int,
                ));
            }
            let c = self.connections[k];
            match find_at(doors, c) {
                Some(di) => {
                    let d = doors[di];
                    if d.open != pressed {
                        changed = true;
                    }
                    doors.set(di, Door { open: pressed, ..d });
                },
                None => {},
            }
            if pressed && !was_active {
                match find_at(teleporters, c) {
                    Some(ti) => {
                        if fx.ready[ti] {
                            fx.ready.set(ti, false);
                            fx.sounds.push(Sound::Teleport);
                            fx.activated.push(ti);
                            teleporters[ti].activate(sp, &mut fx.teleports);
                        }
                    },
                    None => {},
                }
            }
            k = k + 1;
        }
        proof {
            assert(self.connections@.take(k as int) == self.connections@);
        }
        if changed {
            fx.sounds.push(Sound::Door);
        }
        self.active = pressed;
    }
}

} // verus!
