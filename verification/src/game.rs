use vstd::prelude::*;
use crate::button::{Button, ButtonEffects, PressState, press_button, press_state, connect_all, is_pressed};
use crate::geometry::{TilePos, index_at, find_at, lemma_index_at_range, distinct_places};
use crate::ghost::{Recording, RecordingView, position_at, step_positions};
use crate::input::{Controls, InputEvent, Key, apply_event, idle_controls};
use crate::level::{Level, tile_at, Tile, is_wall, copy_tiles};
use crate::mechanisms::{Bulb, BulbView, Door, Sound, Teleporter, TheMachine, MACHINE_SLOTS, reset_bulb};
use crate::spatial::{PlayersSpatial, near_players};

verus! {

/// The number of ticks of one loop (twelve seconds).
pub const LOOP_TICKS: usize = 720;

/// How many ticks one update winds the clock back while rewinding.
pub const REWIND_STEP: usize = 5;

/// The loop's clock and its modes.
#[derive(Clone, Copy, Debug, PartialEq, Eq, Structural)]
pub struct Clock {
    pub tick: usize,
    /// The clock is running backwards towards the start of the loop.
    pub rewind: bool,
    /// When the rewind ends, all ghosts are dropped.
    pub clear_players: bool,
    /// Nothing moves until a movement key is held.
    pub paused: bool,
}

/// What the clock did in an update.
#[derive(Clone, Copy, Debug, PartialEq, Eq, Structural)]
pub enum Step {
    /// The machine was full at the start of the loop: nothing happens any more.
    Won,
    /// The clock went back and the rewind goes on.
    Rewinding,
    /// The rewind reached the start of the loop: a new loop begins, either with
    /// a single fresh player (`cleared`) or with every ghost back at the start
    /// and a fresh player added.
    LoopRestart { cleared: bool },
    /// Paused, with no movement key held.
    Waiting,
    /// The players move on tick `tick`; the clock went one tick on.
    Moved { tick: usize },
}

/// What an update asks of its caller.
pub struct Frame {
    pub step: Step,
    pub sounds: Vec<Sound>,
    /// Escape was pressed: the players were replaced by a single fresh one.
    pub restarted: bool,
}

/// How the player found a bulb when it moved it on.
#[derive(Clone, Copy, Debug, PartialEq, Eq, Structural)]
pub enum BulbStep {
    /// The game is paused: the bulb did not move.
    Paused,
    /// Someone holds the bulb: it went where its carrier is.
    Carried,
    /// Nobody holds the bulb: it stayed where it was.
    Loose,
}

/// The state that key events work on, as values.
pub struct InputState {
    pub clock: Clock,
    pub controls: Controls,
    pub restarted: bool,
    pub sounds: Seq<Sound>,
}

/// The sounds after asking for a rewind: the rewind sound, unless the clock is
/// already rewinding.
pub open spec fn rewind_sounds(s: InputState) -> Seq<Sound> {
    if s.clock.rewind {
        s.sounds
    } else {
        s.sounds.push(Sound::Rewind)
    }
}

/// One key event: movement keys change the held controls; Escape drops every
/// ghost and puts the clock at the loop's start; Space rewinds and pauses; R
/// does the same and drops every ghost when the rewind ends.
pub open spec fn on_event(s: InputState, e: InputEvent) -> InputState {
    let s1 = InputState { controls: apply_event(s.controls, e), ..s };
    match e {
        InputEvent::KeyDown(Key::Escape) => InputState {
            clock: Clock { rewind: false, tick: 0, ..s1.clock },
            restarted: true,
            ..s1
        },
        InputEvent::KeyDown(Key::Space) => InputState {
            clock: Clock { rewind: true, paused: true, ..s1.clock },
            sounds: rewind_sounds(s1),
            ..s1
        },
        InputEvent::KeyDown(Key::R) => InputState {
            clock: Clock { rewind: true, paused: true, clear_players: true, ..s1.clock },
            sounds: rewind_sounds(s1),
            ..s1
        },
        _ => s1,
    }
}

/// A run of key events, from first to last.
pub open spec fn on_events(s: InputState, es: Seq<InputEvent>) -> InputState
    decreases es.len(),
{
    if es.len() == 0 {
        s
    } else {
        on_event(on_events(s, es.drop_last()), es.last())
    }
}

pub open spec fn any_held(c: Controls) -> bool {
    c.up || c.left || c.down || c.right
}

/// The clock's part of an update, after the key events. Rewinding winds the
/// clock back by `REWIND_STEP` (not below zero) and ends the rewind at zero.
/// Otherwise a paused game waits for a movement key (and plays the start sound
/// when one is held); a running game moves on one tick, and at `LOOP_TICKS`
/// starts rewinding and pauses.
pub open spec fn clock_step(c: Clock, controls: Controls) -> (Clock, Step, Seq<Sound>) {
    if c.rewind {
        let t: usize = if c.tick >= REWIND_STEP {
            (c.tick - REWIND_STEP) as usize
        } else {
            0
        };
        if t == 0 {
            (
                Clock { tick: 0, rewind: false, clear_players: false, ..c },
                Step::LoopRestart { cleared: c.clear_players },
                Seq::empty(),
            )
        } else {
            (Clock { tick: t, ..c }, Step::Rewinding, Seq::empty())
        }
    } else if c.paused && !any_held(controls) {
        (c, Step::Waiting, Seq::empty())
    } else {
        let start: Seq<Sound> = if c.paused {
            seq![Sound::Start]
        } else {
            Seq::empty()
        };
        let t = (c.tick + 1) as usize;
        if t >= LOOP_TICKS {
            (
                Clock { tick: t, rewind: true, paused: true, ..c },
                Step::Moved { tick: c.tick },
                start.push(Sound::Rewind),
            )
        } else {
            (Clock { tick: t, paused: false, ..c }, Step::Moved { tick: c.tick }, start)
        }
    }
}

/// The players after one tick of movement (see `step_positions`).
pub open spec fn moved_players<P>(
    ps: Seq<RecordingView<P>>,
    tick: int,
    moves: Seq<(P, bool)>,
) -> Seq<RecordingView<P>> {
    Seq::new(
        moves.len(),
        |i: int|
            RecordingView {
                positions: step_positions(ps[i], tick, moves[i].0, moves[i].1),
                ..ps[i]
            },
    )
}

/// The players' records agree with the clock at `tick`: the current player has
/// recorded the controls of `tick` ticks, and every player has one position
/// more than the ticks it moved through (those it has controls for, up to
/// `tick`).
pub open spec fn in_step<P>(ps: Seq<RecordingView<P>>, tick: int) -> bool {
    &&& ps.len() >= 1
    &&& ps.last().controls.len() == tick
    &&& forall|i: int|
        0 <= i < ps.len() ==> (#[trigger] ps[i]).positions.len() == 1 + (if tick
            < ps[i].controls.len() {
            tick
        } else {
            ps[i].controls.len() as int
        })
}

/// The players' records halfway through tick `tick`: the current player has
/// recorded the controls for `tick`, and nobody has moved on it yet.
pub open spec fn awaiting_move<P>(ps: Seq<RecordingView<P>>, tick: int) -> bool {
    &&& ps.len() >= 1
    &&& ps.last().controls.len() == tick + 1
    &&& forall|i: int|
        0 <= i < ps.len() ==> (#[trigger] ps[i]).positions.len() == 1 + (if tick
            < ps[i].controls.len() {
            tick
        } else {
            ps[i].controls.len() as int
        })
}

/// The clock never passes the end of the loop, stands there only while
/// rewinding, and rewinds only while paused.
pub open spec fn clock_sound(c: Clock) -> bool {
    &&& c.tick <= LOOP_TICKS
    &&& (c.tick == LOOP_TICKS ==> c.rewind)
    &&& (c.rewind ==> c.paused)
}

/// The clock as it is between updates: sound, and past the loop's start both
/// while rewinding and while running.
pub open spec fn clock_settled(c: Clock) -> bool {
    &&& clock_sound(c)
    &&& (c.rewind ==> c.tick > 0)
    &&& (!c.paused ==> c.tick > 0)
}

/// A player that has recorded nothing and stands at `start`.
pub open spec fn fresh<P>(start: P) -> RecordingView<P> {
    RecordingView { controls: Seq::empty(), positions: seq![start] }
}

/// Every ghost back at `start`, keeping what it recorded.
pub open spec fn restart_all<P>(ps: Seq<RecordingView<P>>, start: P) -> Seq<RecordingView<P>> {
    ps.map_values(|g: RecordingView<P>| RecordingView { positions: seq![start], ..g })
}

/// The players after an update: a single fresh one after Escape; then, when a
/// loop restarts, a single fresh one (cleared) or every ghost back at the start
/// with a fresh player after them; when the players move, the current player
/// (the last) records the held controls.
pub open spec fn players_after<P>(
    ps: Seq<RecordingView<P>>,
    restarted: bool,
    step: Step,
    start: P,
    controls: Controls,
) -> Seq<RecordingView<P>> {
    let p0 = if restarted {
        seq![fresh(start)]
    } else {
        ps
    };
    match step {
        Step::LoopRestart { cleared } => if cleared {
            seq![fresh(start)]
        } else {
            restart_all(p0, start).push(fresh(start))
        },
        Step::Moved { .. } => p0.update(
            p0.len() - 1,
            RecordingView { controls: p0.last().controls.push(controls), ..p0.last() },
        ),
        _ => p0,
    }
}

pub open spec fn player_views<P>(ps: Seq<Recording<P>>) -> Seq<RecordingView<P>> {
    ps.map_values(|g: Recording<P>| g@)
}

pub open spec fn bulb_views<P>(bs: Seq<Bulb<P>>) -> Seq<BulbView<P>> {
    bs.map_values(|b: Bulb<P>| b@)
}

/// The bulbs not yet in the machine.
pub open spec fn live_count<P>(bs: Seq<BulbView<P>>) -> nat
    decreases bs.len(),
{
    if bs.len() == 0 {
        0
    } else {
        live_count(bs.drop_last()) + if bs.last().inserted {
            0nat
        } else {
            1nat
        }
    }
}

/// The bulbs that stay after those in the machine are taken away, in order.
pub open spec fn live_bulbs<P>(bs: Seq<BulbView<P>>) -> Seq<BulbView<P>>
    decreases bs.len(),
{
    if bs.len() == 0 {
        bs
    } else {
        let rest = live_bulbs(bs.drop_first());
        if bs[0].inserted {
            rest
        } else {
            seq![bs[0]] + rest
        }
    }
}

/// How the caller judged a bulb after it moved: a carried bulb reached the
/// machine (`Insert`), a loose bulb is within reach of the nearest player
/// (`PickUp`), or neither (`Stay`).
#[derive(Clone, Copy, Debug, PartialEq, Eq, Structural)]
pub enum BulbChoice {
    Stay,
    Insert,
    PickUp(usize),
}

/// The state that the bulbs of an update work on, as values.
pub struct BulbPass<P> {
    pub clock: Clock,
    pub slots: nat,
    pub bulbs: Seq<BulbView<P>>,
    pub sounds: Seq<Sound>,
}

/// A bulb one tick on: a carried bulb goes where its carrier is at `tick`, a
/// loose bulb stays where it is at `tick`.
pub open spec fn moved_bulb<P>(bv: BulbView<P>, players: Seq<RecordingView<P>>, tick: int) -> BulbView<P> {
    BulbView {
        positions: bv.positions.push(
            match bv.picked_up {
                Some((_, p)) => position_at(players[p as int].positions, tick),
                None => position_at(bv.positions, tick),
            },
        ),
        ..bv
    }
}

/// One bulb's update. Nothing moves while the game is paused. Otherwise the
/// bulb moves on; a carried bulb judged to reach the machine goes into it (one
/// more slot, the drop sound, and the loop rewinds, paused, dropping every
/// ghost when it ends); a loose bulb judged within reach of a player is picked
/// up by that player on this tick, with the pick-up sound.
pub open spec fn bulb_step<P>(
    st: BulbPass<P>,
    players: Seq<RecordingView<P>>,
    b: int,
    choice: BulbChoice,
) -> BulbPass<P> {
    if st.clock.paused {
        st
    } else {
        let moved = moved_bulb(st.bulbs[b], players, st.clock.tick as int);
        if st.bulbs[b].picked_up is Some {
            if choice == BulbChoice::Insert {
                BulbPass {
                    clock: Clock { rewind: true, paused: true, clear_players: true, ..st.clock },
                    slots: st.slots + 1,
                    bulbs: st.bulbs.update(b, BulbView { inserted: true, ..moved }),
                    sounds: st.sounds.push(Sound::Drop),
                }
            } else {
                BulbPass { bulbs: st.bulbs.update(b, moved), ..st }
            }
        } else {
            match choice {
                BulbChoice::PickUp(p) => BulbPass {
                    bulbs: st.bulbs.update(
                        b,
                        BulbView { picked_up: Some((st.clock.tick, p)), ..moved },
                    ),
                    sounds: st.sounds.push(Sound::Pickup),
                    ..st
                },
                _ => BulbPass { bulbs: st.bulbs.update(b, moved), ..st },
            }
        }
    }
}

/// The first `n` bulbs' updates, in order.
pub open spec fn bulb_pass<P>(
    st: BulbPass<P>,
    players: Seq<RecordingView<P>>,
    choices: Seq<BulbChoice>,
    n: nat,
) -> BulbPass<P>
    decreases n,
{
    if n == 0 {
        st
    } else {
        bulb_step(
            bulb_pass(st, players, choices, (n - 1) as nat),
            players,
            n - 1,
            choices[n - 1],
        )
    }
}

/// When bulb `b` moves on, the player carrying it (if any) is still there.
pub open spec fn carrier_present<P>(st: BulbPass<P>, players_len: nat, b: int) -> bool {
    st.clock.paused || match st.bulbs[b].picked_up {
        Some((_, p)) => p < players_len,
        None => true,
    }
}

/// Every carried bulb is carried by one of the first `n` players.
pub open spec fn carriers_within<P>(bs: Seq<BulbView<P>>, n: nat) -> bool {
    forall|j: int|
        0 <= j < bs.len() ==> match (#[trigger] bs[j]).picked_up {
            Some((_, p)) => p < n,
            None => true,
        }
}

/// Each pick-up names a player listed around the tile of the bulb it picks up
/// (`tiles[b]` for bulb `b`), as `PlayersSpatial::around` lists them.
pub open spec fn picks_listed(choices: Seq<BulbChoice>, sp: Seq<TilePos>, tiles: Seq<TilePos>) -> bool {
    forall|b: int|
        0 <= b < choices.len() ==> match #[trigger] choices[b] {
            BulbChoice::PickUp(p) => near_players(sp, tiles[b]).contains(p),
            _ => true,
        }
}

/// A bulb pass leaves as many bulbs, and the carriers stay among the first
/// `n` players when every pick-up names one of them.
pub proof fn lemma_pass_carriers<P>(
    st: BulbPass<P>,
    players: Seq<RecordingView<P>>,
    choices: Seq<BulbChoice>,
    k: nat,
    n: nat,
)
    requires
        k <= st.bulbs.len(),
        k <= choices.len(),
        carriers_within(st.bulbs, n),
        forall|b: int|
            0 <= b < k ==> match #[trigger] choices[b] {
                BulbChoice::PickUp(p) => p < n,
                _ => true,
            },
    ensures
        bulb_pass(st, players, choices, k).bulbs.len() == st.bulbs.len(),
        carriers_within(bulb_pass(st, players, choices, k).bulbs, n),
    decreases k,
{
    if k > 0 {
        lemma_pass_carriers(st, players, choices, (k - 1) as nat, n);
        let pre = bulb_pass(st, players, choices, (k - 1) as nat);
        let post = bulb_pass(st, players, choices, k);
        let c = choices[k - 1];
        assert forall|j: int| 0 <= j < post.bulbs.len() implies match (#[trigger] post.bulbs[j]).picked_up {
            Some((_, p)) => p < n,
            None => true,
        } by {
            if j != k - 1 {
                assert(post.bulbs[j] == pre.bulbs[j]);
            } else {
                assert(match pre.bulbs[j].picked_up {
                    Some((_, p)) => p < n,
                    None => true,
                });
            }
        }
    }
}

/// Taking away the bulbs in the machine keeps the carriers of the others.
pub proof fn lemma_live_carriers<P>(bs: Seq<BulbView<P>>, n: nat)
    requires
        carriers_within(bs, n),
    ensures
        carriers_within(live_bulbs(bs), n),
    decreases bs.len(),
{
    if bs.len() > 0 {
        let rest = bs.drop_first();
        assert forall|j: int| 0 <= j < rest.len() implies match (#[trigger] rest[j]).picked_up {
            Some((_, p)) => p < n,
            None => true,
        } by {
            assert(rest[j] == bs[j + 1]);
        }
        lemma_live_carriers(rest, n);
        let l = live_bulbs(bs);
        let lr = live_bulbs(rest);
        if !bs[0].inserted {
            assert forall|j: int| 0 <= j < l.len() implies match (#[trigger] l[j]).picked_up {
                Some((_, p)) => p < n,
                None => true,
            } by {
                if j == 0 {
                    assert(l[0] == bs[0]);
                } else {
                    assert(l[j] == lr[j - 1]);
                }
            }
        }
    }
}

/// How many times sound `x` was asked for.
pub open spec fn count_sound(s: Seq<Sound>, x: Sound) -> nat
    decreases s.len(),
{
    if s.len() == 0 {
        0
    } else {
        count_sound(s.drop_last(), x) + if s.last() == x {
            1nat
        } else {
            0nat
        }
    }
}

/// Whether a ghost cannot enter tile `t`: a wall, or a closed door.
pub open spec fn blocks(walls: Seq<TilePos>, doors: Seq<Door>, t: TilePos) -> bool {
    tile_at(walls, t) == Tile::Wall || (index_at(doors, t) >= 0 && !doors[index_at(
        doors,
        t,
    )].open)
}

/// The buttons of one update, in order; each leaves its door and teleporter
/// effects for the next.
pub open spec fn press_all(
    st: PressState,
    teles: Seq<Teleporter>,
    sp: Seq<TilePos>,
    buttons: Seq<Button>,
) -> PressState
    decreases buttons.len(),
{
    if buttons.len() == 0 {
        st
    } else {
        let b = buttons.last();
        press_button(
            press_all(st, teles, sp, buttons.drop_last()),
            teles,
            sp,
            b.position,
            b.connections@,
            b.active,
        )
    }
}

/// The game's state, without anything that is drawn or heard.
pub struct Game<P> {
    pub clock: Clock,
    pub controls: Controls,
    /// The ghosts of earlier loops, then the current player (the last).
    pub players: Vec<Recording<P>>,
    pub buttons: Vec<Button>,
    pub doors: Vec<Door>,
    pub teleporters: Vec<Teleporter>,
    pub bulbs: Vec<Bulb<P>>,
    pub the_machine: TheMachine,
    pub walls: Vec<TilePos>,
    pub player_start: P,
    /// How many bulbs the level had.
    pub bulb_total: Ghost<nat>,
}

impl<P> Game<P> {
    /// The game between updates: what `wf_core` says, the clock is settled,
    /// and no bulb that went into the machine is still about.
    pub open spec fn wf(&self) -> bool {
        &&& self.wf_core()
        &&& clock_settled(self.clock)
        &&& forall|i: int| 0 <= i < self.bulbs@.len() ==> !(#[trigger] self.bulbs@[i])@.inserted
    }

    /// There is always a current player and every player and bulb has a
    /// position; every bulb of the level is either in the machine or still
    /// about; no two buttons, doors or teleporters share a tile.
    pub open spec fn wf_core(&self) -> bool {
        &&& self.players@.len() >= 1
        &&& forall|i: int| 0 <= i < self.players@.len() ==> (#[trigger] self.players@[i]).wf()
        &&& forall|i: int| 0 <= i < self.bulbs@.len() ==> (#[trigger] self.bulbs@[i]).wf()
        &&& self.the_machine.slots_occupied + live_count(bulb_views(self.bulbs@))
            == self.bulb_total@
        &&& self.bulb_total@ <= usize::MAX
        &&& distinct_places(self.buttons@)
        &&& distinct_places(self.doors@)
        &&& distinct_places(self.teleporters@)
    }

    /// All slots of the machine are full and the loop is at its start.
    pub open spec fn won(&self) -> bool {
        self.the_machine.slots_occupied == MACHINE_SLOTS && self.clock.tick == 0
    }
}

/// With no bulb in the machine, every bulb counts as still about.
pub proof fn lemma_live_count_all<P>(bs: Seq<BulbView<P>>)
    requires
        forall|i: int| 0 <= i < bs.len() ==> !(#[trigger] bs[i]).inserted,
    ensures
        live_count(bs) == bs.len(),
    decreases bs.len(),
{
    if bs.len() > 0 {
        lemma_live_count_all(bs.drop_last());
    }
}

/// Changing a bulb without putting it in or taking it out of the machine keeps
/// the count of bulbs about.
pub proof fn lemma_live_count_update<P>(bs: Seq<BulbView<P>>, i: int, b: BulbView<P>)
    requires
        0 <= i < bs.len(),
        b.inserted == bs[i].inserted,
    ensures
        live_count(bs.update(i, b)) == live_count(bs),
    decreases bs.len(),
{
    if i < bs.len() - 1 {
        lemma_live_count_update(bs.drop_last(), i, b);
        assert(bs.update(i, b).drop_last() == bs.drop_last().update(i, b));
    } else {
        assert(bs.update(i, b).drop_last() == bs.drop_last());
    }
}

/// Putting a bulb in the machine takes it off the count of bulbs about.
pub proof fn lemma_live_count_insert<P>(bs: Seq<BulbView<P>>, i: int, b: BulbView<P>)
    requires
        0 <= i < bs.len(),
        !bs[i].inserted,
        b.inserted,
    ensures
        live_count(bs.update(i, b)) + 1 == live_count(bs),
    decreases bs.len(),
{
    if i < bs.len() - 1 {
        lemma_live_count_insert(bs.drop_last(), i, b);
        assert(bs.update(i, b).drop_last() == bs.drop_last().update(i, b));
    } else {
        assert(bs.update(i, b).drop_last() == bs.drop_last());
    }
}

impl<P: Copy> Game<P> {
    /// A game at the start of a level: the first loop, paused, at tick zero,
    /// one player at the start, every button up, every door closed, every bulb
    /// where the level puts it and the machine empty.
    pub fn new(level: &Level<P>) -> (g: Game<P>)
        requires
            level.wf(),
            level.connected(),
        ensures
            g.wf(),
            g.clock == (Clock { tick: 0, rewind: false, clear_players: false, paused: true }),
            g.controls == idle_controls(),
            player_views(g.players@) == seq![fresh(level.player_start)],
            g.buttons@.len() == level.buttons@.len(),
            forall|i: int|
                0 <= i < g.buttons@.len() ==> {
                    &&& (#[trigger] g.buttons@[i]).position == level.buttons@[i].position
                    &&& g.buttons@[i].connections@ == level.buttons@[i].connections@
                    &&& !g.buttons@[i].active
                },
            g.doors@ == level.doors@.map_values(|d: crate::level::DoorSpot| Door { position: d.position, kind: d.kind, open: false }),
            g.teleporters@ == level.teleporters@.map_values(
                |t: crate::level::TeleporterTile| Teleporter { position: t.position, destination: t.connection.unwrap() },
            ),
            bulb_views(g.bulbs@) == level.bulbs@.map_values(
                |p: P| BulbView { positions: seq![p], picked_up: None, inserted: false },
            ),
            g.the_machine.slots_occupied == 0,
            g.walls@ == level.walls@,
            g.player_start == level.player_start,
            g.bulb_total@ == level.bulbs@.len(),
    {
        let mut buttons: Vec<Button> = Vec::new();
        let mut k: usize = 0;
        while k < level.buttons.len()
            invariant
                k <= level.buttons@.len(),
                buttons@.len() == k,
                forall|i: int|
                    0 <= i < k ==> {
                        &&& (#[trigger] buttons@[i]).position == level.buttons@[i].position
                        &&& buttons@[i].connections@ == level.buttons@[i].connections@
                        &&& !buttons@[i].active
                    },
            decreases level.buttons@.len() - k,
        {
            let b = Button::new(level.buttons[k].position, copy_tiles(&level.buttons[k].connections));
            buttons.push(b);
            k = k + 1;
        }
        let mut doors: Vec<Door> = Vec::new();
        let mut k: usize = 0;
        while k < level.doors.len()
            invariant
                k <= level.doors@.len(),
                doors@ == level.doors@.take(k as int).map_values(
                    |d: crate::level::DoorSpot| Door { position: d.position, kind: d.kind, open: false },
                ),
            decreases level.doors@.len() - k,
        {
            doors.push(Door::new(level.doors[k].position, level.doors[k].kind));
            k = k + 1;
            proof {
                assert(doors@ == level.doors@.take(k as int).map_values(
                    |d: crate::level::DoorSpot| Door { position: d.position, kind: d.kind, open: false },
                ));
            }
        }
        proof {
            assert(level.doors@.take(k as int) == level.doors@);
        }
        let mut teleporters: Vec<Teleporter> = Vec::new();
        let mut k: usize = 0;
        while k < level.teleporters.len()
            invariant
                k <= level.teleporters@.len(),
                level.connected(),
                teleporters@ == level.teleporters@.take(k as int).map_values(
                    |t: crate::level::TeleporterTile| Teleporter { position: t.position, destination: t.connection.unwrap() },
                ),
            decreases level.teleporters@.len() - k,
        {
            let t = level.teleporters[k];
            proof {
                assert(level.teleporters@[k as int].connection.is_some());
            }
            let destination = match t.connection {
                Some(d) => d,
                None => t.position,
            };
            teleporters.push(Teleporter::new(t.position, destination));
            k = k + 1;
            proof {
                assert(teleporters@ == level.teleporters@.take(k as int).map_values(
                    |t: crate::level::TeleporterTile| Teleporter { position: t.position, destination: t.connection.unwrap() },
                ));
            }
        }
        proof {
            assert(level.teleporters@.take(k as int) == level.teleporters@);
        }
        let mut bulbs: Vec<Bulb<P>> = Vec::new();
        let mut k: usize = 0;
        while k < level.bulbs.len()
            invariant
                k <= level.bulbs@.len(),
                bulb_views(bulbs@) == level.bulbs@.take(k as int).map_values(
                    |p: P| BulbView { positions: seq![p], picked_up: None, inserted: false },
                ),
                forall|i: int| 0 <= i < bulbs@.len() ==> (#[trigger] bulbs@[i]).wf(),
                forall|i: int| 0 <= i < bulbs@.len() ==> !(#[trigger] bulbs@[i])@.inserted,
            decreases level.bulbs@.len() - k,
        {
            let ghost prev = bulbs@;
            let nb = Bulb::new(level.bulbs[k]);
            bulbs.push(nb);
            k = k + 1;
            proof {
                assert(bulbs@ == prev.push(nb));
                assert(bulb_views(bulbs@) =~= bulb_views(prev).push(nb@));
                assert(level.bulbs@.take(k as int) =~= level.bulbs@.take(k - 1).push(level.bulbs@[k - 1]));
                assert(bulb_views(bulbs@) =~= level.bulbs@.take(k as int).map_values(
                    |p: P| BulbView { positions: seq![p], picked_up: None, inserted: false },
                ));
            }
        }
        proof {
            assert(level.bulbs@.take(k as int) == level.bulbs@);
            lemma_live_count_all(bulb_views(bulbs@));
        }
        let mut players: Vec<Recording<P>> = Vec::new();
        players.push(Recording::new(level.player_start));
        proof {
            assert(player_views(players@) == seq![fresh(level.player_start)]);
        }
        Game {
            clock: Clock { tick: 0, rewind: false, clear_players: false, paused: true },
            controls: Controls::default(),
            players,
            buttons,
            doors,
            teleporters,
            bulbs,
            the_machine: TheMachine::new(),
            walls: copy_tiles(&level.walls),
            player_start: level.player_start,
            bulb_total: Ghost(level.bulbs@.len() as nat),
        }
    }

    /// Whether the level is won: all slots full and the loop at its start.
    pub fn is_won(&self) -> (r: bool)
        ensures
            r == self.won(),
    {
        self.the_machine.is_full() && self.clock.tick == 0
    }

    /// Gives every player a fresh start: a single player at the start.
    fn replace_players(&mut self)
        requires
            old(self).wf_core(),
        ensures
            player_views(final(self).players@) == seq![fresh(old(self).player_start)],
            final(self).wf_core(),
            *final(self) == (Game { players: final(self).players, ..*old(self) }),
    {
        let mut players: Vec<Recording<P>> = Vec::new();
        players.push(Recording::new(self.player_start));
        self.players = players;
        proof {
            assert(player_views(self.players@) =~= seq![fresh(self.player_start)]);
        }
    }

    /// Starts the next loop with the same ghosts: each goes back to the start
    /// keeping what it recorded, and a fresh player joins after them.
    fn next_loop(&mut self)
        requires
            old(self).wf_core(),
        ensures
            player_views(final(self).players@) == restart_all(
                player_views(old(self).players@),
                old(self).player_start,
            ).push(fresh(old(self).player_start)),
            final(self).wf_core(),
            *final(self) == (Game { players: final(self).players, ..*old(self) }),
    {
        let ghost ps = player_views(self.players@);
        let n = self.players.len();
        let mut i: usize = 0;
        while i < n
            invariant
                i <= n,
                n == self.players@.len(),
                n == ps.len(),
                ps == player_views(old(self).players@),
                forall|j: int| 0 <= j < n ==> (#[trigger] self.players@[j]).wf(),
                forall|j: int|
                    0 <= j < i ==> (#[trigger] self.players@[j])@ == (RecordingView {
                        positions: seq![old(self).player_start],
                        ..ps[j]
                    }),
                forall|j: int| i <= j < n ==> (#[trigger] self.players@[j])@ == ps[j],
                *self == (Game { players: self.players, ..*old(self) }),
            decreases n - i,
        {
            let start = self.player_start;
            self.players[i].reset(start);
            i = i + 1;
        }
        let start = self.player_start;
        self.players.push(Recording::new(start));
        proof {
            assert(player_views(self.players@) =~= restart_all(ps, start).push(fresh(start)));
        }
    }

    /// Puts every bulb back where it first lay, in nobody's hands.
    fn reset_bulbs(&mut self)
        requires
            old(self).wf_core(),
        ensures
            bulb_views(final(self).bulbs@) == bulb_views(old(self).bulbs@).map_values(
                |b: BulbView<P>| reset_bulb(b),
            ),
            final(self).wf_core(),
            forall|j: int| 0 <= j < final(self).bulbs@.len() ==> (#[trigger] final(self).bulbs@[j])@.inserted == old(self).bulbs@[j]@.inserted,
            final(self).bulbs@.len() == old(self).bulbs@.len(),
            *final(self) == (Game { bulbs: final(self).bulbs, ..*old(self) }),
    {
        let ghost bs = bulb_views(self.bulbs@);
        let n = self.bulbs.len();
        let mut i: usize = 0;
        while i < n
            invariant
                i <= n,
                n == self.bulbs@.len(),
                n == bs.len(),
                bs == bulb_views(old(self).bulbs@),
                forall|j: int| 0 <= j < n ==> (#[trigger] self.bulbs@[j]).wf(),
                forall|j: int| 0 <= j < i ==> (#[trigger] self.bulbs@[j])@ == reset_bulb(bs[j]),
                forall|j: int| i <= j < n ==> (#[trigger] self.bulbs@[j])@ == bs[j],
                live_count(bulb_views(self.bulbs@)) == live_count(bs),
                *self == (Game { bulbs: self.bulbs, ..*old(self) }),
            decreases n - i,
        {
            let ghost before = bulb_views(self.bulbs@);
            self.bulbs[i].reset();
            proof {
                assert(bulb_views(self.bulbs@) =~= before.update(i as int, reset_bulb(bs[i as int])));
                lemma_live_count_update(before, i as int, reset_bulb(bs[i as int]));
            }
            i = i + 1;
        }
        proof {
            assert(bulb_views(self.bulbs@) =~= bs.map_values(|b: BulbView<P>| reset_bulb(b)));
        }
    }

    /// The key events of an update, in order (see `on_events`).
    fn apply_inputs(&mut self, inputs: &Vec<InputEvent>) -> (r: (Vec<Sound>, bool))
        requires
            old(self).wf(),
        ensures
            final(self).wf_core(),
            clock_sound(final(self).clock),
            on_events(
                InputState {
                    clock: old(self).clock,
                    controls: old(self).controls,
                    restarted: false,
                    sounds: Seq::empty(),
                },
                inputs@,
            ) == (InputState {
                clock: final(self).clock,
                controls: final(self).controls,
                restarted: r.1,
                sounds: r.0@,
            }),
            player_views(final(self).players@) == (if r.1 {
                seq![fresh(old(self).player_start)]
            } else {
                player_views(old(self).players@)
            }),
            *final(self) == (Game {
                clock: final(self).clock,
                controls: final(self).controls,
                players: final(self).players,
                ..*old(self)
            }),
    {
        let ghost s0 = InputState {
            clock: self.clock,
            controls: self.controls,
            restarted: false,
            sounds: Seq::empty(),
        };
        let ghost ps0 = player_views(self.players@);
        let mut sounds: Vec<Sound> = Vec::new();
        let mut restarted = false;
        let mut k: usize = 0;
        while k < inputs.len()
            invariant
                k <= inputs@.len(),
                self.wf_core(),
                clock_sound(self.clock),
                ps0 == player_views(old(self).players@),
                s0 == (InputState {
                    clock: old(self).clock,
                    controls: old(self).controls,
                    restarted: false,
                    sounds: Seq::empty(),
                }),
                on_events(s0, inputs@.take(k as int)) == (InputState {
                    clock: self.clock,
                    controls: self.controls,
                    restarted,
                    sounds: sounds@,
                }),
                player_views(self.players@) == (if restarted {
                    seq![fresh(old(self).player_start)]
                } else {
                    ps0
                }),
                *self == (Game {
                    clock: self.clock,
                    controls: self.controls,
                    players: self.players,
                    ..*old(self)
                }),
            decreases inputs@.len() - k,
        {
            proof {
                assert(inputs@.take(k + 1).drop_last() == inputs@.take(k as int));
            }
            let e = inputs[k];
            self.controls.apply(e);
            match e {
                InputEvent::KeyDown(Key::Escape) => {
                    self.clock.tick = 0;
                    self.clock.rewind = false;
                    self.replace_players();
                    restarted = true;
                },
                InputEvent::KeyDown(Key::Space) => {
                    if !self.clock.rewind {
                        sounds.push(Sound::Rewind);
                    }
                    self.clock.rewind = true;
                    self.clock.paused = true;
                },
                InputEvent::KeyDown(Key::R) => {
                    if !self.clock.rewind {
                        sounds.push(Sound::Rewind);
                    }
                    self.clock.rewind = true;
                    self.clock.paused = true;
                    self.clock.clear_players = true;
                },
                _ => {},
            }
            k = k + 1;
        }
        proof {
            assert(inputs@.take(k as int) == inputs@);
        }
        (sounds, restarted)
    }

    /// The clock's part of an update (see `clock_step`), with what it does to
    /// the players and bulbs.
    fn step_clock(&mut self, sounds: &mut Vec<Sound>) -> (step: Step)
        requires
            old(self).wf_core(),
            clock_sound(old(self).clock),
            forall|i: int| 0 <= i < old(self).bulbs@.len() ==> !(#[trigger] old(self).bulbs@[i])@.inserted,
        ensures
            final(self).wf(),
            clock_step(old(self).clock, old(self).controls) == (final(self).clock, step, final(sounds)@.subrange(old(sounds)@.len() as int, final(sounds)@.len() as int)),
            final(sounds)@.subrange(0, old(sounds)@.len() as int) == old(sounds)@,
            final(sounds)@.len() >= old(sounds)@.len(),
            player_views(final(self).players@) == players_after(
                player_views(old(self).players@),
                false,
                step,
                old(self).player_start,
                old(self).controls,
            ),
            bulb_views(final(self).bulbs@) == (if step is LoopRestart {
                bulb_views(old(self).bulbs@).map_values(|b: BulbView<P>| reset_bulb(b))
            } else {
                bulb_views(old(self).bulbs@)
            }),
            *final(self) == (Game {
                clock: final(self).clock,
                players: final(self).players,
                bulbs: final(self).bulbs,
                ..*old(self)
            }),
    {
        let ghost sounds0 = sounds@;
        let mut step = Step::Waiting;
        if self.clock.rewind {
            if self.clock.tick >= REWIND_STEP {
                self.clock.tick = self.clock.tick - REWIND_STEP;
            } else {
                self.clock.tick = 0;
            }
            if self.clock.tick == 0 {
                self.clock.rewind = false;
                if self.clock.clear_players {
                    self.replace_players();
                    self.clock.clear_players = false;
                    step = Step::LoopRestart { cleared: true };
                } else {
                    self.next_loop();
                    step = Step::LoopRestart { cleared: false };
                }
                self.reset_bulbs();
            } else {
                step = Step::Rewinding;
            }
            proof {
                assert(sounds@.subrange(sounds0.len() as int, sounds@.len() as int) =~= Seq::<Sound>::empty());
            }
        } else {
            if self.clock.paused && self.controls.any() {
                self.clock.paused = false;
                sounds.push(Sound::Start);
            }
            if !self.clock.paused {
                let last = self.players.len() - 1;
                let controls = self.controls;
                let ghost pre = player_views(self.players@);
                self.players[last].push_controls(controls);
                proof {
                    assert(player_views(self.players@) =~= pre.update(
                        last as int,
                        RecordingView { controls: pre.last().controls.push(controls), ..pre.last() },
                    ));
                }
                step = Step::Moved { tick: self.clock.tick };
                self.clock.tick = self.clock.tick + 1;
                if self.clock.tick >= LOOP_TICKS {
                    if !self.clock.rewind {
                        sounds.push(Sound::Rewind);
                    }
                    self.clock.rewind = true;
                    self.clock.paused = true;
                }
            } else {
                step = Step::Waiting;
            }
            proof {
                let added = sounds@.subrange(sounds0.len() as int, sounds@.len() as int);
                let cs = clock_step(old(self).clock, old(self).controls);
                assert(added =~= cs.2);
                assert(sounds@.subrange(0, sounds0.len() as int) =~= sounds0);
            }
        }
        step
    }

    /// The decisions of one update, up to the players' movement: the key
    /// events in order, then the clock (see `clock_step`), with what that does to
    /// the players and bulbs. Nothing happens once the level is won.
    pub fn update(&mut self, inputs: &Vec<InputEvent>) -> (r: Frame)
        requires
            old(self).wf(),
        ensures
            final(self).wf(),
            old(self).won() ==> r.step == Step::Won && r.sounds@.len() == 0 && !r.restarted
                && *final(self) == *old(self),
            !old(self).won() ==> ({
                let s = on_events(
                    InputState {
                        clock: old(self).clock,
                        controls: old(self).controls,
                        restarted: false,
                        sounds: Seq::empty(),
                    },
                    inputs@,
                );
                let cs = clock_step(s.clock, s.controls);
                &&& final(self).clock == cs.0
                &&& r.step == cs.1
                &&& r.sounds@ == s.sounds + cs.2
                &&& final(self).controls == s.controls
                &&& r.restarted == s.restarted
                &&& player_views(final(self).players@) == players_after(
                    player_views(old(self).players@),
                    s.restarted,
                    cs.1,
                    old(self).player_start,
                    s.controls,
                )
                &&& bulb_views(final(self).bulbs@) == (if cs.1 is LoopRestart {
                    bulb_views(old(self).bulbs@).map_values(|b: BulbView<P>| reset_bulb(b))
                } else {
                    bulb_views(old(self).bulbs@)
                })
                &&& *final(self) == (Game {
                    clock: final(self).clock,
                    controls: final(self).controls,
                    players: final(self).players,
                    bulbs: final(self).bulbs,
                    ..*old(self)
                })
            }),
    {
        if self.is_won() {
            return Frame { step: Step::Won, sounds: Vec::new(), restarted: false };
        }
        let (mut sounds, restarted) = self.apply_inputs(inputs);
        let ghost sounds1 = sounds@;
        let step = self.step_clock(&mut sounds);
        proof {
            assert(sounds@ =~= sounds1 + sounds@.subrange(sounds1.len() as int, sounds@.len() as int));
        }
        Frame { step, sounds, restarted }
    }

    /// Whether a ghost cannot enter tile `t`: a wall, or a closed door.
    pub fn blocked(&self, t: TilePos) -> (r: bool)
        ensures
            r == blocks(self.walls@, self.doors@, t),
    {
        if is_wall(&self.walls, t) {
            return true;
        }
        match find_at(&self.doors, t) {
            Some(i) => !self.doors[i].is_open(),
            None => false,
        }
    }

    /// One tick of movement for player `i` (see `Recording::update`).
    fn move_player(&mut self, i: usize, tick: usize, candidate: P, colliding: bool)
        requires
            old(self).wf(),
            i < old(self).players@.len(),
        ensures
            final(self).wf(),
            player_views(final(self).players@) == player_views(old(self).players@).update(
                i as int,
                RecordingView {
                    positions: step_positions(old(self).players@[i as int]@, tick as int, candidate, colliding),
                    ..old(self).players@[i as int]@
                },
            ),
            *final(self) == (Game { players: final(self).players, ..*old(self) }),
    {
        let ghost pre = player_views(self.players@);
        self.players[i].update(tick, candidate, colliding);
        proof {
            assert(player_views(self.players@) =~= pre.update(
                i as int,
                RecordingView {
                    positions: step_positions(old(self).players@[i as int]@, tick as int, candidate, colliding),
                    ..old(self).players@[i as int]@
                },
            ));
        }
    }

    /// One tick of movement for every player, on tick `tick`: `moves[i]` is
    /// where player `i`'s recorded keys would carry it and whether that spot is
    /// blocked (see `Recording::update`). When every player had recorded its
    /// positions up to `tick` and the current player its controls for `tick`,
    /// afterwards every player has recorded its positions up to `tick + 1`.
    pub fn move_players(&mut self, tick: usize, moves: &Vec<(P, bool)>)
        requires
            old(self).wf(),
            moves@.len() == old(self).players@.len(),
        ensures
            final(self).wf(),
            player_views(final(self).players@) == moved_players(
                player_views(old(self).players@),
                tick as int,
                moves@,
            ),
            awaiting_move(player_views(old(self).players@), tick as int) ==> in_step(
                player_views(final(self).players@),
                tick + 1,
            ),
            *final(self) == (Game { players: final(self).players, ..*old(self) }),
    {
        let ghost ps = player_views(self.players@);
        let n = self.players.len();
        let mut i: usize = 0;
        while i < n
            invariant
                i <= n,
                n == self.players@.len(),
                n == moves@.len(),
                n == ps.len(),
                ps == player_views(old(self).players@),
                self.wf(),
                player_views(self.players@) == moved_players(ps, tick as int, moves@.take(i as int))
                    + ps.skip(i as int),
                *self == (Game { players: self.players, ..*old(self) }),
            decreases n - i,
        {
            let (candidate, colliding) = moves[i];
            let ghost before = player_views(self.players@);
            self.move_player(i, tick, candidate, colliding);
            proof {
                assert(moved_players(ps, tick as int, moves@.take(i as int)).len() == i);
                assert(before[i as int] == ps.skip(i as int)[0]);
                assert(before[i as int] == ps[i as int]);
                assert(player_views(self.players@) =~= moved_players(
                    ps,
                    tick as int,
                    moves@.take(i + 1),
                ) + ps.skip(i + 1));
            }
            i = i + 1;
        }
        proof {
            assert(moves@.take(n as int) =~= moves@);
            assert(player_views(self.players@) =~= moved_players(ps, tick as int, moves@));
            let after = player_views(self.players@);
            if awaiting_move(ps, tick as int) {
                assert forall|j: int| 0 <= j < after.len() implies (#[trigger] after[j]).positions.len()
                    == 1 + (if tick + 1 < after[j].controls.len() {
                    tick + 1
                } else {
                    after[j].controls.len() as int
                }) by {
                    assert(ps[j].positions.len() == 1 + (if tick < ps[j].controls.len() {
                        tick as int
                    } else {
                        ps[j].controls.len() as int
                    }));
                }
                assert(after.last() == after[after.len() - 1]);
            }
        }
    }

    /// Moves player `i`, now, to `destination` (see `Recording::teleport`).
    pub fn teleport(&mut self, i: usize, destination: P)
        requires
            old(self).wf(),
            i < old(self).players@.len(),
        ensures
            final(self).wf(),
            player_views(final(self).players@) == player_views(old(self).players@).update(
                i as int,
                RecordingView {
                    positions: old(self).players@[i as int]@.positions.update(
                        old(self).players@[i as int]@.positions.len() - 1,
                        destination,
                    ),
                    ..old(self).players@[i as int]@
                },
            ),
            *final(self) == (Game { players: final(self).players, ..*old(self) }),
    {
        let ghost pre = player_views(self.players@);
        self.players[i].teleport(destination);
        proof {
            assert(player_views(self.players@) =~= pre.update(
                i as int,
                RecordingView {
                    positions: old(self).players@[i as int]@.positions.update(
                        old(self).players@[i as int]@.positions.len() - 1,
                        destination,
                    ),
                    ..old(self).players@[i as int]@
                },
            ));
        }
    }

    /// Every button, in order, for the players' tiles `sp` (see
    /// `Button::update`); `ready` says which teleporters may fire.
    pub fn update_buttons(&mut self, sp: &PlayersSpatial, ready: Vec<bool>) -> (fx: ButtonEffects)
        requires
            old(self).wf(),
            ready@.len() == old(self).teleporters@.len(),
        ensures
            final(self).wf(),
            press_state(final(self).doors@, fx) == press_all(
                PressState {
                    doors: old(self).doors@,
                    ready: ready@,
                    sounds: Seq::empty(),
                    activated: Seq::empty(),
                    teleports: Seq::empty(),
                    changed: false,
                },
                old(self).teleporters@,
                sp@,
                old(self).buttons@,
            ),
            final(self).buttons@.len() == old(self).buttons@.len(),
            forall|i: int|
                0 <= i < final(self).buttons@.len() ==> {
                    &&& (#[trigger] final(self).buttons@[i]).position == old(self).buttons@[i].position
                    &&& final(self).buttons@[i].connections@ == old(self).buttons@[i].connections@
                    &&& final(self).buttons@[i].active == is_pressed(sp@, old(self).buttons@[i].position)
                },
            *final(self) == (Game { buttons: final(self).buttons, doors: final(self).doors, ..*old(self) }),
    {
        let mut fx = ButtonEffects {
            ready,
            sounds: Vec::new(),
            activated: Vec::new(),
            teleports: Vec::new(),
        };
        let ghost st0 = press_state(self.doors@, fx);
        let n = self.buttons.len();
        let mut i: usize = 0;
        while i < n
            invariant
                i <= n,
                n == self.buttons@.len(),
                n == old(self).buttons@.len(),
                fx.ready@.len() == self.teleporters@.len(),
                self.teleporters == old(self).teleporters,
                st0 == (PressState {
                    doors: old(self).doors@,
                    ready: ready@,
                    sounds: Seq::empty(),
                    activated: Seq::empty(),
                    teleports: Seq::empty(),
                    changed: false,
                }),
                press_state(self.doors@, fx) == press_all(
                    st0,
                    self.teleporters@,
                    sp@,
                    old(self).buttons@.take(i as int),
                ),
                self.doors@.len() == old(self).doors@.len(),
                forall|j: int| 0 <= j < self.doors@.len() ==> (#[trigger] self.doors@[j]).position
                    == old(self).doors@[j].position,
                forall|j: int|
                    0 <= j < n ==> {
                        &&& (#[trigger] self.buttons@[j]).position == old(self).buttons@[j].position
                        &&& self.buttons@[j].connections@ == old(self).buttons@[j].connections@
                    },
                forall|j: int|
                    0 <= j < i ==> (#[trigger] self.buttons@[j]).active == is_pressed(
                        sp@,
                        old(self).buttons@[j].position,
                    ),
                forall|j: int|
                    i <= j < n ==> (#[trigger] self.buttons@[j]).active == old(self).buttons@[j].active,
                *self == (Game { buttons: self.buttons, doors: self.doors, ..*old(self) }),
            decreases n - i,
        {
            let ghost doors_before = self.doors@;
            let ghost st_before = press_state(self.doors@, fx);
            proof {
                assert(old(self).buttons@.take(i + 1).drop_last() == old(self).buttons@.take(i as int));
                assert(old(self).buttons@.take(i + 1).last() == old(self).buttons@[i as int]);
            }
            self.buttons[i].update(sp, &mut self.doors, &self.teleporters, &mut fx);
            proof {
                let b = old(self).buttons@[i as int];
                lemma_press_button_keeps_doors(st_before, self.teleporters@, sp@, b.position, b.connections@, b.active);
            }
            i = i + 1;
        }
        proof {
            assert(old(self).buttons@.take(n as int) == old(self).buttons@);
        }
        fx
    }

    /// The state the bulbs of an update start from.
    pub open spec fn bulb_start(&self) -> BulbPass<P> {
        BulbPass {
            clock: self.clock,
            slots: self.the_machine.slots_occupied as nat,
            bulbs: bulb_views(self.bulbs@),
            sounds: Seq::empty(),
        }
    }

    /// Where bulb `b` will be at this tick once it has moved on.
    pub fn next_bulb_position(&self, b: usize) -> (r: P)
        requires
            self.wf(),
            b < self.bulbs@.len(),
            match self.bulbs@[b as int]@.picked_up {
                Some((_, p)) => p < self.players@.len(),
                None => true,
            },
        ensures
            r == position_at(
                moved_bulb(self.bulbs@[b as int]@, player_views(self.players@), self.clock.tick as int).positions,
                self.clock.tick as int,
            ),
    {
        let tick = self.clock.tick;
        let pos = match self.bulbs[b].carrier() {
            Some(p) => self.players[p].position(tick),
            None => self.bulbs[b].position(tick),
        };
        self.bulbs[b].position_after(tick, pos)
    }

    /// Moves bulb `b` on by one tick (see `moved_bulb`).
    fn advance_bulb(&mut self, b: usize)
        requires
            old(self).wf_core(),
            old(self).clock.tick <= LOOP_TICKS,
            b < old(self).bulbs@.len(),
            match old(self).bulbs@[b as int]@.picked_up {
                Some((_, p)) => p < old(self).players@.len(),
                None => true,
            },
        ensures
            final(self).wf_core(),
            bulb_views(final(self).bulbs@) == bulb_views(old(self).bulbs@).update(
                b as int,
                moved_bulb(old(self).bulbs@[b as int]@, player_views(old(self).players@), old(self).clock.tick as int),
            ),
            *final(self) == (Game { bulbs: final(self).bulbs, ..*old(self) }),
    {
        let tick = self.clock.tick;
        let ghost pre = bulb_views(self.bulbs@);
        let pos = match self.bulbs[b].carrier() {
            Some(p) => self.players[p].position(tick),
            None => self.bulbs[b].position(tick),
        };
        self.bulbs[b].push_position(pos);
        proof {
            let nb = self.bulbs@[b as int]@;
            assert(bulb_views(self.bulbs@) =~= pre.update(b as int, nb));
            lemma_live_count_update(pre, b as int, nb);
        }
    }

    /// Player `player` picks bulb `b` up on this tick; the pick-up sound is
    /// asked for.
    fn pick_up_bulb(&mut self, b: usize, player: usize) -> (r: Sound)
        requires
            old(self).wf_core(),
            b < old(self).bulbs@.len(),
        ensures
            final(self).wf_core(),
            r == Sound::Pickup,
            bulb_views(final(self).bulbs@) == bulb_views(old(self).bulbs@).update(
                b as int,
                BulbView { picked_up: Some((old(self).clock.tick, player)), ..old(self).bulbs@[b as int]@ },
            ),
            *final(self) == (Game { bulbs: final(self).bulbs, ..*old(self) }),
    {
        let tick = self.clock.tick;
        let ghost pre = bulb_views(self.bulbs@);
        self.bulbs[b].pick_up(tick, player);
        proof {
            let nb = self.bulbs@[b as int]@;
            assert(bulb_views(self.bulbs@) =~= pre.update(b as int, nb));
            lemma_live_count_update(pre, b as int, nb);
        }
        Sound::Pickup
    }

    /// Bulb `b` goes into the machine: one more slot is full, and the loop
    /// rewinds, paused, dropping every ghost when it ends; the drop sound is
    /// asked for.
    fn insert_bulb(&mut self, b: usize) -> (r: Sound)
        requires
            old(self).wf_core(),
            clock_settled(old(self).clock),
            b < old(self).bulbs@.len(),
            !old(self).bulbs@[b as int]@.inserted,
            !old(self).clock.paused,
        ensures
            final(self).wf_core(),
            clock_settled(final(self).clock),
            r == Sound::Drop,
            bulb_views(final(self).bulbs@) == bulb_views(old(self).bulbs@).update(
                b as int,
                BulbView { inserted: true, ..old(self).bulbs@[b as int]@ },
            ),
            final(self).the_machine.slots_occupied == old(self).the_machine.slots_occupied + 1,
            final(self).clock == (Clock {
                rewind: true,
                paused: true,
                clear_players: true,
                ..old(self).clock
            }),
            live_count(bulb_views(final(self).bulbs@)) + 1 == live_count(bulb_views(old(self).bulbs@)),
            *final(self) == (Game {
                bulbs: final(self).bulbs,
                the_machine: final(self).the_machine,
                clock: final(self).clock,
                ..*old(self)
            }),
    {
        let ghost pre = bulb_views(self.bulbs@);
        proof {
            lemma_live_count_insert(pre, b as int, BulbView { inserted: true, ..pre[b as int] });
        }
        self.bulbs[b].insert();
        proof {
            let nb = self.bulbs@[b as int]@;
            assert(bulb_views(self.bulbs@) =~= pre.update(b as int, nb));
        }
        self.the_machine.add_bulb();
        self.clock.rewind = true;
        self.clock.paused = true;
        self.clock.clear_players = true;
        Sound::Drop
    }

    /// Takes the bulbs that went into the machine away; the others keep their
    /// order.
    fn remove_inserted_bulbs(&mut self)
        requires
            old(self).wf_core(),
        ensures
            final(self).wf_core(),
            bulb_views(final(self).bulbs@) == live_bulbs(bulb_views(old(self).bulbs@)),
            forall|i: int| 0 <= i < final(self).bulbs@.len() ==> !(#[trigger] final(self).bulbs@[i])@.inserted,
            final(self).bulbs@.len() == live_count(bulb_views(old(self).bulbs@)),
            *final(self) == (Game { bulbs: final(self).bulbs, ..*old(self) }),
    {
        let ghost orig = bulb_views(self.bulbs@);
        let mut i = self.bulbs.len();
        while i > 0
            invariant
                i <= orig.len(),
                bulb_views(self.bulbs@) == orig.take(i as int) + live_bulbs(orig.skip(i as int)),
                forall|j: int| 0 <= j < self.bulbs@.len() ==> (#[trigger] self.bulbs@[j]).wf(),
                *self == (Game { bulbs: self.bulbs, ..*old(self) }),
                orig == bulb_views(old(self).bulbs@),
                old(self).wf_core(),
            decreases i,
        {
            proof {
                assert(bulb_views(self.bulbs@).len() == self.bulbs@.len());
                assert(orig.skip(i - 1).drop_first() =~= orig.skip(i as int));
                assert(orig.skip(i - 1)[0] == orig[i - 1]);
                assert(bulb_views(self.bulbs@)[i - 1] == orig[i - 1]);
            }
            if self.bulbs[i - 1].is_inserted() {
                let ghost before = self.bulbs@;
                self.bulbs.remove(i - 1);
                proof {
                    assert(self.bulbs@ == before.remove(i - 1));
                    assert(bulb_views(self.bulbs@) =~= bulb_views(before).remove(i - 1));
                    assert(orig[i - 1].inserted);
                    assert(live_bulbs(orig.skip(i - 1)) == live_bulbs(orig.skip(i as int)));
                    assert((orig.take(i as int) + live_bulbs(orig.skip(i as int))).remove(i - 1) =~= orig.take(i - 1) + live_bulbs(orig.skip(i as int)));
                    assert(bulb_views(self.bulbs@) =~= orig.take(i - 1) + live_bulbs(orig.skip(i - 1)));
                    assert forall|j: int| 0 <= j < self.bulbs@.len() implies (#[trigger] self.bulbs@[j]).wf() by {
                        if j < i - 1 {
                            assert(self.bulbs@[j] == before[j]);
                        } else {
                            assert(self.bulbs@[j] == before[j + 1]);
                        }
                    }
                }
            } else {
                proof {
                    assert(bulb_views(self.bulbs@) =~= orig.take(i - 1) + live_bulbs(orig.skip(i - 1)));
                }
            }
            i = i - 1;
        }
        proof {
            assert(orig.skip(0) =~= orig);
            assert(bulb_views(self.bulbs@) =~= live_bulbs(orig));
            lemma_live_bulbs(orig);
            lemma_live_count_all(bulb_views(self.bulbs@));
            assert forall|j: int| 0 <= j < self.bulbs@.len() implies !(#[trigger] self.bulbs@[j])@.inserted by {
                assert(bulb_views(self.bulbs@)[j] == self.bulbs@[j]@);
            }
        }
    }

    /// Whether bulb `choices.len()` will move on in this tick's bulb pass, the
    /// bulbs before it judged as `choices` says: it will unless the game is
    /// paused or one of them goes into the machine (which pauses it).
    pub fn bulb_moves(&self, choices: &Vec<BulbChoice>) -> (r: bool)
        requires
            self.wf(),
            choices@.len() < self.bulbs@.len(),
        ensures
            r == !bulb_pass(self.bulb_start(), player_views(self.players@), choices@, choices@.len()).clock.paused,
    {
        let ghost st0 = self.bulb_start();
        let ghost pv = player_views(self.players@);
        let mut paused = self.clock.paused;
        let mut j: usize = 0;
        while j < choices.len()
            invariant
                j <= choices@.len(),
                choices@.len() < self.bulbs@.len(),
                st0 == self.bulb_start(),
                paused == bulb_pass(st0, pv, choices@, j as nat).clock.paused,
                bulb_pass(st0, pv, choices@, j as nat).bulbs.len() == self.bulbs@.len(),
                forall|k: int|
                    j <= k < self.bulbs@.len() ==> #[trigger] bulb_pass(st0, pv, choices@, j as nat).bulbs[k]
                        == self.bulbs@[k]@,
            decreases choices@.len() - j,
        {
            let ghost before = bulb_pass(st0, pv, choices@, j as nat);
            proof {
                assert(before.bulbs[j as int] == self.bulbs@[j as int]@);
            }
            if !paused && self.bulbs[j].carrier().is_some() && choices[j] == BulbChoice::Insert {
                paused = true;
            }
            j = j + 1;
            proof {
                let after = bulb_pass(st0, pv, choices@, j as nat);
                assert forall|k: int| j <= k < self.bulbs@.len() implies #[trigger] after.bulbs[k] == self.bulbs@[k]@ by {
                    assert(before.bulbs[k] == self.bulbs@[k]@);
                }
            }
        }
        paused == false
    }

    /// Every bulb, in order, for this tick (see `bulb_step`), then the bulbs
    /// that went into the machine are taken away. `choices[b]` is the caller's
    /// judgement of bulb `b` after it moved (see `next_bulb_position`).
    ///
    /// Over the whole pass, the bulbs in the machine and the bulbs still about
    /// add up to what they were; every bulb that went in filled a slot and
    /// asked for the drop sound; if any went in, the loop rewinds, paused, and
    /// drops every ghost when the rewind ends.
    pub fn update_bulbs(
        &mut self,
        choices: &Vec<BulbChoice>,
        players_spatial: &PlayersSpatial,
        bulb_tiles: &Vec<TilePos>,
    ) -> (sounds: Vec<Sound>)
        requires
            old(self).wf(),
            choices@.len() == old(self).bulbs@.len(),
            players_spatial@.len() == old(self).players@.len(),
            bulb_tiles@.len() == choices@.len(),
            picks_listed(choices@, players_spatial@, bulb_tiles@),
            forall|b: nat|
                b < old(self).bulbs@.len() ==> carrier_present(
                    #[trigger] bulb_pass(old(self).bulb_start(), player_views(old(self).players@), choices@, b),
                    old(self).players@.len(),
                    b as int,
                ),
        ensures
            final(self).wf(),
            ({
                let pass = bulb_pass(
                    old(self).bulb_start(),
                    player_views(old(self).players@),
                    choices@,
                    old(self).bulbs@.len(),
                );
                &&& final(self).clock == pass.clock
                &&& final(self).the_machine.slots_occupied == pass.slots
                &&& bulb_views(final(self).bulbs@) == live_bulbs(pass.bulbs)
                &&& sounds@ == pass.sounds
            }),
            final(self).the_machine.slots_occupied + final(self).bulbs@.len()
                == old(self).the_machine.slots_occupied + old(self).bulbs@.len(),
            final(self).the_machine.slots_occupied >= old(self).the_machine.slots_occupied,
            final(self).the_machine.slots_occupied > old(self).the_machine.slots_occupied ==> {
                &&& final(self).clock.rewind
                &&& final(self).clock.paused
                &&& final(self).clock.clear_players
            },
            count_sound(sounds@, Sound::Drop) == final(self).the_machine.slots_occupied
                - old(self).the_machine.slots_occupied,
            carriers_within(bulb_views(old(self).bulbs@), old(self).players@.len()) ==> carriers_within(
                bulb_views(final(self).bulbs@),
                old(self).players@.len(),
            ),
            *final(self) == (Game {
                clock: final(self).clock,
                the_machine: final(self).the_machine,
                bulbs: final(self).bulbs,
                ..*old(self)
            }),
    {
        proof {
            assert forall|b: int|
                0 <= b < choices@.len() implies match #[trigger] choices@[b] {
                BulbChoice::PickUp(p) => p < old(self).players@.len(),
                _ => true,
            } by {
                match choices@[b] {
                    BulbChoice::PickUp(p) => {
                        let near = near_players(players_spatial@, bulb_tiles@[b]);
                        players_spatial.lemma_listed_exist(bulb_tiles@[b]);
                        assert(near.contains(p));
                        let i = choose|i: int| 0 <= i < near.len() && near[i] == p;
                        assert(near[i] < players_spatial@.len());
                    },
                    _ => {},
                }
            }
            if carriers_within(bulb_views(old(self).bulbs@), old(self).players@.len()) {
                let pass = bulb_pass(
                    old(self).bulb_start(),
                    player_views(old(self).players@),
                    choices@,
                    old(self).bulbs@.len(),
                );
                lemma_pass_carriers(
                    old(self).bulb_start(),
                    player_views(old(self).players@),
                    choices@,
                    old(self).bulbs@.len(),
                    old(self).players@.len(),
                );
                lemma_live_carriers(pass.bulbs, old(self).players@.len());
            }
        }
        let ghost st0 = self.bulb_start();
        let ghost pv = player_views(self.players@);
        proof {
            lemma_live_count_all(bulb_views(self.bulbs@));
        }
        let mut sounds: Vec<Sound> = Vec::new();
        let n = self.bulbs.len();
        let mut b: usize = 0;
        while b < n
            invariant
                b <= n,
                n == self.bulbs@.len(),
                n == old(self).bulbs@.len(),
                choices@.len() == n,
                st0 == old(self).bulb_start(),
                pv == player_views(old(self).players@),
                self.players == old(self).players,
                forall|c: nat|
                    c < n ==> carrier_present(
                        #[trigger] bulb_pass(st0, pv, choices@, c),
                        old(self).players@.len(),
                        c as int,
                    ),
                bulb_pass(st0, pv, choices@, b as nat) == (BulbPass {
                    clock: self.clock,
                    slots: self.the_machine.slots_occupied as nat,
                    bulbs: bulb_views(self.bulbs@),
                    sounds: sounds@,
                }),
                self.wf_core(),
                clock_settled(self.clock),
                forall|j: int| b <= j < n ==> !(#[trigger] self.bulbs@[j])@.inserted,
                self.the_machine.slots_occupied + live_count(bulb_views(self.bulbs@))
                    == old(self).the_machine.slots_occupied + n,
                self.the_machine.slots_occupied >= old(self).the_machine.slots_occupied,
                self.the_machine.slots_occupied > old(self).the_machine.slots_occupied ==> {
                    &&& self.clock.rewind
                    &&& self.clock.paused
                    &&& self.clock.clear_players
                },
                count_sound(sounds@, Sound::Drop) == self.the_machine.slots_occupied
                    - old(self).the_machine.slots_occupied,
                *self == (Game {
                    clock: self.clock,
                    the_machine: self.the_machine,
                    bulbs: self.bulbs,
                    ..*old(self)
                }),
            decreases n - b,
        {
            let ghost before = bulb_pass(st0, pv, choices@, b as nat);
            let ghost sounds_before = sounds@;
            let ghost bulbs_before = self.bulbs@;
            proof {
                assert(carrier_present(before, old(self).players@.len(), b as int));
                assert(bulb_views(self.bulbs@)[b as int] == self.bulbs@[b as int]@);
            }
            if !self.clock.paused {
                let carried = self.bulbs[b].carrier().is_some();
                self.advance_bulb(b);
                proof {
                    assert(bulb_views(self.bulbs@)[b as int] == self.bulbs@[b as int]@);
                }
                if carried {
                    if choices[b] == BulbChoice::Insert {
                        let s = self.insert_bulb(b);
                        sounds.push(s);
                        proof {
                            assert(sounds@.drop_last() == sounds_before);
                        }
                    }
                } else {
                    match choices[b] {
                        BulbChoice::PickUp(p) => {
                            let s = self.pick_up_bulb(b, p);
                            sounds.push(s);
                            proof {
                                assert(sounds@.drop_last() == sounds_before);
                            }
                        },
                        _ => {},
                    }
                }
                proof {
                    assert(bulb_views(self.bulbs@) =~= bulb_pass(st0, pv, choices@, (b + 1) as nat).bulbs);
                    assert forall|j: int| b < j < n implies !(#[trigger] self.bulbs@[j])@.inserted by {
                        assert(bulb_views(self.bulbs@)[j] == self.bulbs@[j]@);
                        assert(bulb_views(bulbs_before)[j] == bulbs_before[j]@);
                    }
                }
            }
            b = b + 1;
        }
        self.remove_inserted_bulbs();
        sounds
    }
}

/// Pressing a button changes only whether doors are open, and leaves one
/// readiness flag per teleporter.
pub proof fn lemma_press_button_keeps_doors(
    st: PressState,
    teles: Seq<Teleporter>,
    sp: Seq<TilePos>,
    position: TilePos,
    conns: Seq<TilePos>,
    was_active: bool,
)
    requires
        st.ready.len() == teles.len(),
    ensures
        press_button(st, teles, sp, position, conns, was_active).doors.len() == st.doors.len(),
        forall|j: int|
            0 <= j < st.doors.len() ==> (#[trigger] press_button(st, teles, sp, position, conns, was_active).doors[j]).position
                == st.doors[j].position,
        press_button(st, teles, sp, position, conns, was_active).ready.len() == st.ready.len(),
{
    lemma_connect_all_keeps_doors(
        PressState { changed: false, ..st },
        teles,
        sp,
        conns,
        is_pressed(sp, position),
        was_active,
    );
}

/// The wired tiles of a button change only whether doors are open, and leave
/// one readiness flag per teleporter.
pub proof fn lemma_connect_all_keeps_doors(
    st: PressState,
    teles: Seq<Teleporter>,
    sp: Seq<TilePos>,
    conns: Seq<TilePos>,
    pressed: bool,
    was_active: bool,
)
    requires
        st.ready.len() == teles.len(),
    ensures
        connect_all(st, teles, sp, conns, pressed, was_active).doors.len() == st.doors.len(),
        forall|j: int|
            0 <= j < st.doors.len() ==> (#[trigger] connect_all(st, teles, sp, conns, pressed, was_active).doors[j]).position
                == st.doors[j].position,
        connect_all(st, teles, sp, conns, pressed, was_active).ready.len() == st.ready.len(),
    decreases conns.len(),
{
    if conns.len() > 0 {
        lemma_connect_all_keeps_doors(st, teles, sp, conns.drop_last(), pressed, was_active);
        let mid = connect_all(st, teles, sp, conns.drop_last(), pressed, was_active);
        lemma_index_at_range(mid.doors, conns.last());
        lemma_index_at_range(teles, conns.last());
    }
}

/// Every bulb that stays is one not in the machine, and as many stay as were
/// still about.
pub proof fn lemma_live_bulbs<P>(bs: Seq<BulbView<P>>)
    ensures
        forall|i: int| 0 <= i < live_bulbs(bs).len() ==> !(#[trigger] live_bulbs(bs)[i]).inserted,
        live_bulbs(bs).len() == live_count(bs),
    decreases bs.len(),
{
    if bs.len() > 0 {
        lemma_live_bulbs(bs.drop_first());
        lemma_live_count_front(bs);
        let rest = live_bulbs(bs.drop_first());
        if !bs[0].inserted {
            assert forall|i: int| 0 <= i < live_bulbs(bs).len() implies !(#[trigger] live_bulbs(bs)[i]).inserted by {
                if i > 0 {
                    assert(live_bulbs(bs)[i] == rest[i - 1]);
                }
            }
        }
    }
}

/// The count of bulbs about, taken from the front.
pub proof fn lemma_live_count_front<P>(bs: Seq<BulbView<P>>)
    requires
        bs.len() > 0,
    ensures
        live_count(bs) == live_count(bs.drop_first()) + if bs[0].inserted {
            0nat
        } else {
            1nat
        },
    decreases bs.len(),
{
    if bs.len() > 1 {
        lemma_live_count_front(bs.drop_last());
        assert(bs.drop_last().drop_first() =~= bs.drop_first().drop_last());
        assert(bs.drop_last()[0] == bs[0]);
        assert(bs.drop_first().last() == bs.last());
    } else {
        assert(bs.drop_first().len() == 0);
        assert(bs.drop_last().len() == 0);
        assert(bs.last() == bs[0]);
        assert(live_count(bs.drop_first()) == 0);
        assert(live_count(bs.drop_last()) == 0);
    }
}

} // verus!
