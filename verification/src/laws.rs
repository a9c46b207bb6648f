use vstd::prelude::*;
use crate::button::{Button, PressState, connect_all, is_pressed, press_button, teleport_list};
use crate::game::{Game, BulbPass, BulbChoice, bulb_step, blocks, InputState, on_events, in_step, awaiting_move, Clock, LOOP_TICKS, REWIND_STEP, Step, any_held, clock_step, fresh, players_after, press_all, lemma_connect_all_keeps_doors};
use crate::geometry::{TilePos, Placed, index_at, lemma_index_at_range, lemma_index_at_unique, distinct_places};
use crate::ghost::{RecordingView, position_at};
use crate::spatial::{occupants, lemma_occupants};
use crate::input::{Controls, InputEvent};
use crate::mechanisms::{BulbView, Door, Sound, Teleporter};

verus! {

/// While the loop rewinds, each update winds the clock back by `REWIND_STEP`
/// ticks, stopping at the loop's start, plays nothing and stays paused; the
/// rewind ends, and a new loop begins, exactly when the clock reaches zero.
pub proof fn law_rewind(c: Clock, controls: Controls)
    requires
        c.rewind,
    ensures
        clock_step(c, controls).0.tick == (if c.tick >= REWIND_STEP {
            c.tick - REWIND_STEP
        } else {
            0
        }),
        clock_step(c, controls).0.paused == c.paused,
        clock_step(c, controls).2.len() == 0,
        (clock_step(c, controls).1 is LoopRestart) <==> c.tick <= REWIND_STEP,
        (clock_step(c, controls).1 is Rewinding) <==> c.tick > REWIND_STEP,
        clock_step(c, controls).0.rewind <==> c.tick > REWIND_STEP,
{
}

/// A running loop moves on one tick per update; on reaching `LOOP_TICKS` it
/// starts rewinding, paused, with the rewind sound. The clock never passes
/// `LOOP_TICKS`.
pub proof fn law_loop_end(c: Clock, controls: Controls)
    requires
        !c.rewind,
        c.tick < LOOP_TICKS,
        clock_step(c, controls).1 is Moved,
    ensures
        clock_step(c, controls).0.tick == c.tick + 1,
        clock_step(c, controls).0.tick <= LOOP_TICKS,
        clock_step(c, controls).0.tick == LOOP_TICKS ==> {
            &&& clock_step(c, controls).0.rewind
            &&& clock_step(c, controls).0.paused
            &&& clock_step(c, controls).2.last() == Sound::Rewind
        },
        clock_step(c, controls).0.tick < LOOP_TICKS ==> !clock_step(c, controls).0.paused
            && !clock_step(c, controls).0.rewind,
{
}

/// A paused game stays paused, and nothing moves, until a movement key is held.
pub proof fn law_pause(c: Clock, controls: Controls)
    requires
        !c.rewind,
        c.paused,
    ensures
        !any_held(controls) ==> clock_step(c, controls) == (c, Step::Waiting, Seq::<Sound>::empty()),
        any_held(controls) ==> clock_step(c, controls).1 is Moved && clock_step(c, controls).2[0]
            == Sound::Start,
{
}

/// When a loop ends without clearing, every ghost starts again from the start
/// with the controls it recorded (so it replays them), and one fresh player
/// joins after them; when it ends with clearing, one fresh player is left.
/// When the players move, only the current player records, one tick's worth of
/// controls; every earlier ghost keeps what it recorded.
pub proof fn law_players<P>(
    ps: Seq<RecordingView<P>>,
    restarted: bool,
    step: Step,
    start: P,
    controls: Controls,
)
    requires
        ps.len() >= 1,
    ensures
        ({
            let p0 = if restarted {
                seq![fresh(start)]
            } else {
                ps
            };
            let after = players_after(ps, restarted, step, start, controls);
            &&& step == (Step::LoopRestart { cleared: true }) ==> after == seq![fresh(start)]
            &&& step == (Step::LoopRestart { cleared: false }) ==> {
                &&& after.len() == p0.len() + 1
                &&& after.last() == fresh(start)
                &&& forall|j: int|
                    0 <= j < p0.len() ==> (#[trigger] after[j]).controls == p0[j].controls
                        && after[j].positions == seq![start]
            }
            &&& step is Moved ==> {
                &&& after.len() == p0.len()
                &&& after.last().controls == p0.last().controls.push(controls)
                &&& after.last().positions == p0.last().positions
                &&& forall|j: int| 0 <= j < p0.len() - 1 ==> #[trigger] after[j] == p0[j]
            }
            &&& after.len() >= 1
        }),
{
}

/// The last button, in update order, wired to tile `p`, or -1.
pub open spec fn last_wired(buttons: Seq<Button>, p: TilePos) -> int
    decreases buttons.len(),
{
    if buttons.len() == 0 {
        -1
    } else if buttons.last().connections@.contains(p) {
        buttons.len() - 1
    } else {
        last_wired(buttons.drop_last(), p)
    }
}

proof fn lemma_connect_all_door(
    st: PressState,
    teles: Seq<Teleporter>,
    sp: Seq<TilePos>,
    conns: Seq<TilePos>,
    pressed: bool,
    was_active: bool,
    d: int,
)
    requires
        distinct_places(st.doors),
        0 <= d < st.doors.len(),
        st.ready.len() == teles.len(),
    ensures
        connect_all(st, teles, sp, conns, pressed, was_active).doors.len() == st.doors.len(),
        distinct_places(connect_all(st, teles, sp, conns, pressed, was_active).doors),
        connect_all(st, teles, sp, conns, pressed, was_active).doors[d].position
            == st.doors[d].position,
        connect_all(st, teles, sp, conns, pressed, was_active).doors[d].open == if conns.contains(
            st.doors[d].position,
        ) {
            pressed
        } else {
            st.doors[d].open
        },
    decreases conns.len(),
{
    if conns.len() > 0 {
        let pre = conns.drop_last();
        lemma_connect_all_door(st, teles, sp, pre, pressed, was_active, d);
        let mid = connect_all(st, teles, sp, pre, pressed, was_active);
        lemma_connect_all_keeps_doors(st, teles, sp, pre, pressed, was_active);
        lemma_index_at_range(mid.doors, conns.last());
        lemma_index_at_range(teles, conns.last());
        lemma_index_at_unique(mid.doors, d);
        let p = st.doors[d].position;
        if conns.contains(p) && !pre.contains(p) {
            let k = choose|k: int| 0 <= k < conns.len() && conns[k] == p;
            if k < pre.len() {
                assert(pre[k] == p);
            }
        }
        if pre.contains(p) {
            let k = choose|k: int| 0 <= k < pre.len() && pre[k] == p;
            assert(conns[k] == p);
        }
        if conns.last() == p {
            assert(conns.contains(p));
        }
        let after = connect_all(st, teles, sp, conns, pressed, was_active);
        assert forall|i: int, j: int| 0 <= i < j < after.doors.len() implies after.doors[i].position
            != after.doors[j].position by {
            assert(after.doors[i].position == mid.doors[i].position);
            assert(after.doors[j].position == mid.doors[j].position);
        }
    }
}

/// After the buttons of an update, a door takes the state of the last button
/// (in update order) wired to it: open when a player stands on that button,
/// closed when none does; a door no button is wired to stays as it was.
pub proof fn law_doors(st: PressState, teles: Seq<Teleporter>, sp: Seq<TilePos>, buttons: Seq<Button>, d: int)
    requires
        distinct_places(st.doors),
        0 <= d < st.doors.len(),
        st.ready.len() == teles.len(),
    ensures
        press_all(st, teles, sp, buttons).doors.len() == st.doors.len(),
        distinct_places(press_all(st, teles, sp, buttons).doors),
        press_all(st, teles, sp, buttons).doors[d].position == st.doors[d].position,
        press_all(st, teles, sp, buttons).ready.len() == st.ready.len(),
        press_all(st, teles, sp, buttons).doors[d].open == if last_wired(
            buttons,
            st.doors[d].position,
        ) >= 0 {
            is_pressed(sp, buttons[last_wired(buttons, st.doors[d].position)].position)
        } else {
            st.doors[d].open
        },
    decreases buttons.len(),
{
    if buttons.len() > 0 {
        let pre = buttons.drop_last();
        law_doors(st, teles, sp, pre, d);
        let mid = press_all(st, teles, sp, pre);
        let b = buttons.last();
        let mid0 = PressState { changed: false, ..mid };
        lemma_connect_all_door(mid0, teles, sp, b.connections@, is_pressed(sp, b.position), b.active, d);
        lemma_connect_all_keeps_doors(mid0, teles, sp, b.connections@, is_pressed(sp, b.position), b.active);
        let p = st.doors[d].position;
        if !b.connections@.contains(p) {
            assert(last_wired(buttons, p) == last_wired(pre, p));
            if last_wired(pre, p) >= 0 {
                lemma_last_wired_range(pre, p);
                assert(buttons[last_wired(pre, p)] == pre[last_wired(pre, p)]);
            }
        }
    }
}

proof fn lemma_last_wired_range(buttons: Seq<Button>, p: TilePos)
    ensures
        -1 <= last_wired(buttons, p) < buttons.len(),
    decreases buttons.len(),
{
    if buttons.len() > 0 {
        lemma_last_wired_range(buttons.drop_last(), p);
    }
}

/// Teleporters fire only on the edge: a button that was already stood on, or
/// that nobody stands on, fires no teleporter and asks for no teleport.
pub proof fn law_teleport_edge(
    st: PressState,
    teles: Seq<Teleporter>,
    sp: Seq<TilePos>,
    position: TilePos,
    conns: Seq<TilePos>,
    was_active: bool,
)
    requires
        was_active || !is_pressed(sp, position),
    ensures
        press_button(st, teles, sp, position, conns, was_active).ready == st.ready,
        press_button(st, teles, sp, position, conns, was_active).activated == st.activated,
        press_button(st, teles, sp, position, conns, was_active).teleports == st.teleports,
{
    lemma_no_fire(PressState { changed: false, ..st }, teles, sp, conns, is_pressed(sp, position), was_active);
}

proof fn lemma_no_fire(
    st: PressState,
    teles: Seq<Teleporter>,
    sp: Seq<TilePos>,
    conns: Seq<TilePos>,
    pressed: bool,
    was_active: bool,
)
    requires
        was_active || !pressed,
    ensures
        connect_all(st, teles, sp, conns, pressed, was_active).ready == st.ready,
        connect_all(st, teles, sp, conns, pressed, was_active).activated == st.activated,
        connect_all(st, teles, sp, conns, pressed, was_active).teleports == st.teleports,
    decreases conns.len(),
{
    if conns.len() > 0 {
        lemma_no_fire(st, teles, sp, conns.drop_last(), pressed, was_active);
    }
}

/// What a set of teleporter firings must look like: every teleporter fired
/// was ready before, is no longer ready, and fired once.
pub open spec fn fired_once(before: Seq<bool>, st: PressState) -> bool {
    &&& st.ready.len() == before.len()
    &&& forall|k: int|
        0 <= k < st.activated.len() ==> {
            &&& (#[trigger] st.activated[k]) < before.len()
            &&& before[st.activated[k] as int]
            &&& !st.ready[st.activated[k] as int]
        }
    &&& forall|j: int, k: int|
        0 <= j < k < st.activated.len() ==> st.activated[j] != st.activated[k]
    &&& forall|t: int| 0 <= t < before.len() && st.ready[t] ==> before[t]
}

proof fn lemma_connect_all_fires_once(
    before: Seq<bool>,
    st: PressState,
    teles: Seq<Teleporter>,
    sp: Seq<TilePos>,
    conns: Seq<TilePos>,
    pressed: bool,
    was_active: bool,
)
    requires
        before.len() == teles.len(),
        teles.len() <= usize::MAX,
        fired_once(before, st),
    ensures
        fired_once(before, connect_all(st, teles, sp, conns, pressed, was_active)),
    decreases conns.len(),
{
    if conns.len() > 0 {
        lemma_connect_all_fires_once(before, st, teles, sp, conns.drop_last(), pressed, was_active);
        let mid = connect_all(st, teles, sp, conns.drop_last(), pressed, was_active);
        let c = conns.last();
        lemma_index_at_range(mid.doors, c);
        lemma_index_at_range(teles, c);
        let di = index_at(mid.doors, c);
        let st1 = if di >= 0 {
            PressState {
                doors: mid.doors.update(di, Door { open: pressed, ..mid.doors[di] }),
                changed: mid.changed || mid.doors[di].open != pressed,
                ..mid
            }
        } else {
            mid
        };
        let ti = index_at(teles, c);
        let after = connect_all(st, teles, sp, conns, pressed, was_active);
        if pressed && !was_active && ti >= 0 && st1.ready[ti] {
            assert(after.activated == mid.activated.push(ti as usize));
            assert(after.ready == mid.ready.update(ti, false));
            assert forall|k: int| 0 <= k < after.activated.len() implies {
                &&& (#[trigger] after.activated[k]) < before.len()
                &&& before[after.activated[k] as int]
                &&& !after.ready[after.activated[k] as int]
            } by {
                assert(st1.ready == mid.ready);
                assert(mid.ready[ti]);
                if k < mid.activated.len() {
                    assert(after.activated[k] == mid.activated[k]);
                    assert(!mid.ready[mid.activated[k] as int]);
                    assert(mid.activated[k] as int != ti);
                } else {
                    assert(after.activated[k] == ti as usize);
                }
            }
            assert forall|j: int, k: int| 0 <= j < k < after.activated.len() implies after.activated[j]
                != after.activated[k] by {
                if k < mid.activated.len() {
                    assert(after.activated[j] == mid.activated[j]);
                    assert(after.activated[k] == mid.activated[k]);
                } else {
                    assert(st1.ready == mid.ready);
                    assert(after.activated[j] == mid.activated[j]);
                    assert(!mid.ready[mid.activated[j] as int]);
                    assert(after.activated[k] == ti as usize);
                }
            }
        } else {
            assert(after.ready == mid.ready);
            assert(after.activated == mid.activated);
        }
    }
}

/// In an update, each teleporter fires at most once, and only if it was ready
/// when the buttons began; a teleporter that fired is no longer ready.
pub proof fn law_teleport_once(st: PressState, teles: Seq<Teleporter>, sp: Seq<TilePos>, buttons: Seq<Button>)
    requires
        st.ready.len() == teles.len(),
        teles.len() <= usize::MAX,
        st.activated.len() == 0,
    ensures
        fired_once(st.ready, press_all(st, teles, sp, buttons)),
{
    lemma_press_all_fires_once(st.ready, st, teles, sp, buttons);
}

proof fn lemma_press_all_fires_once(
    before: Seq<bool>,
    st: PressState,
    teles: Seq<Teleporter>,
    sp: Seq<TilePos>,
    buttons: Seq<Button>,
)
    requires
        before.len() == teles.len(),
        teles.len() <= usize::MAX,
        fired_once(before, st),
    ensures
        fired_once(before, press_all(st, teles, sp, buttons)),
    decreases buttons.len(),
{
    if buttons.len() > 0 {
        lemma_press_all_fires_once(before, st, teles, sp, buttons.drop_last());
        let mid = press_all(st, teles, sp, buttons.drop_last());
        let b = buttons.last();
        lemma_connect_all_fires_once(
            before,
            PressState { changed: false, ..mid },
            teles,
            sp,
            b.connections@,
            is_pressed(sp, b.position),
            b.active,
        );
    }
}

} // verus!

verus! {

/// Key events move the clock only by Escape, which puts it at the loop's start
/// and replaces the players; without Escape, a clock that ends up not
/// rewinding was not rewinding before.
pub proof fn lemma_events_clock(s: InputState, es: Seq<InputEvent>)
    requires
        !s.restarted,
    ensures
        on_events(s, es).restarted ==> on_events(s, es).clock.tick == 0,
        !on_events(s, es).restarted ==> on_events(s, es).clock.tick == s.clock.tick,
        !on_events(s, es).restarted && !on_events(s, es).clock.rewind ==> !s.clock.rewind,
    decreases es.len(),
{
    if es.len() > 0 {
        lemma_events_clock(s, es.drop_last());
    }
}

/// The players' records keep in step with the clock across an update: if they
/// agreed with the clock before (or the loop was rewinding), then after an
/// update that moves the players on tick `t` the current player has recorded
/// the controls for `t` and nobody has moved yet (`Game::move_players` then
/// brings every record to `t + 1`), and after any other update that leaves
/// the loop running they agree with the clock.
pub proof fn law_update_records<P>(
    ps: Seq<RecordingView<P>>,
    c: Clock,
    controls: Controls,
    es: Seq<InputEvent>,
    start: P,
)
    requires
        ps.len() >= 1,
        !c.rewind ==> in_step(ps, c.tick as int),
        c.tick <= LOOP_TICKS,
    ensures
        ({
            let s = on_events(
                InputState { clock: c, controls, restarted: false, sounds: Seq::empty() },
                es,
            );
            let cs = clock_step(s.clock, s.controls);
            let after = players_after(ps, s.restarted, cs.1, start, s.controls);
            &&& (cs.1 matches Step::Moved { tick } ==> awaiting_move(after, tick as int) && cs.0.tick
                == tick + 1)
            &&& (!(cs.1 is Moved) && !cs.0.rewind ==> in_step(after, cs.0.tick as int))
        }),
{
    let s0 = InputState { clock: c, controls, restarted: false, sounds: Seq::empty() };
    lemma_events_clock(s0, es);
    let s = on_events(s0, es);
    let cs = clock_step(s.clock, s.controls);
    let p0 = if s.restarted {
        seq![fresh(start)]
    } else {
        ps
    };
    let after = players_after(ps, s.restarted, cs.1, start, s.controls);
    if s.restarted {
        assert(in_step(p0, 0));
    }
    match cs.1 {
        Step::Moved { tick } => {
            assert(in_step(p0, tick as int));
            assert forall|i: int| 0 <= i < after.len() implies (#[trigger] after[i]).positions.len()
                == 1 + (if tick < after[i].controls.len() {
                tick as int
            } else {
                after[i].controls.len() as int
            }) by {
                assert(p0[i].positions.len() == 1 + (if tick < p0[i].controls.len() {
                    tick as int
                } else {
                    p0[i].controls.len() as int
                }));
            }
            assert(after.last() == after[after.len() - 1]);
        },
        Step::LoopRestart { cleared } => {
            if !cleared {
                assert forall|i: int| 0 <= i < after.len() implies (#[trigger] after[i]).positions.len()
                    == 1 + (if 0 < after[i].controls.len() {
                    0
                } else {
                    after[i].controls.len() as int
                }) by {}
            }
        },
        _ => {},
    }
}

/// The level is won exactly when all six slots of the machine are full and the
/// clock is back at the start of a loop; with a slot still empty it is not.
pub proof fn law_won<P>(g: Game<P>)
    ensures
        g.won() <==> (g.the_machine.slots_occupied == 6 && g.clock.tick == 0),
        g.the_machine.slots_occupied < 6 ==> !g.won(),
{
}

/// A fired teleporter sends every player standing on its tile, and only
/// those, to its destination, each once, in increasing order of player.
pub proof fn law_teleport_all(sp: Seq<TilePos>, tp: Teleporter)
    requires
        sp.len() <= usize::MAX,
    ensures
        forall|k: int|
            0 <= k < teleport_list(sp, tp).len() ==> {
                &&& (#[trigger] teleport_list(sp, tp)[k]).1 == tp.destination
                &&& teleport_list(sp, tp)[k].0 < sp.len()
                &&& sp[teleport_list(sp, tp)[k].0 as int] == tp.position
            },
        forall|i: usize|
            i < sp.len() && sp[i as int] == tp.position ==> #[trigger] teleport_list(sp, tp).contains(
                (i, tp.destination),
            ),
        forall|j: int, k: int|
            0 <= j < k < teleport_list(sp, tp).len() ==> teleport_list(sp, tp)[j].0 < teleport_list(
                sp,
                tp,
            )[k].0,
{
    lemma_occupants(sp, tp.position);
    let occ = occupants(sp, tp.position);
    let l = teleport_list(sp, tp);
    assert(l.len() == occ.len());
    assert forall|k: int| 0 <= k < l.len() implies {
        &&& (#[trigger] l[k]).1 == tp.destination
        &&& l[k].0 < sp.len()
        &&& sp[l[k].0 as int] == tp.position
    } by {
        assert(l[k] == (occ[k], tp.destination));
        assert(occ.contains(occ[k]));
    }
    assert forall|i: usize| i < sp.len() && sp[i as int] == tp.position implies #[trigger] l.contains(
        (i, tp.destination),
    ) by {
        assert(occ.contains(i));
        let k = choose|k: int| 0 <= k < occ.len() && occ[k] == i;
        assert(l[k] == (i, tp.destination));
    }
    assert forall|j: int, k: int| 0 <= j < k < l.len() implies l[j].0 < l[k].0 by {
        assert(l[j].0 == occ[j]);
        assert(l[k].0 == occ[k]);
    }
}

/// A tile is blocked exactly when it is a wall or a closed door stands on it,
/// whichever way the door is drawn.
pub proof fn law_blocks(walls: Seq<TilePos>, doors: Seq<Door>, t: TilePos)
    requires
        distinct_places(doors),
    ensures
        blocks(walls, doors, t) <==> (walls.contains(t) || exists|j: int|
            0 <= j < doors.len() && (#[trigger] doors[j]).position == t && !doors[j].open),
        forall|j: int|
            0 <= j < doors.len() && (#[trigger] doors[j]).position == t && !doors[j].open ==> blocks(
                walls,
                doors,
                t,
            ),
{
    lemma_index_at_range(doors, t);
    assert forall|j: int|
        0 <= j < doors.len() && (#[trigger] doors[j]).position == t && !doors[j].open implies blocks(
        walls,
        doors,
        t,
    ) by {
        lemma_index_at_unique(doors, j);
        assert(doors[j].place() == t);
    }
    if index_at(doors, t) >= 0 {
        let d = index_at(doors, t);
        assert(doors[d].place() == doors[d].position);
    }
}

/// A loose bulb that a player picks up on a running tick is carried by that
/// very player from that tick on, moves on where it lay, and asks for the
/// pick-up sound; nothing else changes.
pub proof fn law_pick_up<P>(
    st: BulbPass<P>,
    players: Seq<RecordingView<P>>,
    b: int,
    p: usize,
)
    requires
        0 <= b < st.bulbs.len(),
        !st.clock.paused,
        st.bulbs[b].picked_up is None,
    ensures
        bulb_step(st, players, b, BulbChoice::PickUp(p)).bulbs[b] == (BulbView {
            positions: st.bulbs[b].positions.push(position_at(st.bulbs[b].positions, st.clock.tick as int)),
            picked_up: Some((st.clock.tick, p)),
            inserted: st.bulbs[b].inserted,
        }),
        bulb_step(st, players, b, BulbChoice::PickUp(p)).bulbs.len() == st.bulbs.len(),
        forall|j: int|
            0 <= j < st.bulbs.len() && j != b ==> #[trigger] bulb_step(
                st,
                players,
                b,
                BulbChoice::PickUp(p),
            ).bulbs[j] == st.bulbs[j],
        bulb_step(st, players, b, BulbChoice::PickUp(p)).sounds == st.sounds.push(Sound::Pickup),
        bulb_step(st, players, b, BulbChoice::PickUp(p)).clock == st.clock,
        bulb_step(st, players, b, BulbChoice::PickUp(p)).slots == st.slots,
{
}

/// A button is pressed exactly when at least one player stands on it, however
/// many do.
pub proof fn law_pressed(sp: Seq<TilePos>, position: TilePos)
    requires
        sp.len() <= usize::MAX,
    ensures
        is_pressed(sp, position) <==> exists|i: int| 0 <= i < sp.len() && sp[i] == position,
{
    lemma_occupants(sp, position);
    if exists|i: int| 0 <= i < sp.len() && sp[i] == position {
        let i = choose|i: int| 0 <= i < sp.len() && sp[i] == position;
        assert(occupants(sp, position).contains(i as usize));
    }
    if is_pressed(sp, position) {
        let i = occupants(sp, position)[0];
        assert(occupants(sp, position).contains(i));
    }
}

/// While the game is paused no bulb moves, and nothing else changes.
pub proof fn law_bulbs_wait<P>(st: BulbPass<P>, players: Seq<RecordingView<P>>, b: int, c: BulbChoice)
    requires
        st.clock.paused,
    ensures
        bulb_step(st, players, b, c) == st,
{
}

/// On a running tick a carried bulb follows its carrier; brought to the
/// machine, it goes in: one more slot, the drop sound, and the loop rewinds,
/// paused, dropping every ghost when it ends. Otherwise nothing else changes.
pub proof fn law_carried_bulb<P>(
    st: BulbPass<P>,
    players: Seq<RecordingView<P>>,
    b: int,
    c: BulbChoice,
    t: usize,
    q: usize,
)
    requires
        0 <= b < st.bulbs.len(),
        !st.clock.paused,
        st.bulbs[b].picked_up == Some((t, q)),
    ensures
        bulb_step(st, players, b, c).bulbs.len() == st.bulbs.len(),
        bulb_step(st, players, b, c).bulbs[b].positions == st.bulbs[b].positions.push(
            position_at(players[q as int].positions, st.clock.tick as int),
        ),
        bulb_step(st, players, b, c).bulbs[b].picked_up == Some((t, q)),
        forall|j: int|
            0 <= j < st.bulbs.len() && j != b ==> #[trigger] bulb_step(st, players, b, c).bulbs[j]
                == st.bulbs[j],
        c == BulbChoice::Insert ==> {
            &&& bulb_step(st, players, b, c).bulbs[b].inserted
            &&& bulb_step(st, players, b, c).slots == st.slots + 1
            &&& bulb_step(st, players, b, c).sounds == st.sounds.push(Sound::Drop)
            &&& bulb_step(st, players, b, c).clock.tick == st.clock.tick
            &&& bulb_step(st, players, b, c).clock.rewind
            &&& bulb_step(st, players, b, c).clock.paused
            &&& bulb_step(st, players, b, c).clock.clear_players
        },
        c != BulbChoice::Insert ==> {
            &&& bulb_step(st, players, b, c).bulbs[b].inserted == st.bulbs[b].inserted
            &&& bulb_step(st, players, b, c).slots == st.slots
            &&& bulb_step(st, players, b, c).sounds == st.sounds
            &&& bulb_step(st, players, b, c).clock == st.clock
        },
{
}

/// On a running tick a loose bulb nobody picks up stays where it lay, and
/// cannot go into the machine; nothing else changes.
pub proof fn law_loose_bulb<P>(st: BulbPass<P>, players: Seq<RecordingView<P>>, b: int, c: BulbChoice)
    requires
        0 <= b < st.bulbs.len(),
        !st.clock.paused,
        st.bulbs[b].picked_up is None,
        !(c is PickUp),
    ensures
        bulb_step(st, players, b, c).bulbs == st.bulbs.update(
            b,
            BulbView {
                positions: st.bulbs[b].positions.push(position_at(st.bulbs[b].positions, st.clock.tick as int)),
                ..st.bulbs[b]
            },
        ),
        bulb_step(st, players, b, c).slots == st.slots,
        bulb_step(st, players, b, c).sounds == st.sounds,
        bulb_step(st, players, b, c).clock == st.clock,
{
}

} // verus!
