use timeloop::button::{Button, ButtonEffects};
use timeloop::game::{BulbChoice, Clock, Game, Step, LOOP_TICKS, REWIND_STEP};
use timeloop::geometry::TilePos;
use timeloop::ghost::Recording;
use timeloop::input::{Controls, InputEvent, Key};
use timeloop::level::{is_wall, ButtonTile, DoorSpot, DoorTile, Level, TeleporterTile};
use timeloop::level_text::{parse_level, LevelError};
use timeloop::mechanisms::{Bulb, Door, Sound, Teleporter, TheMachine};
use timeloop::spatial::PlayersSpatial;

type P = (f32, f32);

fn t(x: i32, y: i32) -> TilePos {
    TilePos::new(x, y)
}

fn idle() -> Controls {
    Controls::default()
}

fn level() -> Level<P> {
    Level {
        walls: vec![t(0, 0), t(1, 0)],
        player_start: (2.5, 2.5),
        buttons: vec![
            ButtonTile { position: t(3, 3), connections: vec![t(5, 5), t(6, 6)] },
            ButtonTile { position: t(4, 4), connections: vec![t(5, 5)] },
        ],
        doors: vec![DoorSpot { position: t(5, 5), kind: DoorTile::Horizontal }],
        teleporters: vec![TeleporterTile { position: t(6, 6), connection: Some(t(9, 9)) }],
        bulbs: vec![(7.5, 7.5), (8.5, 8.5)],
        the_machine: t(10, 10),
    }
}

fn down(k: Key) -> InputEvent {
    InputEvent::KeyDown(k)
}

fn up(k: Key) -> InputEvent {
    InputEvent::KeyUp(k)
}

#[test]
fn controls_follow_movement_keys() {
    let mut c = idle();
    c.apply(down(Key::W));
    c.apply(down(Key::D));
    assert!(c.up && c.right && !c.left && !c.down);
    assert!(c.any());
    assert_eq!(c.direction(), (1, 1));
    c.apply(up(Key::W));
    assert_eq!(c, Controls { up: false, left: false, down: false, right: true });
    c.apply(down(Key::Space));
    c.apply(down(Key::Other));
    assert_eq!(c, Controls { up: false, left: false, down: false, right: true });
    c.apply(down(Key::A));
    assert_eq!(c.direction(), (0, 0));
    c.apply(down(Key::S));
    assert_eq!(c.direction(), (0, -1));
}

#[test]
fn press_then_release_restores_key() {
    let mut c = idle();
    c.apply(down(Key::S));
    c.apply(up(Key::S));
    assert_eq!(c, idle());
    assert!(!c.any());
}

#[test]
fn recording_moves_only_when_free() {
    let mut g: Recording<P> = Recording::new((1.0, 1.0));
    assert_eq!(g.position(0), (1.0, 1.0));
    assert_eq!(g.controls_at(0), None);
    // No controls recorded for the tick: nothing is appended.
    g.update(0, (9.0, 9.0), false);
    assert_eq!(g.last_position(), (1.0, 1.0));
    g.push_controls(Controls { up: true, left: false, down: false, right: false });
    g.push_controls(Controls { up: true, left: false, down: false, right: false });
    g.push_controls(idle());
    g.update(0, (1.0, 1.1), false);
    assert_eq!(g.last_position(), (1.0, 1.1));
    // Blocked: stays where it was.
    g.update(1, (1.0, 1.2), true);
    assert_eq!(g.last_position(), (1.0, 1.1));
    // No key held: stays even if the candidate is free.
    g.update(2, (5.0, 5.0), false);
    assert_eq!(g.last_position(), (1.0, 1.1));
    assert_eq!(g.position(0), (1.0, 1.1));
    assert_eq!(g.position(1), (1.0, 1.1));
    assert_eq!(g.position(100), (1.0, 1.1));
}

#[test]
fn recording_reset_keeps_controls_for_replay() {
    let mut g: Recording<P> = Recording::new((0.0, 0.0));
    let c = Controls { up: false, left: true, down: false, right: false };
    g.push_controls(c);
    g.update(0, (-0.1, 0.0), false);
    g.teleport((4.5, 4.5));
    assert_eq!(g.last_position(), (4.5, 4.5));
    g.reset((2.0, 2.0));
    assert_eq!(g.last_position(), (2.0, 2.0));
    assert_eq!(g.controls_at(0), Some(c));
}

#[test]
fn spatial_lists_players_by_tile() {
    let sp = PlayersSpatial::build(vec![t(1, 1), t(2, 2), t(1, 1)]);
    assert!(sp.contains_key(t(1, 1)));
    assert!(!sp.contains_key(t(3, 3)));
    assert_eq!(sp.get(t(1, 1)), Some(vec![0, 2]));
    assert_eq!(sp.get(t(2, 2)), Some(vec![1]));
    assert_eq!(sp.get(t(0, 0)), None);
}

#[test]
fn spatial_around_looks_left_and_down_only() {
    // Players on (4,4), (3,4), (4,3), (3,3), (5,5), (4,5).
    let sp = PlayersSpatial::build(vec![t(4, 4), t(3, 4), t(4, 3), t(3, 3), t(5, 5), t(4, 5)]);
    assert_eq!(sp.around(t(4, 4)), vec![3, 1, 2, 0]);
}

#[test]
fn new_game_from_level() {
    let lv = level();
    assert!(lv.all_teleporters_connected());
    let g = Game::new(&lv);
    assert_eq!(g.clock, Clock { tick: 0, rewind: false, clear_players: false, paused: true });
    assert_eq!(g.players.len(), 1);
    assert_eq!(g.players[0].last_position(), (2.5, 2.5));
    assert_eq!(g.buttons.len(), 2);
    assert_eq!(g.buttons[0].connections, vec![t(5, 5), t(6, 6)]);
    assert!(!g.buttons[1].active);
    assert_eq!(g.doors, vec![Door { position: t(5, 5), kind: DoorTile::Horizontal, open: false }]);
    assert_eq!(g.teleporters, vec![Teleporter { position: t(6, 6), destination: t(9, 9) }]);
    assert_eq!(g.bulbs.len(), 2);
    assert_eq!(g.bulbs[1].position(0), (8.5, 8.5));
    assert_eq!(g.the_machine, TheMachine { slots_occupied: 0 });
    assert!(!g.is_won());
}

#[test]
fn unconnected_teleporter_is_detected() {
    let mut lv = level();
    lv.teleporters.push(TeleporterTile { position: t(1, 9), connection: None });
    assert!(!lv.all_teleporters_connected());
}

#[test]
fn paused_game_waits_for_a_key() {
    let mut g = Game::new(&level());
    let f = g.update(&vec![]);
    assert_eq!(f.step, Step::Waiting);
    assert!(f.sounds.is_empty());
    assert_eq!(g.clock.tick, 0);
    let f = g.update(&vec![down(Key::W)]);
    assert_eq!(f.step, Step::Moved { tick: 0 });
    assert_eq!(f.sounds, vec![Sound::Start]);
    assert!(!g.clock.paused);
    assert_eq!(g.clock.tick, 1);
    assert_eq!(g.players[0].controls_at(0), Some(Controls { up: true, left: false, down: false, right: false }));
    // Running: each update moves on one tick and records the held keys.
    let f = g.update(&vec![up(Key::W)]);
    assert_eq!(f.step, Step::Moved { tick: 1 });
    assert!(f.sounds.is_empty());
    assert_eq!(g.players[0].controls_at(1), Some(idle()));
}

#[test]
fn loop_ends_at_loop_ticks_and_rewinds() {
    let mut g = Game::new(&level());
    g.update(&vec![down(Key::D)]);
    for _ in 1..LOOP_TICKS - 1 {
        let f = g.update(&vec![]);
        assert!(matches!(f.step, Step::Moved { .. }));
    }
    assert_eq!(g.clock.tick, LOOP_TICKS - 1);
    let f = g.update(&vec![]);
    assert_eq!(f.step, Step::Moved { tick: LOOP_TICKS - 1 });
    assert_eq!(f.sounds, vec![Sound::Rewind]);
    assert_eq!(g.clock.tick, LOOP_TICKS);
    assert!(g.clock.rewind && g.clock.paused);
    // Rewinding: back by REWIND_STEP per update, down to zero.
    let f = g.update(&vec![]);
    assert_eq!(f.step, Step::Rewinding);
    assert_eq!(g.clock.tick, LOOP_TICKS - REWIND_STEP);
    let mut n = 1;
    loop {
        let f = g.update(&vec![]);
        n += 1;
        if f.step == (Step::LoopRestart { cleared: false }) {
            break;
        }
        assert_eq!(f.step, Step::Rewinding);
    }
    assert_eq!(n, LOOP_TICKS / REWIND_STEP);
    assert_eq!(g.clock, Clock { tick: 0, rewind: false, clear_players: false, paused: true });
    // The ghost keeps its controls and starts over; a fresh player joins.
    assert_eq!(g.players.len(), 2);
    assert_eq!(g.players[0].last_position(), (2.5, 2.5));
    assert_eq!(g.players[0].controls_at(0), Some(Controls { up: false, left: false, down: false, right: true }));
    assert_eq!(g.players[1].controls_at(0), None);
}

#[test]
fn space_rewinds_once_with_one_sound() {
    let mut g = Game::new(&level());
    g.update(&vec![down(Key::W)]);
    for _ in 0..20 {
        g.update(&vec![]);
    }
    assert_eq!(g.clock.tick, 21);
    let f = g.update(&vec![down(Key::Space), down(Key::Space)]);
    assert_eq!(f.sounds, vec![Sound::Rewind]);
    assert_eq!(f.step, Step::Rewinding);
    assert_eq!(g.clock.tick, 16);
    assert!(g.clock.rewind && g.clock.paused);
}

#[test]
fn r_clears_the_ghosts_when_the_rewind_ends() {
    let mut g = Game::new(&level());
    g.update(&vec![down(Key::W)]);
    g.update(&vec![down(Key::Space)]);
    assert_eq!(g.clock.tick, 0);
    // Space at tick 1 wound back to 0: the loop restarted with a second player.
    assert_eq!(g.players.len(), 2);
    g.update(&vec![]);
    for _ in 0..3 {
        g.update(&vec![]);
    }
    let f = g.update(&vec![down(Key::R)]);
    assert_eq!(f.step, Step::LoopRestart { cleared: true });
    assert_eq!(g.players.len(), 1);
    assert!(!g.clock.clear_players);
}

#[test]
fn escape_restarts_with_one_player() {
    let mut g = Game::new(&level());
    g.update(&vec![down(Key::W)]);
    g.update(&vec![down(Key::Space)]);
    assert_eq!(g.players.len(), 2);
    g.update(&vec![down(Key::D)]);
    let f = g.update(&vec![down(Key::Escape)]);
    assert!(f.restarted);
    assert_eq!(g.players.len(), 1);
    assert_eq!(g.players[0].controls_at(0), Some(Controls { up: true, left: false, down: false, right: true }));
    assert_eq!(f.step, Step::Moved { tick: 0 });
    assert_eq!(g.clock.tick, 1);
}

#[test]
fn won_game_ignores_updates() {
    let mut g = Game::new(&level());
    g.the_machine = TheMachine { slots_occupied: 6 };
    assert!(g.is_won());
    let f = g.update(&vec![down(Key::W), down(Key::Escape)]);
    assert_eq!(f.step, Step::Won);
    assert!(f.sounds.is_empty());
    assert!(g.clock.paused);
    assert_eq!(g.controls, idle());
}

#[test]
fn walls_and_closed_doors_block() {
    let mut g = Game::new(&level());
    assert!(g.blocked(t(0, 0)));
    assert!(g.blocked(t(5, 5)));
    assert!(!g.blocked(t(2, 2)));
    g.doors[0].open = true;
    assert!(!g.blocked(t(5, 5)));
    assert!(is_wall(&g.walls, t(1, 0)));
}

#[test]
fn move_player_uses_recorded_controls() {
    let mut g = Game::new(&level());
    let f = g.update(&vec![down(Key::W)]);
    if let Step::Moved { tick } = f.step {
        let blocked = g.blocked(t(2, 2));
        g.move_players(tick, &vec![((2.5, 2.6), blocked)]);
    }
    assert_eq!(g.players[0].last_position(), (2.5, 2.6));
    assert_eq!(g.players[0].position(g.clock.tick), (2.5, 2.6));
    g.teleport(0, (9.5, 9.5));
    assert_eq!(g.players[0].last_position(), (9.5, 9.5));
}

#[test]
fn buttons_open_doors_and_fire_teleporters_on_the_edge() {
    let mut g = Game::new(&level());
    // Player 0 stands on the first button (3,3), wired to door (5,5) and teleporter (6,6).
    // Player 1 stands on the teleporter.
    g.players.push(Recording::new((6.5, 6.5)));
    let sp = PlayersSpatial::build(vec![t(3, 3), t(6, 6)]);
    let fx = g.update_buttons(&sp, vec![true]);
    // Button 1 (4,4) is last wired to the door and nobody stands on it: closed.
    assert_eq!(g.doors[0].open, false);
    assert!(g.buttons[0].active);
    assert!(!g.buttons[1].active);
    // Button 0 opened the door, button 1 closed it: two door sounds.
    assert_eq!(fx.sounds, vec![Sound::Teleport, Sound::Door, Sound::Door]);
    assert_eq!(fx.activated, vec![0]);
    assert_eq!(fx.ready, vec![false]);
    assert_eq!(fx.teleports, vec![(1, t(9, 9))]);
    // Still standing there: the teleporter does not fire again.
    let fx = g.update_buttons(&sp, vec![true]);
    assert!(fx.activated.is_empty());
    assert!(fx.teleports.is_empty());
    assert_eq!(fx.sounds, vec![Sound::Door, Sound::Door]);
}

#[test]
fn door_follows_last_wired_button() {
    let mut g = Game::new(&level());
    let sp = PlayersSpatial::build(vec![t(4, 4)]);
    let fx = g.update_buttons(&sp, vec![true]);
    assert!(g.doors[0].open);
    assert_eq!(fx.sounds, vec![Sound::Door]);
    let sp = PlayersSpatial::build(vec![t(0, 9)]);
    let fx = g.update_buttons(&sp, vec![true]);
    assert!(!g.doors[0].open);
    assert_eq!(fx.sounds, vec![Sound::Door]);
    assert!(!g.buttons[1].active);
}

#[test]
fn teleporter_not_ready_does_not_fire() {
    let mut g = Game::new(&level());
    let sp = PlayersSpatial::build(vec![t(3, 3)]);
    let fx = g.update_buttons(&sp, vec![false]);
    assert!(fx.activated.is_empty());
    assert!(!fx.sounds.contains(&Sound::Teleport));
}

#[test]
fn button_update_alone() {
    let mut b = Button::new(t(1, 1), vec![t(2, 2)]);
    let mut doors = vec![Door::new(t(2, 2), DoorTile::Vertical)];
    let teles: Vec<Teleporter> = vec![];
    let mut fx = ButtonEffects { ready: vec![], sounds: vec![], activated: vec![], teleports: vec![] };
    let sp = PlayersSpatial::build(vec![t(1, 1)]);
    b.update(&sp, &mut doors, &teles, &mut fx);
    assert!(b.active);
    assert!(doors[0].is_open());
    assert_eq!(fx.sounds, vec![Sound::Door]);
}

#[test]
fn bulbs_are_carried_and_inserted() {
    let mut g = Game::new(&level());
    // Paused: bulbs do not move.
    assert!(!g.bulb_moves(&vec![]));
    // Player 0 stands on tile (7, 7); the bulbs lie on (7, 7) and (8, 8).
    let sp = PlayersSpatial::build(vec![t(7, 7)]);
    let tiles = vec![t(7, 7), t(8, 8)];
    let sounds = g.update_bulbs(&vec![BulbChoice::PickUp(0), BulbChoice::Stay], &sp, &tiles);
    assert!(sounds.is_empty());
    assert_eq!(g.bulbs[0].carrier(), None);
    g.update(&vec![down(Key::W)]);
    assert!(g.bulb_moves(&vec![]));
    assert_eq!(g.next_bulb_position(0), (7.5, 7.5));
    let sounds = g.update_bulbs(&vec![BulbChoice::PickUp(0), BulbChoice::Insert], &sp, &tiles);
    // A loose bulb cannot go into the machine.
    assert_eq!(sounds, vec![Sound::Pickup]);
    assert!(g.bulbs[0].is_carried(g.clock.tick));
    assert!(!g.bulbs[0].is_carried(0));
    assert_eq!(g.bulbs[0].carrier(), Some(0));
    assert_eq!(g.bulbs[1].carrier(), None);
    g.update(&vec![]);
    let expected = g.players[0].position(g.clock.tick);
    assert_eq!(g.next_bulb_position(0), expected);
    // The first bulb goes in; the second does not move that tick.
    assert!(!g.bulb_moves(&vec![BulbChoice::Insert]));
    assert!(g.bulb_moves(&vec![BulbChoice::Stay]));
    let sounds = g.update_bulbs(&vec![BulbChoice::Insert, BulbChoice::PickUp(0)], &sp, &tiles);
    assert_eq!(sounds, vec![Sound::Drop]);
    assert_eq!(g.the_machine.slots_occupied, 1);
    assert!(g.clock.rewind && g.clock.paused && g.clock.clear_players);
    assert_eq!(g.bulbs.len(), 1);
    assert_eq!(g.bulbs[0].position(0), (8.5, 8.5));
    assert_eq!(g.bulbs[0].carrier(), None);
}

#[test]
fn bulbs_go_back_when_the_loop_restarts() {
    let mut g = Game::new(&level());
    g.update(&vec![down(Key::W)]);
    let sp = PlayersSpatial::build(vec![t(8, 8)]);
    g.update_bulbs(&vec![BulbChoice::Stay, BulbChoice::PickUp(0)], &sp, &vec![t(7, 7), t(8, 8)]);
    assert_eq!(g.bulbs[1].carrier(), Some(0));
    let f = g.update(&vec![down(Key::Space)]);
    assert_eq!(f.step, Step::LoopRestart { cleared: false });
    assert_eq!(g.bulbs[1].carrier(), None);
    assert_eq!(g.bulbs[1].position(3), (8.5, 8.5));
}

#[test]
fn level_text_is_read() {
    let text = "# a level\nwall 0 0\nstart 2 2  # where it begins\nbutton 3 3 5 5 6 6\nhdoor 5 5\nvdoor 7 7\nteleporter 6 6 9 9\nteleporter 1 9\nbulb 7 7\n\nmachine -10 10\n";
    let l = parse_level(&text.as_bytes().to_vec()).unwrap();
    assert_eq!(l.walls, vec![t(0, 0)]);
    assert_eq!(l.player_start, t(2, 2));
    assert_eq!(l.buttons.len(), 1);
    assert_eq!(l.buttons[0].position, t(3, 3));
    assert_eq!(l.buttons[0].connections, vec![t(5, 5), t(6, 6)]);
    assert_eq!(
        l.doors,
        vec![
            DoorSpot { position: t(5, 5), kind: DoorTile::Horizontal },
            DoorSpot { position: t(7, 7), kind: DoorTile::Vertical }
        ]
    );
    assert_eq!(
        l.teleporters,
        vec![
            TeleporterTile { position: t(6, 6), connection: Some(t(9, 9)) },
            TeleporterTile { position: t(1, 9), connection: None }
        ]
    );
    assert_eq!(l.bulbs, vec![t(7, 7)]);
    assert_eq!(l.the_machine, t(-10, 10));
    assert!(!l.all_teleporters_connected());
}

#[test]
fn level_text_errors() {
    let read = |s: &str| parse_level(&s.as_bytes().to_vec()).err();
    assert_eq!(read("start 1 1\nwall 1\nmachine 0 0"), Some(LevelError::BadLine(2)));
    assert_eq!(read("start 1 1\nwall 1 x\nmachine 0 0"), Some(LevelError::BadLine(2)));
    assert_eq!(read("start 1 1\nfloor 1 1\nmachine 0 0"), Some(LevelError::BadLine(2)));
    assert_eq!(read("start 1 1\nwall 1 2147483648\nmachine 0 0"), Some(LevelError::BadLine(2)));
    assert_eq!(read("start 1 1\nwall 1 -2147483648\nmachine 0 0"), None);
    assert_eq!(read("wall 1 1\nmachine 0 0"), Some(LevelError::NoStart));
    assert_eq!(read("start 1 1"), Some(LevelError::NoMachine));
    assert_eq!(read("start 1 1\nmachine 0 0\nbutton 1"), Some(LevelError::BadLine(3)));
}

#[test]
fn level_text_words_and_comments() {
    let text = "start\t1 1\r\n# a comment line\nwall 2 2#glued comment\n \t \nmachine 0 0\n";
    let l = parse_level(&text.as_bytes().to_vec()).unwrap();
    assert_eq!(l.player_start, t(1, 1));
    assert_eq!(l.walls, vec![t(2, 2)]);
    assert_eq!(l.the_machine, t(0, 0));
    let bad = "start 1 1\n# wall x\n\nmachine 0 0\nwall 1 1 1\nwall 2";
    assert_eq!(parse_level(&bad.as_bytes().to_vec()).err(), Some(LevelError::BadLine(5)));
}

#[test]
fn bulb_alone() {
    let mut b: Bulb<P> = Bulb::new((1.0, 2.0));
    b.push_position((1.5, 2.0));
    assert_eq!(b.position(0), (1.5, 2.0));
    b.pick_up(3, 7);
    assert!(b.is_carried(3));
    assert!(!b.is_carried(2));
    b.insert();
    assert!(b.is_inserted());
    b.reset();
    assert_eq!(b.position(0), (1.0, 2.0));
    assert_eq!(b.carrier(), None);
}

#[test]
fn machine_counts_bulbs() {
    let mut m = TheMachine::new();
    for _ in 0..5 {
        m.add_bulb();
    }
    assert!(!m.is_full());
    m.add_bulb();
    assert!(m.is_full());
}

#[test]
fn tile_offset_and_equality() {
    assert_eq!(t(3, 4).offset(-1, 0), t(2, 4));
    assert!(t(3, 4).same(&t(3, 4)));
    assert!(!t(3, 4).same(&t(4, 3)));
}
