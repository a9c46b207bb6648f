use vstd::prelude::*;

verus! {

/// The keys the game reacts to; every other key is `Other`.
#[derive(Clone, Copy, Debug, PartialEq, Eq, Structural)]
pub enum Key {
    W,
    A,
    S,
    D,
    Space,
    R,
    Escape,
    Other,
}

/// A key going down or coming back up.
#[derive(Clone, Copy, Debug, PartialEq, Eq, Structural)]
pub enum InputEvent {
    KeyDown(Key),
    KeyUp(Key),
}

/// Which movement keys are held.
#[derive(Clone, Copy, Debug, PartialEq, Eq, Structural)]
pub struct Controls {
    pub up: bool,
    pub left: bool,
    pub down: bool,
    pub right: bool,
}

/// Controls with no key held.
pub open spec fn idle_controls() -> Controls {
    Controls { up: false, left: false, down: false, right: false }
}

/// What a key event does to the held movement keys: W, A, S and D set (down)
/// or clear (up) the flag of their direction; every other event changes nothing.
pub open spec fn apply_event(c: Controls, e: InputEvent) -> Controls {
    match e {
        InputEvent::KeyDown(Key::W) => Controls { up: true, ..c },
        InputEvent::KeyUp(Key::W) => Controls { up: false, ..c },
        InputEvent::KeyDown(Key::A) => Controls { left: true, ..c },
        InputEvent::KeyUp(Key::A) => Controls { left: false, ..c },
        InputEvent::KeyDown(Key::S) => Controls { down: true, ..c },
        InputEvent::KeyUp(Key::S) => Controls { down: false, ..c },
        InputEvent::KeyDown(Key::D) => Controls { right: true, ..c },
        InputEvent::KeyUp(Key::D) => Controls { right: false, ..c },
        _ => c,
    }
}

/// The controls after a run of events, applied from first to last.
pub open spec fn apply_events(c: Controls, es: Seq<InputEvent>) -> Controls
    decreases es.len(),
{
    if es.len() == 0 {
        c
    } else {
        apply_event(apply_events(c, es.drop_last()), es.last())
    }
}

/// The unit step of a set of held keys: up and right count +1, down and left -1,
/// opposite keys cancel.
pub open spec fn spec_direction(c: Controls) -> (int, int) {
    (
        (if c.right { 1int } else { 0int }) - (if c.left { 1int } else { 0int }),
        (if c.up { 1int } else { 0int }) - (if c.down { 1int } else { 0int }),
    )
}

impl Default for Controls {
    fn default() -> (r: Controls)
        ensures
            r == idle_controls(),
    {
        Controls { up: false, left: false, down: false, right: false }
    }
}

impl Controls {
    /// Whether any movement key is held.
    pub fn any(&self) -> (r: bool)
        ensures
            r == (self.up || self.left || self.down || self.right),
    {
        self.down || self.up || self.left || self.right
    }

    /// Applies one key event.
    pub fn apply(&mut self, event: InputEvent)
        ensures
            *final(self) == apply_event(*old(self), event),
    {
        match event {
            InputEvent::KeyDown(Key::W) => { self.up = true; },
            InputEvent::KeyUp(Key::W) => { self.up = false; },
            InputEvent::KeyDown(Key::A) => { self.left = true; },
            InputEvent::KeyUp(Key::A) => { self.left = false; },
            InputEvent::KeyDown(Key::S) => { self.down = true; },
            InputEvent::KeyUp(Key::S) => { self.down = false; },
            InputEvent::KeyDown(Key::D) => { self.right = true; },
            InputEvent::KeyUp(Key::D) => { self.right = false; },
            _ => {},
        }
    }

    /// The direction the held keys ask for, each component in -1..=1.
    pub fn direction(&self) -> (r: (i32, i32))
        ensures
            r.0 == spec_direction(*self).0,
            r.1 == spec_direction(*self).1,
    {
        let mut dx: i32 = 0;
        let mut dy: i32 = 0;
        if self.up {
            dy = dy + 1;
        }
        if self.down {
            dy = dy - 1;
        }
        if self.right {
            dx = dx + 1;
        }
        if self.left {
            dx = dx - 1;
        }
        (dx, dy)
    }
}

/// Holding a key and letting it go leaves the other keys as they were, and that
/// key released.
pub proof fn lemma_press_release(c: Controls, k: Key)
    ensures
        apply_event(apply_event(c, InputEvent::KeyDown(k)), InputEvent::KeyUp(k)) == (match k {
            Key::W => Controls { up: false, ..c },
            Key::A => Controls { left: false, ..c },
            Key::S => Controls { down: false, ..c },
            Key::D => Controls { right: false, ..c },
            _ => c,
        }),
{
}

/// A key event that is not a movement key leaves the controls unchanged.
pub proof fn lemma_other_keys_inert(c: Controls, k: Key, down: bool)
    requires
        k != Key::W && k != Key::A && k != Key::S && k != Key::D,
    ensures
        apply_event(c, if down { InputEvent::KeyDown(k) } else { InputEvent::KeyUp(k) }) == c,
{
}

} // verus!
