use vstd::prelude::*;
use crate::input::{Controls, spec_direction};

verus! {

/// A ghost's recorded run through the loop: the controls that were held on each tick
/// of movement, and the position after each of those ticks (the first entry is
/// where the run started).
pub struct Recording<P> {
    controls: Vec<Controls>,
    positions: Vec<P>,
}

/// What a ghost holds, as sequences.
pub struct RecordingView<P> {
    pub controls: Seq<Controls>,
    pub positions: Seq<P>,
}

impl<P> View for Recording<P> {
    type V = RecordingView<P>;

    closed spec fn view(&self) -> RecordingView<P> {
        RecordingView { controls: self.controls@, positions: self.positions@ }
    }
}

/// Where a run of positions stands at `tick`: the position recorded after that
/// tick if there is one, else the last one recorded.
pub open spec fn position_at<P>(positions: Seq<P>, tick: int) -> P {
    if tick + 1 < positions.len() {
        positions[tick + 1]
    } else {
        positions.last()
    }
}

/// Whether a set of held keys asks to move at all.
pub open spec fn moves(c: Controls) -> bool {
    spec_direction(c) != (0int, 0int)
}

/// The positions after one movement tick: with controls recorded for `tick`,
/// one position is appended, the candidate when the keys ask to move and the
/// candidate is free, else the last position again; with none recorded,
/// nothing changes.
pub open spec fn step_positions<P>(
    g: RecordingView<P>,
    tick: int,
    candidate: P,
    colliding: bool,
) -> Seq<P> {
    if 0 <= tick < g.controls.len() {
        if moves(g.controls[tick]) && !colliding {
            g.positions.push(candidate)
        } else {
            g.positions.push(g.positions.last())
        }
    } else {
        g.positions
    }
}

impl<P> Recording<P> {
    /// A recording is never without a position.
    pub open spec fn wf(&self) -> bool {
        self@.positions.len() >= 1
    }
}

impl<P: Copy> Recording<P> {
    /// A ghost that has recorded nothing yet and stands at `position`.
    pub fn new(position: P) -> (g: Recording<P>)
        ensures
            g@.controls == Seq::<Controls>::empty(),
            g@.positions == seq![position],
            g.wf(),
    {
        let mut positions = Vec::new();
        positions.push(position);
        Recording { controls: Vec::new(), positions }
    }

    /// Moves the ghost, now, to `destination`: its last position is replaced.
    pub fn teleport(&mut self, destination: P)
        requires
            old(self).wf(),
        ensures
            final(self).wf(),
            final(self)@.controls == old(self)@.controls,
            final(self)@.positions == old(self)@.positions.update(
                old(self)@.positions.len() - 1,
                destination,
            ),
    {
        let last = self.positions.len() - 1;
        self.positions.set(last, destination);
    }

    /// Starts the ghost's next loop from `position`; the recorded controls stay,
    /// so the ghost replays them.
    pub fn reset(&mut self, position: P)
        ensures
            final(self).wf(),
            final(self)@.controls == old(self)@.controls,
            final(self)@.positions == seq![position],
    {
        let mut positions = Vec::new();
        positions.push(position);
        self.positions = positions;
    }

    /// Records the controls held on the next tick of movement.
    pub fn push_controls(&mut self, controls: Controls)
        requires
            old(self).wf(),
        ensures
            final(self).wf(),
            final(self)@.controls == old(self)@.controls.push(controls),
            final(self)@.positions == old(self)@.positions,
    {
        self.controls.push(controls);
    }

    /// The controls recorded for `tick`, if any.
    pub fn controls_at(&self, tick: usize) -> (r: Option<Controls>)
        ensures
            r == (if tick < self@.controls.len() {
                Some(self@.controls[tick as int])
            } else {
                None
            }),
    {
        if tick < self.controls.len() {
            Some(self.controls[tick])
        } else {
            None
        }
    }

    /// Where the ghost stands at `tick`.
    pub fn position(&self, tick: usize) -> (r: P)
        requires
            self.wf(),
            tick < usize::MAX,
        ensures
            r == position_at(self@.positions, tick as int),
    {
        if tick + 1 < self.positions.len() {
            self.positions[tick + 1]
        } else {
            self.positions[self.positions.len() - 1]
        }
    }

    /// The ghost's last position.
    pub fn last_position(&self) -> (r: P)
        requires
            self.wf(),
        ensures
            r == self@.positions.last(),
    {
        self.positions[self.positions.len() - 1]
    }

    /// One tick of movement. `candidate` is where the recorded keys would carry
    /// the ghost from its last position, and `colliding` whether that spot is
    /// blocked; both are ignored when the keys ask for no movement.
    pub fn update(&mut self, tick: usize, candidate: P, colliding: bool)
        requires
            old(self).wf(),
        ensures
            final(self).wf(),
            final(self)@.controls == old(self)@.controls,
            final(self)@.positions == step_positions(old(self)@, tick as int, candidate, colliding),
    {
        if tick < self.controls.len() {
            let c = self.controls[tick];
            let (dx, dy) = c.direction();
            let last = self.positions[self.positions.len() - 1];
            if (dx != 0 || dy != 0) && !colliding {
                self.positions.push(candidate);
            } else {
                self.positions.push(last);
            }
        }
    }
}

} // verus!
